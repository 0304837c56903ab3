//! A host with control groups and processes that lives in memory.

use vstd::prelude::*;

use crate::backend::Shown;
use crate::capability;
use crate::capability::{CapabilityDescriptor, CapabilityState, CapabilityView, FeatureClass, TargetKind};
use crate::clock::Timestamp;
use crate::cpu;
use crate::cpuset;
use crate::cpuset::CpuSet;
use crate::error::{ErrorCode, ErrorView, SysboostError};
use crate::ids::{CgroupName, StateFingerprint, TargetId};
use crate::mutation::{EqualityKind, KindView, MutationKind, MutationView, SnapshotView};
use crate::text;
use crate::value::{
    CgroupGroupKind, CgroupId, CgroupView, CpuPeriod, CpuQuota, CpuWeight, IoPriority, IoWeight,
    NiceValue, ProcessId, TypedValue, UclampValue, ValueView,
};
use crate::workload;
use crate::workload::{
    ObservationView, WorkloadBackend, WorkloadControlIo, WorkloadObservation, WorkloadTarget,
};
use crate::workload_model;
use crate::workload_model::{CgroupModel, GroupModel, ProcessModel};
use crate::workload_node;
use crate::workload_node::WorkloadNode;

verus! {

/// Texts as a set.
spec fn texts(v: Seq<String>) -> Set<Seq<char>> {
    Set::new(|t: Seq<char>| text::deep(v).contains(t))
}

/// Processes as a set.
spec fn members(v: Seq<ProcessId>) -> Set<ProcessId> {
    Set::new(|p: ProcessId| v.contains(p))
}

proof fn lemma_texts_push(v: Seq<String>, added: String)
    ensures
        texts(v.push(added)) == texts(v).insert(added@),
{
    let after = v.push(added);
    assert forall|t: Seq<char>| texts(after).contains(t) == texts(v).insert(added@).contains(t) by {
        if text::deep(v).contains(t) {
            let k = text::deep(v).index_of(t);
            assert(text::deep(after)[k] == t);
        }
        if t == added@ {
            assert(text::deep(after)[v.len() as int] == t);
        }
        if text::deep(after).contains(t) && t != added@ {
            let k = text::deep(after).index_of(t);
            assert(text::deep(v)[k] == t);
        }
    }
    assert(texts(after) =~= texts(v).insert(added@));
}

fn holds_text(v: &Vec<String>, wanted: &str) -> (r: bool)
    ensures
        r == texts(v@).contains(wanted@),
{
    let mut i: usize = 0;
    while i < v.len()
        invariant
            i <= v@.len(),
            forall|j: int| 0 <= j < i ==> text::deep(v@)[j] != wanted@,
        decreases v@.len() - i,
    {
        assert(text::deep(v@)[i as int] == v@[i as int]@);
        if text::same(v[i].as_str(), wanted) {
            return true;
        }
        i = i + 1;
    }
    false
}

fn copy_texts(v: &Vec<String>) -> (r: Vec<String>)
    ensures
        texts(r@) == texts(v@),
{
    let mut r: Vec<String> = Vec::new();
    let mut i: usize = 0;
    while i < v.len()
        invariant
            i <= v@.len(),
            r@.len() == i,
            forall|j: int| 0 <= j < i ==> (#[trigger] r@[j])@ == v@[j]@,
        decreases v@.len() - i,
    {
        r.push(v[i].clone());
        i = i + 1;
    }
    assert(text::deep(r@) =~= text::deep(v@));
    r
}

fn without_text(v: &Vec<String>, unwanted: &str) -> (r: Vec<String>)
    ensures
        texts(r@) == texts(v@).remove(unwanted@),
{
    let mut r: Vec<String> = Vec::new();
    let mut i: usize = 0;
    assert(texts(r@) =~= texts(v@.take(0)).remove(unwanted@));
    while i < v.len()
        invariant
            i <= v@.len(),
            texts(r@) == texts(v@.take(i as int)).remove(unwanted@),
        decreases v@.len() - i,
    {
        proof {
            assert(v@.take(i + 1) =~= v@.take(i as int).push(v@[i as int]));
            lemma_texts_push(v@.take(i as int), v@[i as int]);
        }
        if !text::same(v[i].as_str(), unwanted) {
            let kept = v[i].clone();
            proof {
                lemma_texts_push(r@, kept);
            }
            r.push(kept);
        }
        assert(texts(r@) =~= texts(v@.take(i + 1)).remove(unwanted@));
        i = i + 1;
    }
    assert(v@.take(i as int) =~= v@);
    r
}

proof fn lemma_members_push(v: Seq<ProcessId>, added: ProcessId)
    ensures
        members(v.push(added)) == members(v).insert(added),
{
    let after = v.push(added);
    assert forall|p: ProcessId| members(after).contains(p) == members(v).insert(added).contains(p) by {
        if v.contains(p) {
            let k = v.index_of(p);
            assert(after[k] == p);
        }
        if p == added {
            assert(after[v.len() as int] == p);
        }
        if after.contains(p) && p != added {
            let k = after.index_of(p);
            assert(v[k] == p);
        }
    }
    assert(members(after) =~= members(v).insert(added));
}

fn without_member(v: &Vec<ProcessId>, unwanted: ProcessId) -> (r: Vec<ProcessId>)
    ensures
        members(r@) == members(v@).remove(unwanted),
{
    let mut r: Vec<ProcessId> = Vec::new();
    let mut i: usize = 0;
    assert(members(r@) =~= members(v@.take(0)).remove(unwanted));
    while i < v.len()
        invariant
            i <= v@.len(),
            members(r@) == members(v@.take(i as int)).remove(unwanted),
        decreases v@.len() - i,
    {
        proof {
            assert(v@.take(i + 1) =~= v@.take(i as int).push(v@[i as int]));
            lemma_members_push(v@.take(i as int), v@[i as int]);
        }
        if v[i] != unwanted {
            proof {
                lemma_members_push(r@, v@[i as int]);
            }
            r.push(v[i]);
        }
        assert(members(r@) =~= members(v@.take(i + 1)).remove(unwanted));
        i = i + 1;
    }
    assert(v@.take(i as int) =~= v@);
    r
}

/// One group of the host.
#[derive(Clone, Debug)]
struct FixtureGroup {
    key: TargetId,
    identity: CgroupId,
    relative_path: String,
    controllers: Vec<String>,
    delegated: Vec<String>,
    cpu_weight: CpuWeight,
    cpu_quota: CpuQuota,
    cpu_period: CpuPeriod,
    cpuset: CpuSet,
    io_weight: IoWeight,
    uclamp_min: UclampValue,
    uclamp_max: UclampValue,
    processes: Vec<ProcessId>,
}

impl View for FixtureGroup {
    type V = GroupModel;

    closed spec fn view(&self) -> GroupModel {
        GroupModel {
            key: self.key@,
            identity: self.identity@,
            relative_path: self.relative_path@,
            controllers: texts(self.controllers@),
            delegated: texts(self.delegated@),
            cpu_weight: self.cpu_weight,
            cpu_quota: self.cpu_quota,
            cpu_period: self.cpu_period,
            cpuset: self.cpuset@,
            io_weight: self.io_weight,
            uclamp_min: self.uclamp_min,
            uclamp_max: self.uclamp_max,
            processes: members(self.processes@),
        }
    }
}

/// One process of the host.
#[derive(Clone, Debug)]
struct FixtureProcess {
    identity: ProcessId,
    cgroup: TargetId,
    nice: NiceValue,
    ioprio: IoPriority,
}

impl FixtureProcess {
    /// What the process holds, whatever its identity.
    spec fn held(self) -> ProcessModel {
        ProcessModel { cgroup: self.cgroup@, nice: self.nice, ioprio: self.ioprio }
    }
}

/// Where a process stands, or -1.
spec fn place(processes: Seq<FixtureProcess>, process: ProcessId) -> int
    decreases processes.len(),
{
    if processes.len() == 0 {
        -1
    } else if processes.last().identity == process {
        processes.len() - 1
    } else {
        place(processes.drop_last(), process)
    }
}

spec fn processes_view(processes: Seq<FixtureProcess>) -> Map<ProcessId, ProcessModel> {
    Map::new(
        |process: ProcessId| place(processes, process) >= 0,
        |process: ProcessId| processes[place(processes, process)].held(),
    )
}

spec fn groups_view(groups: Seq<FixtureGroup>) -> Seq<GroupModel> {
    groups.map_values(|group: FixtureGroup| group@)
}

proof fn lemma_place(processes: Seq<FixtureProcess>, process: ProcessId)
    ensures
        -1 <= place(processes, process) < processes.len(),
        place(processes, process) >= 0 ==> processes[place(processes, process)].identity == process,
    decreases processes.len(),
{
    if processes.len() > 0 && processes.last().identity != process {
        lemma_place(processes.drop_last(), process);
    }
}

proof fn lemma_place_kept(
    processes: Seq<FixtureProcess>,
    i: int,
    changed: FixtureProcess,
    process: ProcessId,
)
    requires
        0 <= i < processes.len(),
        processes[i].identity == changed.identity,
    ensures
        place(processes.update(i, changed), process) == place(processes, process),
    decreases processes.len(),
{
    let after = processes.update(i, changed);
    assert(after.last().identity == processes.last().identity);
    if processes.last().identity != process {
        if i < processes.len() - 1 {
            assert(after.drop_last() =~= processes.drop_last().update(i, changed));
            lemma_place_kept(processes.drop_last(), i, changed, process);
        } else {
            assert(after.drop_last() =~= processes.drop_last());
        }
    }
}

proof fn lemma_process_changed(processes: Seq<FixtureProcess>, process: ProcessId, changed: FixtureProcess)
    requires
        place(processes, process) >= 0,
        changed.identity == process,
    ensures
        processes_view(processes.update(place(processes, process), changed)) == processes_view(
            processes,
        ).insert(process, changed.held()),
{
    let i = place(processes, process);
    lemma_place(processes, process);
    let after = processes.update(i, changed);
    assert forall|p: ProcessId| #[trigger] place(after, p) == place(processes, p) by {
        lemma_place_kept(processes, i, changed, p);
    }
    assert forall|p: ProcessId| p != process && place(processes, p) >= 0 implies after[#[trigger]
    place(processes, p)] == processes[place(processes, p)] by {
        lemma_place(processes, p);
    }
    let expected = processes_view(processes).insert(process, changed.held());
    assert forall|p: ProcessId| #[trigger]
        processes_view(after).contains_key(p) == expected.contains_key(p) by {
        assert(place(after, p) == place(processes, p));
    }
    assert forall|p: ProcessId| #[trigger] processes_view(after).contains_key(p) implies processes_view(
        after,
    )[p] == expected[p] by {
        assert(place(after, p) == place(processes, p));
        if p != process {
            assert(after[place(processes, p)] == processes[place(processes, p)]);
        }
    }
    assert(processes_view(after) =~= expected);
}

proof fn lemma_process_added(processes: Seq<FixtureProcess>, added: FixtureProcess)
    ensures
        processes_view(processes.push(added)) == processes_view(processes).insert(
            added.identity,
            added.held(),
        ),
{
    let after = processes.push(added);
    assert(after.drop_last() =~= processes);
    let expected = processes_view(processes).insert(added.identity, added.held());
    assert forall|p: ProcessId| #[trigger]
        processes_view(after).contains_key(p) == expected.contains_key(p) by {
        lemma_place(processes, p);
        assert(place(after, p) >= 0 <==> p == added.identity || place(processes, p) >= 0);
    }
    assert forall|p: ProcessId| #[trigger] processes_view(after).contains_key(p) implies processes_view(
        after,
    )[p] == expected[p] by {
        lemma_place(processes, p);
        if p != added.identity {
            assert(place(after, p) == place(processes, p));
        }
    }
    assert(processes_view(after) =~= expected);
}

/// A host with control groups and processes that lives in memory. A clone is a host of its
/// own: what is written to one is not seen in the other. The host that a backend drives is
/// reached through the backend, with `fixture_mut`.
#[derive(Clone, Debug)]
pub struct CgroupFixture {
    groups: Vec<FixtureGroup>,
    processes: Vec<FixtureProcess>,
}

impl View for CgroupFixture {
    type V = CgroupModel;

    closed spec fn view(&self) -> CgroupModel {
        CgroupModel {
            groups: groups_view(self.groups@),
            processes: processes_view(self.processes@),
        }
    }
}

/// The root of a host in memory.
pub open spec fn fixture_root() -> CgroupView {
    CgroupView { mount_id: 1, inode: 1, handle: workload_node::ROOT_TARGET@ }
}

fn root_identity() -> (r: CgroupId)
    ensures
        r@ == fixture_root(),
{
    proof {
        reveal_strlit("cgroup.root");
    }
    match TargetId::new(workload_node::ROOT_TARGET) {
        Ok(handle) => CgroupId::new(1, 1, handle),
        Err(_) => {
            assert(false);
            vstd::pervasive::unreached()
        },
    }
}

fn name_controllers() -> (r: Vec<String>)
    ensures
        texts(r@) == workload_model::all_controllers(),
{
    let mut r: Vec<String> = Vec::new();
    assert(texts(r@) =~= Set::empty());
    let cpu = "cpu".to_string();
    let cpuset = "cpuset".to_string();
    let io = "io".to_string();
    proof {
        lemma_texts_push(r@, cpu);
        lemma_texts_push(r@.push(cpu), cpuset);
        lemma_texts_push(r@.push(cpu).push(cpuset), io);
    }
    r.push(cpu);
    r.push(cpuset);
    r.push(io);
    r
}

fn first_cpus() -> (r: CpuSet)
    ensures
        r@ == seq![0u32, 1u32],
{
    let mut ids: Vec<u32> = Vec::new();
    ids.push(0);
    ids.push(1);
    proof {
        cpuset::canonical_of_ascending(ids@);
        assert(ids@ =~= seq![0u32, 1u32]);
    }
    match CpuSet::new(ids) {
        Ok(cpus) => cpus,
        Err(_) => {
            assert(false);
            vstd::pervasive::unreached()
        },
    }
}

fn make_group(
    identity: CgroupId,
    relative_path: String,
    controllers: Vec<String>,
    delegated: Vec<String>,
    cpuset: CpuSet,
) -> (r: FixtureGroup)
    ensures
        r@ == workload_model::fresh_group(
            identity@,
            relative_path@,
            texts(controllers@),
            texts(delegated@),
            cpuset@,
        ),
{
    let r = FixtureGroup {
        key: identity.handle.clone(),
        identity,
        relative_path,
        controllers,
        delegated,
        cpu_weight: CpuWeight { value: 100 },
        cpu_quota: CpuQuota::Max,
        cpu_period: CpuPeriod { value: 100_000 },
        cpuset,
        io_weight: IoWeight { value: 100 },
        uclamp_min: UclampValue::Value(0),
        uclamp_max: UclampValue::Max,
        processes: Vec::new(),
    };
    assert(r@.processes =~= Set::empty());
    r
}

fn require_controller(group: &FixtureGroup, controller: &str) -> (r: Result<(), SysboostError>)
    ensures
        cpu::failure(r) == workload_model::controller_refusal(group@, controller@),
{
    if !holds_text(&group.controllers, controller) {
        return Err(workload_node::unsupported("cgroup controller is unavailable"));
    }
    if !holds_text(&group.delegated, controller) {
        return Err(workload_node::permission_error("cgroup controller is not delegated"));
    }
    Ok(())
}

fn render_fixture_node(group: &FixtureGroup, node: WorkloadNode) -> (r: String)
    ensures
        r@ == workload_model::node_text(group@, node),
{
    let value = match node {
        WorkloadNode::CpuWeight => text::decimal(group.cpu_weight.get() as u128),
        WorkloadNode::CpuMax => workload_node::render_cpu_max(group.cpu_quota, group.cpu_period),
        WorkloadNode::CpusetCpus => workload_node::render_cpuset(&group.cpuset),
        WorkloadNode::IoWeight => text::decimal(group.io_weight.get() as u128),
        WorkloadNode::UclampMin => workload_node::render_uclamp(group.uclamp_min),
        WorkloadNode::UclampMax => workload_node::render_uclamp(group.uclamp_max),
    };
    text::join(value.as_str(), "\n")
}

fn read_value(group: &FixtureGroup, node: WorkloadNode) -> (r: TypedValue)
    ensures
        r@ == workload_model::node_value(group@, node),
{
    match node {
        WorkloadNode::CpuWeight => TypedValue::CgroupCpuWeight(group.cpu_weight),
        WorkloadNode::CpuMax => TypedValue::CgroupCpuMax {
            quota: group.cpu_quota,
            period: group.cpu_period,
        },
        WorkloadNode::CpusetCpus => TypedValue::CgroupCpuset(group.cpuset.clone()),
        WorkloadNode::IoWeight => TypedValue::CgroupIoWeight(group.io_weight),
        WorkloadNode::UclampMin => TypedValue::CgroupUclamp(group.uclamp_min),
        WorkloadNode::UclampMax => TypedValue::CgroupUclamp(group.uclamp_max),
    }
}

impl CgroupFixture {
    /// A host with a root.
    pub fn new() -> (r: CgroupFixture)
        ensures
            r@ == (CgroupModel {
                groups: seq![workload_model::added_group(fixture_root(), Seq::empty())],
                processes: Map::empty(),
            }),
    {
        let mut r = CgroupFixture { groups: Vec::new(), processes: Vec::new() };
        proof {
            reveal_strlit("");
            assert(""@ =~= Seq::empty());
            assert(r@.groups =~= Seq::empty());
            assert(r@.processes =~= Map::empty());
        }
        r.add_group(root_identity(), "");
        assert(r@.groups =~= seq![workload_model::added_group(fixture_root(), Seq::empty())]);
        r
    }

    /// The root of the host.
    pub fn root_id(&self) -> (r: CgroupId)
        ensures
            r@ == fixture_root(),
    {
        root_identity()
    }

    fn find(&self, key: &TargetId) -> (r: Option<usize>)
        ensures
            match r {
                Some(i) => i == workload_model::position(self@.groups, key@) && i
                    < self.groups@.len() && self@.groups[i as int] == self.groups@[i as int]@
                    && workload_model::group_at(self@, key@) == Some(self.groups@[i as int]@),
                None => workload_model::position(self@.groups, key@) == -1
                    && workload_model::group_at(self@, key@) is None,
            },
    {
        let ghost all = self@.groups;
        let mut i: usize = self.groups.len();
        assert(all.take(i as int) =~= all);
        while i > 0
            invariant
                i <= self.groups@.len(),
                all == groups_view(self.groups@),
                all == self@.groups,
                all.len() == self.groups@.len(),
                workload_model::position(all, key@) == workload_model::position(
                    all.take(i as int),
                    key@,
                ),
            decreases i,
        {
            proof {
                assert(all.take(i as int).last() == all[i - 1]);
                assert(all[i - 1] == self.groups@[i - 1]@);
                assert(all.take(i as int).drop_last() =~= all.take(i - 1));
            }
            if self.groups[i - 1].key.same(key) {
                return Some(i - 1);
            }
            i = i - 1;
        }
        None
    }

    fn find_process(&self, process: ProcessId) -> (r: Option<usize>)
        ensures
            match r {
                Some(i) => i == place(self.processes@, process) && i < self.processes@.len()
                    && self@.processes.contains_key(process) && self@.processes[process]
                    == self.processes@[i as int].held() && self.processes@[i as int].identity == process,
                None => place(self.processes@, process) == -1 && !self@.processes.contains_key(
                    process,
                ),
            },
    {
        let ghost all = self.processes@;
        let mut i: usize = self.processes.len();
        assert(all.take(i as int) =~= all);
        while i > 0
            invariant
                i <= self.processes@.len(),
                all == self.processes@,
                place(all, process) == place(all.take(i as int), process),
            decreases i,
        {
            proof {
                assert(all.take(i as int).last() == all[i - 1]);
                assert(all.take(i as int).drop_last() =~= all.take(i - 1));
            }
            if self.processes[i - 1].identity == process {
                return Some(i - 1);
            }
            i = i - 1;
        }
        None
    }

    fn resolve_group(&self, group: &CgroupId) -> (r: Result<usize, SysboostError>)
        ensures
            match r {
                Ok(i) => i == workload_model::position(self@.groups, group.handle@) && i
                    < self.groups@.len() && self@.groups[i as int] == self.groups@[i as int]@
                    && workload_model::resolved(self@, group@) == Ok::<GroupModel, ErrorView>(
                    self.groups@[i as int]@,
                ),
                Err(e) => workload_model::resolved(self@, group@) == Err::<GroupModel, ErrorView>(
                    e@,
                ),
            },
    {
        match self.find(&group.handle) {
            None => Err(workload_node::target_error("cgroup target was not discovered")),
            Some(i) => {
                let found = &self.groups[i].identity;
                if (group.mount_id != 0 && group.mount_id != found.mount_id) || (group.inode != 0
                    && group.inode != found.inode) {
                    Err(
                        workload_node::target_error(
                            "cgroup target identity does not match discovery",
                        ),
                    )
                } else {
                    Ok(i)
                }
            },
        }
    }

    fn insert_group(&mut self, added: FixtureGroup)
        ensures
            final(self)@ == workload_model::with_one(old(self)@, added@),
    {
        let ghost new = added@;
        let ghost all = self@.groups;
        let ghost before = self@;
        let mut at: usize = self.groups.len();
        let mut same = false;
        proof {
            assert(all.take(all.len() as int) =~= all);
            assert(workload_model::with_group(all, new) =~= workload_model::with_group(
                all.take(all.len() as int),
                new,
            ) + all.skip(all.len() as int));
        }
        while at > 0
            invariant_except_break
                !same,
                workload_model::with_group(all, new) == workload_model::with_group(
                    all.take(at as int),
                    new,
                ) + all.skip(at as int),
            invariant
                at <= self.groups@.len(),
                all == groups_view(self.groups@),
                all.len() == self.groups@.len(),
                new == added@,
                self@ == before,
            ensures
                same ==> at > 0 && workload_model::with_group(all, new) == all.take(at - 1).push(new)
                    + all.skip(at as int),
                !same ==> workload_model::with_group(all, new) == all.take(at as int).push(new)
                    + all.skip(at as int),
            decreases at,
        {
            let ghost head = all.take(at as int);
            proof {
                assert(head.last() == all[at - 1]);
                assert(all[at - 1] == self.groups@[at - 1]@);
                assert(head.drop_last() =~= all.take(at - 1));
            }
            if text::less(self.groups[at - 1].key.as_str(), added.key.as_str()) {
                break;
            }
            if self.groups[at - 1].key.same(&added.key) {
                same = true;
                break;
            }
            proof {
                assert(workload_model::with_group(all.take(at - 1), new).push(all[at - 1])
                    + all.skip(at as int) =~= workload_model::with_group(all.take(at - 1), new)
                    + all.skip(at - 1));
            }
            at = at - 1;
        }
        if same {
            self.groups.remove(at - 1);
            self.groups.insert(at - 1, added);
            assert(groups_view(self.groups@) =~= all.take(at - 1).push(new) + all.skip(at as int));
        } else {
            self.groups.insert(at, added);
            assert(groups_view(self.groups@) =~= all.take(at as int).push(new) + all.skip(
                at as int,
            ));
        }
    }

    /// Adds a group, or puts it in the place of one with the same target.
    pub fn add_group(&mut self, identity: CgroupId, relative_path: &str)
        ensures
            final(self)@ == workload_model::with_one(
                old(self)@,
                workload_model::added_group(identity@, relative_path@),
            ),
    {
        let group = make_group(
            identity,
            relative_path.to_string(),
            name_controllers(),
            name_controllers(),
            first_cpus(),
        );
        self.insert_group(group);
    }

    /// Adds a group below another, or puts it in the place of one with the same
    /// target.
    pub fn add_child_group(
        &mut self,
        parent: &CgroupId,
        name: &CgroupName,
        identity: CgroupId,
    ) -> (r: Result<CgroupId, SysboostError>)
        ensures
            (final(self)@, crate::error::viewed(r)) == match workload_model::resolved(
                old(self)@,
                parent@,
            ) {
                Err(e) => (old(self)@, Err::<CgroupView, ErrorView>(e)),
                Ok(found) => if identity.handle@ != workload_node::child_name(
                    parent.handle@,
                    name@,
                ) {
                    (
                        old(self)@,
                        Err::<CgroupView, ErrorView>(
                            workload_node::target_fault(
                                "fixture child identity handle is not canonical"@,
                            ),
                        ),
                    )
                } else {
                    (
                        workload_model::with_one(
                            old(self)@,
                            workload_model::child_group(found, name@, identity@),
                        ),
                        Ok::<CgroupView, ErrorView>(identity@),
                    )
                },
            },
    {
        let i = match self.resolve_group(parent) {
            Ok(i) => i,
            Err(e) => {
                return Err(e);
            },
        };
        let target = workload_node::child_target(&parent.handle, name);
        if !target.same(&identity.handle) {
            return Err(
                workload_node::target_error("fixture child identity handle is not canonical"),
            );
        }
        let group = self.make_child(i, name, identity.clone());
        self.insert_group(group);
        Ok(identity)
    }

    fn make_child(&self, i: usize, name: &CgroupName, identity: CgroupId) -> (r: FixtureGroup)
        requires
            i < self.groups@.len(),
        ensures
            r@ == workload_model::child_group(self.groups@[i as int]@, name@, identity@),
    {
        let parent = &self.groups[i];
        make_group(
            identity,
            workload_node::child_path(parent.relative_path.as_str(), name.as_str()),
            copy_texts(&parent.controllers),
            copy_texts(&parent.delegated),
            parent.cpuset.clone(),
        )
    }

    /// Says whether a controller may be used in a group.
    pub fn set_delegation(&mut self, group: &CgroupId, controller: &str, delegated: bool) -> (r:
        Result<(), SysboostError>)
        ensures
            (final(self)@, crate::error::plain(r)) == match workload_model::resolved(
                old(self)@,
                group@,
            ) {
                Err(e) => (old(self)@, Err::<(), ErrorView>(e)),
                Ok(found) => (
                    workload_model::replaced(
                        old(self)@,
                        GroupModel {
                            delegated: if delegated {
                                found.delegated.insert(controller@)
                            } else {
                                found.delegated.remove(controller@)
                            },
                            ..found
                        },
                    ),
                    Ok::<(), ErrorView>(()),
                ),
            },
    {
        let ghost all = self@.groups;
        proof {
            workload_model::lemma_position(all, group.handle@);
        }
        let i = match self.resolve_group(group) {
            Ok(i) => i,
            Err(e) => {
                return Err(e);
            },
        };
        let ghost found = all[i as int];
        let changed = if delegated {
            let mut changed = copy_texts(&self.groups[i].delegated);
            let added = controller.to_string();
            proof {
                lemma_texts_push(changed@, added);
            }
            changed.push(added);
            changed
        } else {
            without_text(&self.groups[i].delegated, controller)
        };
        self.groups[i].delegated = changed;
        assert(groups_view(self.groups@) =~= all.update(
            i as int,
            GroupModel { delegated: texts(changed@), ..found },
        ));
        Ok(())
    }

    /// Says whether a group has a controller.
    pub fn set_controller(&mut self, group: &CgroupId, controller: &str, available: bool) -> (r:
        Result<(), SysboostError>)
        ensures
            (final(self)@, crate::error::plain(r)) == match workload_model::resolved(
                old(self)@,
                group@,
            ) {
                Err(e) => (old(self)@, Err::<(), ErrorView>(e)),
                Ok(found) => (
                    workload_model::replaced(
                        old(self)@,
                        GroupModel {
                            controllers: if available {
                                found.controllers.insert(controller@)
                            } else {
                                found.controllers.remove(controller@)
                            },
                            ..found
                        },
                    ),
                    Ok::<(), ErrorView>(()),
                ),
            },
    {
        let ghost all = self@.groups;
        proof {
            workload_model::lemma_position(all, group.handle@);
        }
        let i = match self.resolve_group(group) {
            Ok(i) => i,
            Err(e) => {
                return Err(e);
            },
        };
        let ghost found = all[i as int];
        let changed = if available {
            let mut changed = copy_texts(&self.groups[i].controllers);
            let added = controller.to_string();
            proof {
                lemma_texts_push(changed@, added);
            }
            changed.push(added);
            changed
        } else {
            without_text(&self.groups[i].controllers, controller)
        };
        self.groups[i].controllers = changed;
        assert(groups_view(self.groups@) =~= all.update(
            i as int,
            GroupModel { controllers: texts(changed@), ..found },
        ));
        Ok(())
    }

    /// Takes a process out of a group, if there is such a group.
    fn leave(&mut self, key: &TargetId, process: ProcessId)
        ensures
            final(self)@ == workload_model::left(old(self)@, key@, process),
            final(self).processes == old(self).processes,
    {
        let ghost all = self@.groups;
        proof {
            workload_model::lemma_position(all, key@);
        }
        if let Some(i) = self.find(key) {
            let ghost found = all[i as int];
            let kept = without_member(&self.groups[i].processes, process);
            self.groups[i].processes = kept;
            assert(groups_view(self.groups@) =~= all.update(
                i as int,
                GroupModel { processes: found.processes.remove(process), ..found },
            ));
        }
    }

    /// Puts a process into a group.
    fn enter(&mut self, i: usize, process: ProcessId)
        requires
            i < old(self).groups@.len(),
            i == workload_model::position(old(self)@.groups, old(self).groups@[i as int].key@),
        ensures
            final(self)@ == workload_model::replaced(
                old(self)@,
                GroupModel {
                    processes: old(self).groups@[i as int]@.processes.insert(process),
                    ..old(self).groups@[i as int]@
                },
            ),
            final(self).processes == old(self).processes,
    {
        let ghost all = self@.groups;
        let ghost found = self.groups@[i as int]@;
        assert(all[i as int] == found);
        let mut kept = without_member(&self.groups[i].processes, process);
        proof {
            lemma_members_push(kept@, process);
            assert(members(kept@).insert(process) =~= found.processes.insert(process));
        }
        kept.push(process);
        self.groups[i].processes = kept;
        assert(groups_view(self.groups@) =~= all.update(
            i as int,
            GroupModel { processes: found.processes.insert(process), ..found },
        ));
    }

    /// Adds a process, or changes what it is.
    fn set_process(&mut self, state: FixtureProcess)
        ensures
            final(self)@ == (CgroupModel {
                processes: old(self)@.processes.insert(state.identity, state.held()),
                ..old(self)@
            }),
    {
        let ghost all = self.processes@;
        match self.find_process(state.identity) {
            Some(i) => {
                proof {
                    lemma_process_changed(all, state.identity, state);
                }
                self.processes.remove(i);
                self.processes.insert(i, state);
                assert(self.processes@ =~= all.update(i as int, state));
            },
            None => {
                proof {
                    lemma_process_added(all, state);
                }
                self.processes.push(state);
            },
        }
    }

    /// Adds a process to a group, and takes it out of the one that it was in.
    pub fn add_process(
        &mut self,
        process: ProcessId,
        group: &CgroupId,
        nice: NiceValue,
        ioprio: IoPriority,
    ) -> (r: Result<(), SysboostError>)
        ensures
            (final(self)@, cpu::failure(r)) == workload_model::joined(
                old(self)@,
                process,
                group@,
                nice,
                ioprio,
            ),
    {
        let i = match self.resolve_group(group) {
            Ok(i) => i,
            Err(e) => {
                return Err(e);
            },
        };
        let key = self.groups[i].identity.handle.clone();
        if let Some(k) = self.find_process(process) {
            let previous = self.processes[k].cgroup.clone();
            if !previous.same(&key) {
                self.leave(&previous, process);
            }
        }
        match self.find(&key) {
            None => Err(workload_node::target_error("cgroup target was not discovered")),
            Some(i) => {
                proof {
                    workload_model::lemma_position(self@.groups, key@);
                }
                self.enter(i, process);
                self.set_process(FixtureProcess { identity: process, cgroup: key, nice, ioprio });
                Ok(())
            },
        }
    }

    /// Makes a group another object.
    pub fn replace_identity(&mut self, group: &CgroupId, identity: CgroupId) -> (r: Result<
        (),
        SysboostError,
    >)
        ensures
            (final(self)@, crate::error::plain(r)) == match workload_model::resolved(
                old(self)@,
                group@,
            ) {
                Err(e) => (old(self)@, Err::<(), ErrorView>(e)),
                Ok(found) => (
                    workload_model::replaced(
                        old(self)@,
                        GroupModel { identity: identity@, ..found },
                    ),
                    Ok::<(), ErrorView>(()),
                ),
            },
    {
        let ghost all = self@.groups;
        proof {
            workload_model::lemma_position(all, group.handle@);
        }
        let i = match self.resolve_group(group) {
            Ok(i) => i,
            Err(e) => {
                return Err(e);
            },
        };
        let ghost found = all[i as int];
        let ghost new = identity@;
        self.groups[i].identity = identity;
        assert(groups_view(self.groups@) =~= all.update(
            i as int,
            GroupModel { identity: new, ..found },
        ));
        Ok(())
    }

    /// Gives a group another share of CPU time, as someone else would.
    pub fn external_set_cpu_weight(&mut self, group: &CgroupId, weight: CpuWeight) -> (r: Result<
        (),
        SysboostError,
    >)
        ensures
            (final(self)@, crate::error::plain(r)) == match workload_model::resolved(
                old(self)@,
                group@,
            ) {
                Err(e) => (old(self)@, Err::<(), ErrorView>(e)),
                Ok(found) => (
                    workload_model::replaced(
                        old(self)@,
                        GroupModel { cpu_weight: weight, ..found },
                    ),
                    Ok::<(), ErrorView>(()),
                ),
            },
    {
        let ghost all = self@.groups;
        proof {
            workload_model::lemma_position(all, group.handle@);
        }
        let i = match self.resolve_group(group) {
            Ok(i) => i,
            Err(e) => {
                return Err(e);
            },
        };
        let ghost found = all[i as int];
        self.groups[i].cpu_weight = weight;
        assert(groups_view(self.groups@) =~= all.update(
            i as int,
            GroupModel { cpu_weight: weight, ..found },
        ));
        Ok(())
    }

    /// Takes a process away.
    pub fn remove_process(&mut self, process: ProcessId)
        ensures
            final(self)@ == workload_model::gone(old(self)@, process),
    {
        let k = match self.find_process(process) {
            Some(k) => k,
            None => {
                return;
            },
        };
        let key = self.processes[k].cgroup.clone();
        self.leave(&key, process);
        let ghost all = self.processes@;
        let ghost between = self@;
        let mut old_list: Vec<FixtureProcess> = Vec::new();
        std::mem::swap(&mut old_list, &mut self.processes);
        let mut kept: Vec<FixtureProcess> = Vec::new();
        let ghost mut i: int = 0;
        assert(processes_view(kept@) =~= processes_view(all.take(0)).remove(process));
        assert(old_list@ =~= all.skip(0));
        while old_list.len() > 0
            invariant
                0 <= i <= all.len(),
                old_list@ == all.skip(i),
                self@.groups == between.groups,
                processes_view(kept@) == processes_view(all.take(i)).remove(process),
            decreases old_list@.len(),
        {
            proof {
                assert(all.take(i + 1) =~= all.take(i).push(all[i]));
                lemma_process_added(all.take(i), all[i]);
            }
            let next = old_list.remove(0);
            assert(next == all[i]);
            assert(old_list@ =~= all.skip(i + 1));
            if next.identity != process {
                proof {
                    lemma_process_added(kept@, next);
                }
                kept.push(next);
            }
            proof {
                assert(processes_view(kept@) =~= processes_view(all.take(i + 1)).remove(process));
                i = i + 1;
            }
        }
        proof {
            assert(i == all.len());
            assert(all.take(i) =~= all);
        }
        self.processes = kept;
    }

    fn has_controller(&self, controller: &str) -> (r: bool)
        ensures
            r == exists|i: int|
                0 <= i < self@.groups.len() && (#[trigger] self@.groups[i]).controllers.contains(
                    controller@,
                ),
    {
        let mut i: usize = 0;
        while i < self.groups.len()
            invariant
                i <= self.groups@.len(),
                forall|j: int|
                    0 <= j < i ==> !(#[trigger] self@.groups[j]).controllers.contains(controller@),
            decreases self.groups@.len() - i,
        {
            assert(self@.groups[i as int] == self.groups@[i as int]@);
            if holds_text(&self.groups[i].controllers, controller) {
                return true;
            }
            i = i + 1;
        }
        false
    }

    fn has_delegation(&self, controller: &str) -> (r: bool)
        ensures
            r == exists|i: int|
                0 <= i < self@.groups.len() && workload_model::controller_refusal(
                    #[trigger] self@.groups[i],
                    controller@,
                ) is None,
    {
        let mut i: usize = 0;
        while i < self.groups.len()
            invariant
                i <= self.groups@.len(),
                forall|j: int|
                    0 <= j < i ==> workload_model::controller_refusal(
                        #[trigger] self@.groups[j],
                        controller@,
                    ) is Some,
            decreases self.groups@.len() - i,
        {
            assert(self@.groups[i as int] == self.groups@[i as int]@);
            if require_controller(&self.groups[i], controller).is_ok() {
                return true;
            }
            i = i + 1;
        }
        false
    }

    fn controller_state(&self, controller: &str) -> (r: CapabilityState)
        ensures
            r == workload_model::controller_state(self@.groups, controller@),
    {
        if !self.has_controller(controller) {
            CapabilityState::Unsupported
        } else if self.has_delegation(controller) {
            CapabilityState::Available
        } else {
            CapabilityState::Denied
        }
    }

    fn scheduler_state(&self, needs_group: bool) -> (r: CapabilityState)
        ensures
            r == workload_model::scheduler_state(self@, needs_group),
    {
        proof {
            if self.processes@.len() == 0 {
                assert(self@.processes =~= Map::empty());
            } else {
                let last = self.processes@.last().identity;
                assert(self@.processes.contains_key(last));
                assert(!Map::<ProcessId, ProcessModel>::empty().contains_key(last));
            }
        }
        if self.processes.len() == 0 {
            CapabilityState::Unsupported
        } else if needs_group && self.groups.len() == 0 {
            CapabilityState::Denied
        } else {
            CapabilityState::Available
        }
    }

    fn read_control(&self, group: &CgroupId, node: WorkloadNode) -> (r: Result<
        WorkloadObservation,
        SysboostError,
    >)
        ensures
            crate::error::viewed(r) == workload_model::control_state(self@, group@, node),
    {
        let i = match self.resolve_group(group) {
            Ok(i) => i,
            Err(e) => {
                return Err(e);
            },
        };
        let found = &self.groups[i];
        if let Err(e) = require_controller(found, node.controller()) {
            return Err(e);
        }
        let rendered = render_fixture_node(found, node);
        WorkloadObservation::new(
            text::bytes_of(rendered.as_str()),
            read_value(found, node),
            workload_node::cgroup_identity(&found.identity),
        )
    }

    fn read_lifecycle(&self, parent: &CgroupId, name: &CgroupName, kind: CgroupGroupKind) -> (r:
        Result<WorkloadObservation, SysboostError>)
        ensures
            crate::error::viewed(r) == workload_model::child_state(self@, parent@, name@, kind),
    {
        let i = match self.resolve_group(parent) {
            Ok(i) => i,
            Err(e) => {
                return Err(e);
            },
        };
        let found = &self.groups[i];
        if let Err(e) = require_controller(found, "cpu") {
            return Err(e);
        }
        let target = workload_node::child_target(&parent.handle, name);
        let present = self.find(&target).is_some();
        let raw = if present {
            "present\n"
        } else {
            "absent\n"
        };
        WorkloadObservation::new(
            text::bytes_of(raw),
            TypedValue::CgroupLifecycle { kind, name: name.clone(), present },
            workload_node::cgroup_identity(&found.identity),
        )
    }

    fn check_clamp(&self, group: &CgroupId, node: WorkloadNode, value: UclampValue) -> (r: Result<
        (),
        SysboostError,
    >)
        ensures
            cpu::failure(r) == workload_model::clamp_objection(self@, group@, node, value),
    {
        let i = match self.resolve_group(group) {
            Ok(i) => i,
            Err(e) => {
                return Err(e);
            },
        };
        let found = &self.groups[i];
        if let Err(e) = require_controller(found, "cpu") {
            return Err(e);
        }
        if node == WorkloadNode::UclampMin {
            workload_node::validate_uclamp_pair(value, found.uclamp_max)
        } else {
            workload_node::validate_uclamp_pair(found.uclamp_min, value)
        }
    }

    fn check_child(&self, parent: &CgroupId) -> (r: Result<(), SysboostError>)
        ensures
            cpu::failure(r) == match workload_model::resolved(self@, parent@) {
                Err(e) => Some(e),
                Ok(found) => workload_model::controller_refusal(found, "cpu"@),
            },
    {
        match self.resolve_group(parent) {
            Ok(i) => require_controller(&self.groups[i], "cpu"),
            Err(e) => Err(e),
        }
    }

    fn next_inode(&self) -> (r: u64)
        ensures
            r == workload_model::next_inode(self@.groups),
    {
        let ghost all = self@.groups;
        let mut highest: u64 = 0;
        let mut i: usize = 0;
        assert(all.take(0) =~= Seq::empty());
        while i < self.groups.len()
            invariant
                i <= self.groups@.len(),
                all == groups_view(self.groups@),
                highest == workload_model::highest_inode(all.take(i as int)),
            decreases self.groups@.len() - i,
        {
            proof {
                assert(all.take(i + 1).drop_last() =~= all.take(i as int));
                assert(all.take(i + 1).last() == self.groups@[i as int]@);
            }
            if self.groups[i].identity.inode > highest {
                highest = self.groups[i].identity.inode;
            }
            i = i + 1;
        }
        assert(all.take(i as int) =~= all);
        if highest == u64::MAX {
            u64::MAX
        } else {
            highest + 1
        }
    }

    fn create_group(&mut self, parent: &CgroupId, name: &CgroupName) -> (r: Result<
        (),
        SysboostError,
    >)
        ensures
            (final(self)@, cpu::failure(r)) == workload_model::created(old(self)@, parent@, name@),
    {
        let i = match self.resolve_group(parent) {
            Ok(i) => i,
            Err(e) => {
                return Err(e);
            },
        };
        let target = workload_node::child_target(&parent.handle, name);
        if self.find(&target).is_some() {
            return Err(
                workload_node::workload_error(
                    ErrorCode::ApplyError,
                    "managed cgroup already exists",
                ),
            );
        }
        let identity = CgroupId::new(self.groups[i].identity.mount_id, self.next_inode(), target);
        let group = self.make_child(i, name, identity);
        self.insert_group(group);
        Ok(())
    }

    fn has_below(&self, path: &str) -> (r: bool)
        ensures
            r == workload_model::holds_below(self@.groups, path@),
    {
        let prefix = text::join(path, "/");
        let prefix_chars = text::chars_of(prefix.as_str());
        let mut i: usize = 0;
        while i < self.groups.len()
            invariant
                i <= self.groups@.len(),
                prefix_chars@ == path@ + "/"@,
                forall|j: int|
                    0 <= j < i ==> !text::starts_with_spec(
                        (#[trigger] self@.groups[j]).relative_path,
                        path@ + "/"@,
                    ),
            decreases self.groups@.len() - i,
        {
            assert(self@.groups[i as int] == self.groups@[i as int]@);
            let candidate = text::chars_of(self.groups[i].relative_path.as_str());
            if text::starts_with(candidate.as_slice(), prefix_chars.as_slice()) {
                return true;
            }
            i = i + 1;
        }
        false
    }

    fn drop_group(&mut self, key: &TargetId)
        ensures
            final(self)@ == (CgroupModel {
                groups: workload_model::without_group(old(self)@.groups, key@),
                ..old(self)@
            }),
    {
        let ghost all = self@.groups;
        let mut old_list: Vec<FixtureGroup> = Vec::new();
        std::mem::swap(&mut old_list, &mut self.groups);
        let ghost listed = old_list@;
        let mut kept: Vec<FixtureGroup> = Vec::new();
        let ghost mut i: int = 0;
        assert(all.take(0) =~= Seq::empty());
        assert(groups_view(kept@) =~= workload_model::without_group(all.take(0), key@));
        assert(old_list@ =~= listed.skip(0));
        while old_list.len() > 0
            invariant
                0 <= i <= listed.len(),
                all == groups_view(listed),
                old_list@ == listed.skip(i),
                self.processes == old(self).processes,
                groups_view(kept@) == workload_model::without_group(all.take(i), key@),
            decreases old_list@.len(),
        {
            proof {
                assert(all.take(i + 1).drop_last() =~= all.take(i));
                assert(all.take(i + 1).last() == all[i]);
            }
            let next = old_list.remove(0);
            assert(next == listed[i]);
            assert(all[i] == next@);
            assert(old_list@ =~= listed.skip(i + 1));
            if !next.key.same(key) {
                let ghost before = kept@;
                kept.push(next);
                assert(groups_view(kept@) =~= groups_view(before).push(next@));
            }
            proof {
                i = i + 1;
            }
        }
        proof {
            assert(i == listed.len());
            assert(all.take(i) =~= all);
        }
        self.groups = kept;
    }

    fn remove_group(&mut self, parent: &CgroupId, name: &CgroupName) -> (r: Result<
        (),
        SysboostError,
    >)
        ensures
            (final(self)@, cpu::failure(r)) == workload_model::removed(old(self)@, parent@, name@),
    {
        let i = match self.resolve_group(parent) {
            Ok(i) => i,
            Err(e) => {
                return Err(e);
            },
        };
        let target = workload_node::child_target(&parent.handle, name);
        let k = match self.find(&target) {
            Some(k) => k,
            None => {
                return Err(
                    workload_node::target_error("managed cgroup disappeared before cleanup"),
                );
            },
        };
        let group = &self.groups[k];
        proof {
            if group.processes@.len() == 0 {
                assert(group@.processes =~= Set::empty());
            } else {
                assert(group@.processes.contains(group.processes@[0]));
                assert(!Set::<ProcessId>::empty().contains(group.processes@[0]));
            }
        }
        if group.processes.len() > 0 || self.has_below(group.relative_path.as_str()) {
            return Err(
                workload_node::workload_error(
                    ErrorCode::RestoreError,
                    "managed cgroup is not empty and cannot be removed safely",
                ),
            );
        }
        if text::same(self.groups[i].relative_path.as_str(), group.relative_path.as_str()) {
            return Err(
                workload_node::target_error("managed cgroup parent and child are identical"),
            );
        }
        self.drop_group(&target);
        Ok(())
    }

    fn move_process(&mut self, process: ProcessId, destination: &CgroupId) -> (r: Result<
        (),
        SysboostError,
    >)
        ensures
            (final(self)@, cpu::failure(r)) == workload_model::moved(
                old(self)@,
                process,
                destination@,
            ),
    {
        let i = match self.resolve_group(destination) {
            Ok(i) => i,
            Err(e) => {
                return Err(e);
            },
        };
        let key = self.groups[i].identity.handle.clone();
        let k = match self.find_process(process) {
            Some(k) => k,
            None => {
                return Err(workload_node::target_error("fixture process disappeared"));
            },
        };
        let current = self.processes[k].cgroup.clone();
        let nice = self.processes[k].nice;
        let ioprio = self.processes[k].ioprio;
        self.leave(&current, process);
        match self.find(&key) {
            None => Err(workload_node::target_error("fixture destination cgroup disappeared")),
            Some(i) => {
                proof {
                    workload_model::lemma_position(self@.groups, key@);
                }
                self.enter(i, process);
                self.set_process(FixtureProcess { identity: process, cgroup: key, nice, ioprio });
                Ok(())
            },
        }
    }

    /// Gives a control of a group a value.
    fn set_control(&mut self, group: &CgroupId, node: WorkloadNode, desired: &TypedValue) -> (r:
        Result<(), SysboostError>)
        ensures
            (final(self)@, cpu::failure(r)) == if !workload_model::takes(node, desired@) {
                (old(self)@, Some(workload_model::open_shape()))
            } else {
                match workload_model::resolved(old(self)@, group@) {
                    Err(e) => (old(self)@, Some(e)),
                    Ok(found) => (
                        workload_model::replaced(
                            old(self)@,
                            workload_model::given(found, node, desired@),
                        ),
                        None,
                    ),
                }
            },
    {
        let ghost all = self@.groups;
        proof {
            workload_model::lemma_position(all, group.handle@);
        }
        let at = self.resolve_group(group);
        match (node, desired, at) {
            (WorkloadNode::CpuWeight, TypedValue::CgroupCpuWeight(value), Ok(i)) => {
                self.groups[i].cpu_weight = *value;
                assert(groups_view(self.groups@) =~= all.update(
                    i as int,
                    workload_model::given(all[i as int], node, desired@),
                ));
                Ok(())
            },
            (WorkloadNode::CpuMax, TypedValue::CgroupCpuMax { quota, period }, Ok(i)) => {
                self.groups[i].cpu_quota = *quota;
                self.groups[i].cpu_period = *period;
                assert(groups_view(self.groups@) =~= all.update(
                    i as int,
                    workload_model::given(all[i as int], node, desired@),
                ));
                Ok(())
            },
            (WorkloadNode::CpusetCpus, TypedValue::CgroupCpuset(value), Ok(i)) => {
                self.groups[i].cpuset = value.clone();
                assert(groups_view(self.groups@) =~= all.update(
                    i as int,
                    workload_model::given(all[i as int], node, desired@),
                ));
                Ok(())
            },
            (WorkloadNode::IoWeight, TypedValue::CgroupIoWeight(value), Ok(i)) => {
                self.groups[i].io_weight = *value;
                assert(groups_view(self.groups@) =~= all.update(
                    i as int,
                    workload_model::given(all[i as int], node, desired@),
                ));
                Ok(())
            },
            (WorkloadNode::UclampMin, TypedValue::CgroupUclamp(value), Ok(i)) => {
                self.groups[i].uclamp_min = *value;
                assert(groups_view(self.groups@) =~= all.update(
                    i as int,
                    workload_model::given(all[i as int], node, desired@),
                ));
                Ok(())
            },
            (WorkloadNode::UclampMax, TypedValue::CgroupUclamp(value), Ok(i)) => {
                self.groups[i].uclamp_max = *value;
                assert(groups_view(self.groups@) =~= all.update(
                    i as int,
                    workload_model::given(all[i as int], node, desired@),
                ));
                Ok(())
            },
            (WorkloadNode::CpuWeight, TypedValue::CgroupCpuWeight(_), Err(e)) => Err(e),
            (WorkloadNode::CpuMax, TypedValue::CgroupCpuMax { .. }, Err(e)) => Err(e),
            (WorkloadNode::CpusetCpus, TypedValue::CgroupCpuset(_), Err(e)) => Err(e),
            (WorkloadNode::IoWeight, TypedValue::CgroupIoWeight(_), Err(e)) => Err(e),
            (WorkloadNode::UclampMin, TypedValue::CgroupUclamp(_), Err(e)) => Err(e),
            (WorkloadNode::UclampMax, TypedValue::CgroupUclamp(_), Err(e)) => Err(e),
            _ => Err(
                workload_node::workload_error(
                    ErrorCode::InvariantViolation,
                    "fixture write shape is not closed",
                ),
            ),
        }
    }

    /// Makes or removes a group below another.
    fn set_child(&mut self, parent: &CgroupId, name: &CgroupName, desired: &TypedValue) -> (r:
        Result<(), SysboostError>)
        ensures
            (final(self)@, cpu::failure(r)) == match desired@ {
                ValueView::CgroupLifecycle { present, .. } => if present {
                    workload_model::created(old(self)@, parent@, name@)
                } else {
                    workload_model::removed(old(self)@, parent@, name@)
                },
                _ => (old(self)@, Some(workload_model::open_shape())),
            },
    {
        match desired {
            TypedValue::CgroupLifecycle { present, .. } => if *present {
                self.create_group(parent, name)
            } else {
                self.remove_group(parent, name)
            },
            _ => Err(
                workload_node::workload_error(
                    ErrorCode::InvariantViolation,
                    "fixture write shape is not closed",
                ),
            ),
        }
    }
}

impl Default for CgroupFixture {
    fn default() -> (r: CgroupFixture)
        ensures
            r@ == (CgroupModel {
                groups: seq![workload_model::added_group(fixture_root(), Seq::empty())],
                processes: Map::empty(),
            }),
    {
        CgroupFixture::new()
    }
}

impl WorkloadControlIo for CgroupFixture {
    type Model = CgroupModel;

    open spec fn shown(&self) -> Shown {
        Shown::Workload(self.model())
    }

    open spec fn settled(&self) -> bool {
        true
    }

    open spec fn model(&self) -> CgroupModel {
        self@
    }

    open spec fn capabilities_of(model: CgroupModel) -> Result<Seq<CapabilityView>, ErrorView> {
        Ok(workload_model::capabilities_spec(model))
    }

    open spec fn targets_of(model: CgroupModel) -> Result<Seq<(CgroupView, Seq<char>)>, ErrorView> {
        Ok(model.groups.map_values(|g: GroupModel| (g.identity, g.relative_path)))
    }

    open spec fn bytes_of(model: CgroupModel, group: CgroupView, node: WorkloadNode) -> Result<
        Seq<u8>,
        ErrorView,
    > {
        workload_model::node_bytes(model, group, node)
    }

    open spec fn group_of(model: CgroupModel, kind: KindView) -> Result<
        ObservationView,
        ErrorView,
    > {
        workload_model::group_state(model, kind)
    }

    open spec fn process_of(model: CgroupModel, kind: KindView) -> Result<
        ObservationView,
        ErrorView,
    > {
        workload_model::process_state(model, kind)
    }

    open spec fn objection(model: CgroupModel, kind: KindView, desired: ValueView) -> Option<
        ErrorView,
    > {
        workload_model::write_objection(model, kind, desired)
    }

    open spec fn after_write(model: CgroupModel, kind: KindView, desired: ValueView) -> (
        CgroupModel,
        Option<ErrorView>,
    ) {
        workload_model::write(model, kind, desired)
    }

    fn capabilities(&self) -> (r: Result<Vec<CapabilityDescriptor>, SysboostError>) {
        proof {
            workload::lemma_names();
        }
        let cpu = self.controller_state("cpu");
        let mut r: Vec<CapabilityDescriptor> = Vec::new();
        r.push(
            workload::workload_capability(
                "cgroup.cpu.weight",
                "cgroup.cpu.weight",
                TargetKind::Cgroup,
                EqualityKind::ScalarExact,
                cpu,
                FeatureClass::RuntimeMutable,
                "fixture cgroup v2 cpu controller delegation",
            ),
        );
        r.push(
            workload::workload_capability(
                "cgroup.cpu.max",
                "cgroup.cpu.max",
                TargetKind::Cgroup,
                EqualityKind::ScalarExact,
                cpu,
                FeatureClass::RuntimeMutable,
                "fixture cgroup v2 cpu controller delegation",
            ),
        );
        r.push(
            workload::workload_capability(
                "cgroup.cpuset.cpus",
                "cgroup.cpuset.cpus",
                TargetKind::Cgroup,
                EqualityKind::SetExact,
                self.controller_state("cpuset"),
                FeatureClass::Conditional,
                "fixture cgroup v2 cpuset controller delegation",
            ),
        );
        r.push(
            workload::workload_capability(
                "cgroup.io.weight",
                "cgroup.io.weight",
                TargetKind::Cgroup,
                EqualityKind::ScalarExact,
                self.controller_state("io"),
                FeatureClass::Conditional,
                "fixture cgroup v2 io controller delegation",
            ),
        );
        r.push(workload::uclamp_capability(cpu, "fixture cgroup v2 CPU uclamp delegation"));
        r.push(
            workload::workload_capability(
                "cgroup.workload",
                "cgroup.workload",
                TargetKind::Cgroup,
                EqualityKind::ScalarExact,
                cpu,
                FeatureClass::Conditional,
                "fixture delegated parent permits explicit workload group management",
            ),
        );
        r.push(
            workload::workload_capability(
                "cgroup.background",
                "cgroup.background",
                TargetKind::Cgroup,
                EqualityKind::ScalarExact,
                cpu,
                FeatureClass::Conditional,
                "fixture delegated parent permits conservative background management",
            ),
        );
        r.push(
            workload::workload_capability(
                "scheduler.process.placement",
                "scheduler.process.placement",
                TargetKind::Process,
                EqualityKind::ScalarExact,
                self.scheduler_state(true),
                FeatureClass::Conditional,
                "fixture explicitly identified process and cgroup targets",
            ),
        );
        r.push(
            workload::workload_capability(
                "scheduler.nice",
                "scheduler.nice",
                TargetKind::Process,
                EqualityKind::ScalarExact,
                self.scheduler_state(false),
                FeatureClass::RuntimeMutable,
                "fixture explicitly identified process target",
            ),
        );
        r.push(
            workload::workload_capability(
                "scheduler.ioprio",
                "scheduler.ioprio",
                TargetKind::Process,
                EqualityKind::ScalarExact,
                self.scheduler_state(false),
                FeatureClass::Experimental,
                "fixture explicitly identified process target",
            ),
        );
        assert(capability::capabilities_view(r@) =~= workload_model::capabilities_spec(self@));
        Ok(r)
    }

    fn targets(&self) -> (r: Result<Vec<WorkloadTarget>, SysboostError>) {
        let mut r: Vec<WorkloadTarget> = Vec::new();
        let mut i: usize = 0;
        while i < self.groups.len()
            invariant
                i <= self.groups@.len(),
                r@.len() == i,
                forall|j: int|
                    0 <= j < i ==> (#[trigger] r@[j]).identity@ == self.groups@[j].identity@
                        && r@[j].relative_path@ == self.groups@[j].relative_path@,
            decreases self.groups@.len() - i,
        {
            r.push(
                WorkloadTarget {
                    identity: self.groups[i].identity.clone(),
                    relative_path: self.groups[i].relative_path.clone(),
                },
            );
            i = i + 1;
        }
        assert(workload::targets_view(r@) =~= self@.groups.map_values(
            |g: GroupModel| (g.identity, g.relative_path),
        ));
        Ok(r)
    }

    fn read_node(&self, group: &CgroupId, node: WorkloadNode) -> (r: Result<
        Vec<u8>,
        SysboostError,
    >) {
        let i = match self.resolve_group(group) {
            Ok(i) => i,
            Err(e) => {
                return Err(e);
            },
        };
        if let Err(e) = require_controller(&self.groups[i], node.controller()) {
            return Err(e);
        }
        let rendered = render_fixture_node(&self.groups[i], node);
        Ok(text::bytes_of(rendered.as_str()))
    }

    fn read_mutation(&self, kind: &MutationKind) -> (r: Result<
        WorkloadObservation,
        SysboostError,
    >) {
        match kind {
            MutationKind::CgroupCpuWeight { cgroup, .. } => self.read_control(
                cgroup,
                WorkloadNode::CpuWeight,
            ),
            MutationKind::CgroupCpuMax { cgroup, .. } => self.read_control(
                cgroup,
                WorkloadNode::CpuMax,
            ),
            MutationKind::CgroupCpuset { cgroup, .. } => self.read_control(
                cgroup,
                WorkloadNode::CpusetCpus,
            ),
            MutationKind::CgroupIoWeight { cgroup, .. } => self.read_control(
                cgroup,
                WorkloadNode::IoWeight,
            ),
            MutationKind::CgroupUclampMin { cgroup, .. } => self.read_control(
                cgroup,
                WorkloadNode::UclampMin,
            ),
            MutationKind::CgroupUclampMax { cgroup, .. } => self.read_control(
                cgroup,
                WorkloadNode::UclampMax,
            ),
            MutationKind::CgroupWorkload { parent, name } => self.read_lifecycle(
                parent,
                name,
                CgroupGroupKind::Workload,
            ),
            MutationKind::CgroupBackground { parent, name } => self.read_lifecycle(
                parent,
                name,
                CgroupGroupKind::ConservativeBackground,
            ),
            _ => Err(workload_node::unsupported("fixture mutation is not a cgroup operation")),
        }
    }

    fn read_process(&self, kind: &MutationKind) -> (r: Result<
        WorkloadObservation,
        SysboostError,
    >) {
        let process = match kind {
            MutationKind::ProcessNice { process, .. } => *process,
            MutationKind::ProcessIoPriority { process, .. } => *process,
            MutationKind::ProcessPlacement { process, .. } => *process,
            _ => {
                return Err(
                    workload_node::unsupported("fixture mutation is not a process operation"),
                );
            },
        };
        let current = match self.find_process(process) {
            Some(k) => &self.processes[k],
            None => {
                return Err(workload_node::target_error("fixture process disappeared"));
            },
        };
        let group = match self.find(&current.cgroup) {
            Some(i) => &self.groups[i],
            None => {
                return Err(workload_node::target_error("fixture process cgroup disappeared"));
            },
        };
        let typed = match kind {
            MutationKind::ProcessNice { .. } => TypedValue::Nice(current.nice),
            MutationKind::ProcessIoPriority { .. } => TypedValue::IoPriority(current.ioprio),
            _ => TypedValue::ProcessPlacement(group.identity.clone()),
        };
        WorkloadObservation::new(
            workload_node::render_process_value(&typed),
            typed,
            workload_node::process_identity(process),
        )
    }

    fn validate_desired(&self, kind: &MutationKind, desired: &TypedValue) -> (r: Result<
        (),
        SysboostError,
    >) {
        if !kind.typed_value().same(desired) {
            return Err(
                workload_node::workload_error(
                    ErrorCode::PlanningError,
                    "workload kind and desired value disagree",
                ),
            );
        }
        match kind {
            MutationKind::CgroupUclampMin { cgroup, value } => {
                if *value == UclampValue::Max {
                    return Err(
                        workload_node::workload_error(
                            ErrorCode::InvalidInput,
                            "uclamp.min cannot be max",
                        ),
                    );
                }
                self.check_clamp(cgroup, WorkloadNode::UclampMin, *value)
            },
            MutationKind::CgroupUclampMax { cgroup, value } => self.check_clamp(
                cgroup,
                WorkloadNode::UclampMax,
                *value,
            ),
            MutationKind::ProcessPlacement { cgroup, .. } => match self.resolve_group(cgroup) {
                Ok(_) => Ok(()),
                Err(e) => Err(e),
            },
            MutationKind::CgroupWorkload { parent, .. } => self.check_child(parent),
            MutationKind::CgroupBackground { parent, .. } => self.check_child(parent),
            _ => Ok(()),
        }
    }

    fn write_mutation(&mut self, kind: &MutationKind, desired: &TypedValue) -> (r: Result<
        (),
        SysboostError,
    >) {
        match kind {
            MutationKind::CgroupCpuWeight { cgroup, .. } => self.set_control(
                cgroup,
                WorkloadNode::CpuWeight,
                desired,
            ),
            MutationKind::CgroupCpuMax { cgroup, .. } => self.set_control(
                cgroup,
                WorkloadNode::CpuMax,
                desired,
            ),
            MutationKind::CgroupCpuset { cgroup, .. } => self.set_control(
                cgroup,
                WorkloadNode::CpusetCpus,
                desired,
            ),
            MutationKind::CgroupIoWeight { cgroup, .. } => self.set_control(
                cgroup,
                WorkloadNode::IoWeight,
                desired,
            ),
            MutationKind::CgroupUclampMin { cgroup, .. } => self.set_control(
                cgroup,
                WorkloadNode::UclampMin,
                desired,
            ),
            MutationKind::CgroupUclampMax { cgroup, .. } => self.set_control(
                cgroup,
                WorkloadNode::UclampMax,
                desired,
            ),
            MutationKind::CgroupWorkload { parent, name } => self.set_child(parent, name, desired),
            MutationKind::CgroupBackground { parent, name } => self.set_child(
                parent,
                name,
                desired,
            ),
            _ => match (kind, desired) {
                (
                    MutationKind::ProcessPlacement { process, .. },
                    TypedValue::ProcessPlacement(group),
                ) => self.move_process(*process, group),
                (MutationKind::ProcessNice { process, .. }, TypedValue::Nice(nice)) => {
                    match self.find_process(*process) {
                        None => Err(workload_node::target_error("fixture process disappeared")),
                        Some(k) => {
                            let state = FixtureProcess {
                                identity: *process,
                                cgroup: self.processes[k].cgroup.clone(),
                                nice: *nice,
                                ioprio: self.processes[k].ioprio,
                            };
                            self.set_process(state);
                            Ok(())
                        },
                    }
                },
                (
                    MutationKind::ProcessIoPriority { process, .. },
                    TypedValue::IoPriority(ioprio),
                ) => {
                    match self.find_process(*process) {
                        None => Err(workload_node::target_error("fixture process disappeared")),
                        Some(k) => {
                            let state = FixtureProcess {
                                identity: *process,
                                cgroup: self.processes[k].cgroup.clone(),
                                nice: self.processes[k].nice,
                                ioprio: *ioprio,
                            };
                            self.set_process(state);
                            Ok(())
                        },
                    }
                },
                _ => Err(
                    workload_node::workload_error(
                        ErrorCode::InvariantViolation,
                        "fixture write shape is not closed",
                    ),
                ),
            },
        }
    }
}

/// Whether nothing stands below the group that a mutation makes, if it makes one.
pub open spec fn nothing_below(model: CgroupModel, kind: KindView) -> bool {
    workload_model::child_of(kind) matches Some((parent, name, _)) ==> name.len() > 0
        && !workload_model::holds_below(
        model.groups,
        workload_node::child_path_spec(
            workload_model::resolved(model, parent)->Ok_0.relative_path,
            name,
        ),
    )
}

/// A change that was applied can be restored, and leaves the host as it was,
/// unless it made a group in a place below which others stood already.
pub proof fn restoring_undoes_applying(
    model: CgroupModel,
    mutation: MutationView,
    snapshot: SnapshotView,
    now: Timestamp,
)
    requires
        workload_model::well_formed(model),
        workload::snapshot_spec::<CgroupFixture>(model, mutation, now) == Ok::<
            SnapshotView,
            ErrorView,
        >(snapshot),
        workload::apply_spec::<CgroupFixture>(model, mutation, snapshot).1 is Ok,
        nothing_below(model, mutation.kind),
    ensures
        ({
            let (applied, receipt) = workload::apply_spec::<CgroupFixture>(
                model,
                mutation,
                snapshot,
            );
            let (restored, answer) = workload::restore_spec::<CgroupFixture>(
                applied,
                mutation,
                snapshot,
                receipt->Ok_0.ownership_fingerprint,
            );
            &&& answer is Ok
            &&& restored == model
        }),
{
    let kind = mutation.kind;
    let desired = mutation.desired;
    let original = snapshot.original_typed;
    let (applied, receipt) = workload::apply_spec::<CgroupFixture>(model, mutation, snapshot);
    let (restored, failed) = workload_model::write(applied, kind, original);
    if let Some((group, node)) = workload_model::control_of(kind) {
        let found = workload_model::resolved(model, group)->Ok_0;
        let changed = workload_model::given(found, node, desired);
        workload_model::lemma_position(model.groups, group.handle);
        workload_model::lemma_replaced(model, changed, group.handle);
        assert(workload_model::given(changed, node, original) == found);
        workload_model::lemma_position_kept(
            model.groups,
            workload_model::position(model.groups, group.handle),
            changed,
            group.handle,
        );
        assert(restored.groups =~= model.groups);
    } else if let Some((parent, name, _)) = workload_model::child_of(kind) {
        workload_model::removing_undoes_creating(model, parent, name);
    } else if let KindView::ProcessPlacement { process, cgroup } = kind {
        workload_model::moving_back_undoes_moving(model, process, cgroup);
    } else {
        assert(restored.processes =~= model.processes);
    }
    assert(failed is None);
    assert(restored == model);
}

/// Whether a snapshot was taken of a host for a mutation.
#[verifier::opaque]
pub open spec fn is_captured(
    model: CgroupModel,
    mutation: MutationView,
    snapshot: SnapshotView,
    now: Timestamp,
) -> bool {
    workload::snapshot_spec::<CgroupFixture>(model, mutation, now) == Ok::<SnapshotView, ErrorView>(
        snapshot,
    )
}

/// Whether snapshots were taken of a host for mutations.
pub open spec fn captured(
    model: CgroupModel,
    mutations: Seq<MutationView>,
    snapshots: Seq<SnapshotView>,
    now: Timestamp,
) -> bool {
    &&& mutations.len() == snapshots.len()
    &&& forall|i: int|
        0 <= i < mutations.len() ==> is_captured(model, #[trigger] mutations[i], snapshots[i], now)
}

/// Whether mutations are about different things.
pub open spec fn all_apart(mutations: Seq<MutationView>) -> bool {
    forall|i: int, j: int|
        0 <= i < j < mutations.len() ==> workload_model::apart(
            (#[trigger] mutations[i]).kind,
            (#[trigger] mutations[j]).kind,
        )
}

/// What applying mutations in turn leaves, and what the session left in each
/// target, if all are applied and each made group has nothing below it.
pub open spec fn all_applied(
    model: CgroupModel,
    mutations: Seq<MutationView>,
    snapshots: Seq<SnapshotView>,
) -> Option<(CgroupModel, Seq<StateFingerprint>)>
    decreases mutations.len(),
{
    if mutations.len() == 0 {
        Some((model, Seq::empty()))
    } else {
        match all_applied(model, mutations.drop_last(), snapshots.drop_last()) {
            None => None,
            Some((between, owned)) => if !nothing_below(between, mutations.last().kind) {
                None
            } else {
                match workload::apply_spec::<CgroupFixture>(
                    between,
                    mutations.last(),
                    snapshots.last(),
                ) {
                    (after, Ok(receipt)) => Some(
                        (after, owned.push(receipt.ownership_fingerprint)),
                    ),
                    _ => None,
                }
            },
        }
    }
}

/// What restoring mutations leaves, the last first, if all are restored.
pub open spec fn all_restored(
    model: CgroupModel,
    mutations: Seq<MutationView>,
    snapshots: Seq<SnapshotView>,
    owned: Seq<StateFingerprint>,
) -> Option<CgroupModel>
    decreases mutations.len(),
{
    if mutations.len() == 0 {
        Some(model)
    } else {
        match workload::restore_spec::<CgroupFixture>(
            model,
            mutations.last(),
            snapshots.last(),
            owned.last(),
        ) {
            (between, Ok(_)) => all_restored(
                between,
                mutations.drop_last(),
                snapshots.drop_last(),
                owned.drop_last(),
            ),
            _ => None,
        }
    }
}

/// Applying mutations keeps a host well-formed, and changes nothing that another
/// mutation is about.
proof fn lemma_others_kept(
    model: CgroupModel,
    mutations: Seq<MutationView>,
    snapshots: Seq<SnapshotView>,
    other: KindView,
)
    requires
        workload_model::well_formed(model),
        mutations.len() == snapshots.len(),
        all_applied(model, mutations, snapshots) is Some,
        workload_model::target_state(model, other) is Ok,
        forall|i: int|
            0 <= i < mutations.len() ==> workload_model::apart((#[trigger] mutations[i]).kind, other),
    ensures
        ({
            let (after, owned) = all_applied(model, mutations, snapshots)->0;
            &&& workload_model::well_formed(after)
            &&& workload_model::target_state(after, other) == workload_model::target_state(
                model,
                other,
            )
            &&& owned.len() == mutations.len()
        }),
    decreases mutations.len(),
{
    if mutations.len() > 0 {
        let first = mutations.drop_last();
        assert forall|i: int| 0 <= i < first.len() implies workload_model::apart(
            (#[trigger] first[i]).kind,
            other,
        ) by {
            assert(mutations[i] == first[i]);
        }
        lemma_others_kept(model, first, snapshots.drop_last(), other);
        let (between, _) = all_applied(model, first, snapshots.drop_last())->0;
        let last = mutations.last();
        assert(mutations[mutations.len() - 1] == last);
        assert(last.kind.desired() == last.desired);
        workload_model::other_targets_are_kept(between, last.kind, other);
        workload_model::changes_keep_the_form(between, last.kind);
    }
}

proof fn lemma_captured_without_last(
    model: CgroupModel,
    mutations: Seq<MutationView>,
    snapshots: Seq<SnapshotView>,
    now: Timestamp,
)
    requires
        mutations.len() > 0,
        captured(model, mutations, snapshots, now),
    ensures
        captured(model, mutations.drop_last(), snapshots.drop_last(), now),
{
    let first = mutations.drop_last();
    assert forall|i: int| 0 <= i < first.len() implies is_captured(
        model,
        #[trigger] first[i],
        snapshots.drop_last()[i],
        now,
    ) by {
        assert(is_captured(model, mutations[i], snapshots[i], now));
    }
}

proof fn lemma_apart_without_last(mutations: Seq<MutationView>)
    requires
        mutations.len() > 0,
        all_apart(mutations),
    ensures
        all_apart(mutations.drop_last()),
{
    let first = mutations.drop_last();
    assert forall|i: int, j: int| 0 <= i < j < first.len() implies workload_model::apart(
        (#[trigger] first[i]).kind,
        (#[trigger] first[j]).kind,
    ) by {
        assert(mutations[i] == first[i] && mutations[j] == first[j]);
    }
}

/// The last change of a session can be restored.
pub(crate) proof fn lemma_last_restored(
    model: CgroupModel,
    mutations: Seq<MutationView>,
    snapshots: Seq<SnapshotView>,
    now: Timestamp,
)
    requires
        mutations.len() > 0,
        workload_model::well_formed(model),
        captured(model, mutations, snapshots, now),
        all_apart(mutations),
        all_applied(model, mutations, snapshots) is Some,
    ensures
        ({
            let (after, owned) = all_applied(model, mutations, snapshots)->0;
            let before = all_applied(model, mutations.drop_last(), snapshots.drop_last());
            let (restored, answer) = workload::restore_spec::<CgroupFixture>(
                after,
                mutations.last(),
                snapshots.last(),
                owned.last(),
            );
            &&& answer is Ok
            &&& before == Some((restored, owned.drop_last()))
        }),
{
    let first = mutations.drop_last();
    let before = snapshots.drop_last();
    let last = mutations.last();
    let snapshot = snapshots.last();
    assert(mutations[mutations.len() - 1] == last);
    assert(is_captured(model, mutations[mutations.len() - 1], snapshot, now));
    reveal(is_captured);
    assert forall|i: int| 0 <= i < first.len() implies workload_model::apart(
        (#[trigger] first[i]).kind,
        last.kind,
    ) by {
        assert(mutations[i] == first[i]);
    }
    assert(workload::held::<CgroupFixture>(model, last.kind) == workload_model::target_state(
        model,
        last.kind,
    ));
    lemma_others_kept(model, first, before, last.kind);
    let (between, owned) = all_applied(model, first, before)->0;
    assert(workload::held::<CgroupFixture>(between, last.kind) == workload_model::target_state(
        between,
        last.kind,
    ));
    restoring_undoes_applying(between, last, snapshot, now);
    let (_, all_owned) = all_applied(model, mutations, snapshots)->0;
    assert(all_owned.drop_last() =~= owned);
}

/// A session leaves the host exactly as it was: where all its changes were
/// applied, all can be restored, the last first, and the host then holds what it
/// held before the session.
pub proof fn sessions_restore_the_host(
    model: CgroupModel,
    mutations: Seq<MutationView>,
    snapshots: Seq<SnapshotView>,
    now: Timestamp,
)
    requires
        workload_model::well_formed(model),
        captured(model, mutations, snapshots, now),
        all_apart(mutations),
        all_applied(model, mutations, snapshots) is Some,
    ensures
        ({
            let (after, owned) = all_applied(model, mutations, snapshots)->0;
            all_restored(after, mutations, snapshots, owned) == Some(model)
        }),
    decreases mutations.len(),
{
    if mutations.len() > 0 {
        lemma_captured_without_last(model, mutations, snapshots, now);
        lemma_apart_without_last(mutations);
        lemma_last_restored(model, mutations, snapshots, now);
        sessions_restore_the_host(model, mutations.drop_last(), snapshots.drop_last(), now);
    }
}

impl WorkloadBackend<CgroupFixture> {
    /// A backend over a host in memory.
    pub fn from_fixture(fixture: CgroupFixture) -> (r: WorkloadBackend<CgroupFixture>)
        ensures
            r.host() == fixture,
            crate::backend::MutationBackend::described(&r) == workload::workload_described(),
    {
        WorkloadBackend::new(fixture)
    }

    /// The host in memory, to be changed behind the back of the backend.
    pub fn fixture_mut(&mut self) -> (r: &mut CgroupFixture)
        ensures
            *r == old(self).host(),
            final(self).host() == *final(r),
    {
        self.io_mut()
    }
}

} // verus!
