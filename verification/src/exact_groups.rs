//! Once a session is restored, control groups and processes in memory are as they were.

use vstd::prelude::*;

use crate::backend::{MutationBackend, Shown};
use crate::clock::{Clock, Timestamp};
use crate::error::ErrorView;
use crate::exact;
use crate::exact::{InMemory, Mark, Visit};
use crate::ids::{SessionId, StateFingerprint, TargetIdentity};
use crate::mutation::{
    ApplyReceipt, KindView, MutationView, PlanDataView, RestoreReceipt, SnapshotView,
};
use crate::privilege;
use crate::privilege::{PrivilegeService, SessionHandle};
use crate::state::{ExclusiveSessionLock, SessionIdSource, SessionStateStore};
use crate::text;
use crate::transaction::TransactionEngine;
use crate::value;
use crate::value::{CgroupView, ProcessId, ValueView};
use crate::workload;
use crate::workload::{WorkloadBackend, WorkloadControlIo};
use crate::workload_fixture::CgroupFixture;
use crate::workload_model;
use crate::workload_model::{CgroupModel, GroupModel, ProcessModel};
use crate::workload_node;
use crate::workload_node::WorkloadNode;

verus! {

/// What a change is about.
enum Thing {
    Control(Seq<char>, WorkloadNode),
    Child(Seq<char>),
    Place(ProcessId),
    Nice(ProcessId),
    Priority(ProcessId),
    Nothing,
}

/// What a change is about.
spec fn thing(kind: KindView) -> Thing {
    match kind {
        KindView::ProcessPlacement { process, .. } => Thing::Place(process),
        KindView::ProcessNice { process, .. } => Thing::Nice(process),
        KindView::ProcessIoPriority { process, .. } => Thing::Priority(process),
        _ => match workload_model::control_of(kind) {
            Some((group, node)) => Thing::Control(group.handle, node),
            None => match workload_model::child_of(kind) {
                Some((parent, name, _)) => Thing::Child(
                    workload_node::child_name(parent.handle, name),
                ),
                None => Thing::Nothing,
            },
        },
    }
}

proof fn lemma_apart(a: KindView, b: KindView)
    requires
        thing(a) != thing(b),
    ensures
        workload_model::apart(a, b),
{
}

/// Whether a host is as every host is that was built group by group.
pub(crate) open spec fn shaped(model: CgroupModel) -> bool {
    &&& workload_model::well_formed(model)
    &&& workload_model::in_order(model.groups)
}

/// Whether a group is what it was, but for what was let loose. Which processes it holds
/// is said by the processes.
spec fn group_framed(
    was: Option<GroupModel>,
    is: Option<GroupModel>,
    key: Seq<char>,
    loose: Set<Thing>,
) -> bool {
    match (was, is) {
        (None, None) => true,
        (None, Some(_)) => loose.contains(Thing::Child(key)),
        (Some(_), None) => false,
        (Some(was), Some(is)) => {
            &&& is == (GroupModel {
                cpu_weight: is.cpu_weight,
                cpu_quota: is.cpu_quota,
                cpu_period: is.cpu_period,
                cpuset: is.cpuset,
                io_weight: is.io_weight,
                uclamp_min: is.uclamp_min,
                uclamp_max: is.uclamp_max,
                processes: is.processes,
                ..was
            })
            &&& is.cpu_weight == was.cpu_weight || loose.contains(
                Thing::Control(key, WorkloadNode::CpuWeight),
            )
            &&& (is.cpu_quota == was.cpu_quota && is.cpu_period == was.cpu_period)
                || loose.contains(Thing::Control(key, WorkloadNode::CpuMax))
            &&& is.cpuset == was.cpuset || loose.contains(
                Thing::Control(key, WorkloadNode::CpusetCpus),
            )
            &&& is.io_weight == was.io_weight || loose.contains(
                Thing::Control(key, WorkloadNode::IoWeight),
            )
            &&& is.uclamp_min == was.uclamp_min || loose.contains(
                Thing::Control(key, WorkloadNode::UclampMin),
            )
            &&& is.uclamp_max == was.uclamp_max || loose.contains(
                Thing::Control(key, WorkloadNode::UclampMax),
            )
        },
    }
}

/// Whether a process is what it was, but for what was let loose.
spec fn process_framed(
    was: ProcessModel,
    is: ProcessModel,
    process: ProcessId,
    loose: Set<Thing>,
) -> bool {
    &&& is.cgroup == was.cgroup || loose.contains(Thing::Place(process))
    &&& is.nice == was.nice || loose.contains(Thing::Nice(process))
    &&& is.ioprio == was.ioprio || loose.contains(Thing::Priority(process))
}

/// Whether a host is what it was, but for what was let loose.
#[verifier::opaque]
spec fn framed(start: CgroupModel, held: CgroupModel, loose: Set<Thing>) -> bool {
    &&& forall|key: Seq<char>|
        group_framed(
            workload_model::group_at(start, key),
            #[trigger] workload_model::group_at(held, key),
            key,
            loose,
        )
    &&& forall|process: ProcessId| #[trigger]
        held.processes.contains_key(process) <==> start.processes.contains_key(process)
    &&& forall|process: ProcessId| #[trigger]
        held.processes.contains_key(process) ==> process_framed(
            start.processes[process],
            held.processes[process],
            process,
            loose,
        )
}

proof fn lemma_frame_start(start: CgroupModel)
    ensures
        framed(start, start, Set::empty()),
{
    reveal(framed);
}

/// What has no name in a sequence has none in its beginning.
proof fn lemma_ends(groups: Seq<GroupModel>)
    requires
        workload_model::in_order(groups),
        groups.len() > 0,
    ensures
        workload_model::in_order(groups.drop_last()),
        workload_model::position(groups.drop_last(), groups.last().key) < 0,
        forall|i: int|
            0 <= i < groups.len() - 1 ==> text::less_spec(
                (#[trigger] groups[i]).key,
                groups.last().key,
            ),
{
    let before = groups.drop_last();
    let last = groups.len() - 1;
    assert forall|i: int, j: int| 0 <= i < j < before.len() implies text::less_spec(
        (#[trigger] before[i]).key,
        (#[trigger] before[j]).key,
    ) by {
        assert(text::less_spec(groups[i].key, groups[j].key));
    }
    assert forall|i: int| 0 <= i < last implies text::less_spec(
        (#[trigger] groups[i]).key,
        groups.last().key,
    ) by {
        assert(text::less_spec(groups[i].key, groups[last].key));
    }
    workload_model::lemma_position(before, groups.last().key);
    let p = workload_model::position(before, groups.last().key);
    if p >= 0 {
        assert(before[p] == groups[p]);
        text::less_irreflexive(groups.last().key);
    }
}

/// Groups in order are the same where each name finds the same.
proof fn lemma_same_groups(a: Seq<GroupModel>, b: Seq<GroupModel>)
    requires
        workload_model::in_order(a),
        workload_model::in_order(b),
        forall|key: Seq<char>|
            found(a, key) == #[trigger] found(b, key),
    ensures
        a == b,
    decreases a.len(),
{
    if a.len() == 0 {
        if b.len() > 0 {
            assert(found(b, b.last().key) is Some);
            assert(found(a, b.last().key) is None);
        }
        assert(a =~= b);
    } else {
        let key = a.last().key;
        assert(found(a, key) == found(b, key));
        workload_model::lemma_position(b, key);
        assert(b.len() > 0);
        lemma_ends(a);
        lemma_ends(b);
        let other = b.last().key;
        assert(found(b, other) == found(a, other));
        workload_model::lemma_position(a, other);
        let p = workload_model::position(b, key);
        let q = workload_model::position(a, other);
        assert(key == other) by {
            if key != other {
                assert(p < b.len() - 1);
                assert(text::less_spec(b[p].key, other));
                assert(q < a.len() - 1);
                assert(text::less_spec(a[q].key, key));
                text::less_transitive(key, other, key);
                text::less_irreflexive(key);
            }
        }
        assert(a.last() == b.last());
        let c = a.drop_last();
        let d = b.drop_last();
        assert forall|k: Seq<char>| found(c, k) == #[trigger] found(d, k) by {
            assert(found(a, k) == found(b, k));
            workload_model::lemma_position(c, k);
            workload_model::lemma_position(d, k);
        }
        lemma_same_groups(c, d);
        assert(a =~= c.push(a.last()));
        assert(b =~= d.push(b.last()));
    }
}

/// The group that a name finds.
spec fn found(groups: Seq<GroupModel>, key: Seq<char>) -> Option<GroupModel> {
    let i = workload_model::position(groups, key);
    if i >= 0 {
        Some(groups[i])
    } else {
        None
    }
}

/// With nothing loose the host is what it was.
proof fn lemma_frame_closed(start: CgroupModel, held: CgroupModel)
    requires
        framed(start, held, Set::empty()),
        shaped(start),
        shaped(held),
    ensures
        held == start,
{
    reveal(framed);
    assert forall|process: ProcessId| #[trigger]
        held.processes.contains_key(process) implies held.processes[process]
        == start.processes[process] by {
        assert(process_framed(
            start.processes[process],
            held.processes[process],
            process,
            Set::empty(),
        ));
    }
    assert(held.processes =~= start.processes);
    assert forall|key: Seq<char>| found(start.groups, key) == #[trigger] found(held.groups, key) by {
        let was = workload_model::group_at(start, key);
        let is = workload_model::group_at(held, key);
        assert(group_framed(was, is, key, Set::empty()));
        if was is Some {
            assert forall|process: ProcessId| is->0.processes.contains(process)
                == was->0.processes.contains(process) by {
                assert(held.processes.contains_key(process) == start.processes.contains_key(process));
            }
            assert(is->0.processes =~= was->0.processes);
            assert(is->0 == was->0);
        }
    }
    lemma_same_groups(start.groups, held.groups);
}

/// Replacing a group keeps the order.
proof fn lemma_order_kept(model: CgroupModel, group: GroupModel)
    requires
        workload_model::in_order(model.groups),
        workload_model::group_at(model, group.key) is Some,
    ensures
        workload_model::in_order(workload_model::replaced(model, group).groups),
{
    let i = workload_model::position(model.groups, group.key);
    workload_model::lemma_position(model.groups, group.key);
    let after = workload_model::replaced(model, group).groups;
    assert forall|j: int, k: int| 0 <= j < k < after.len() implies text::less_spec(
        (#[trigger] after[j]).key,
        (#[trigger] after[k]).key,
    ) by {
        assert(text::less_spec(model.groups[j].key, model.groups[k].key));
    }
}

/// A change keeps the shape of a host.
proof fn lemma_shape_kept(held: CgroupModel, kind: KindView)
    requires
        shaped(held),
        workload_model::write(held, kind, kind.desired()).1 is None,
    ensures
        shaped(workload_model::write(held, kind, kind.desired()).0),
{
    workload_model::changes_keep_the_form(held, kind);
    if let Some((group, node)) = workload_model::control_of(kind) {
        let found = workload_model::resolved(held, group)->Ok_0;
        workload_model::lemma_position(held.groups, group.handle);
        lemma_order_kept(held, workload_model::given(found, node, kind.desired()));
    } else if let Some((parent, name, _)) = workload_model::child_of(kind) {
        let found = workload_model::resolved(held, parent)->Ok_0;
        let key = workload_node::child_name(parent.handle, name);
        let identity = CgroupView {
            mount_id: found.identity.mount_id,
            inode: workload_model::next_inode(held.groups),
            handle: key,
        };
        workload_model::adding_keeps_the_order(
            held.groups,
            workload_model::child_group(found, name, identity),
        );
    } else if let KindView::ProcessPlacement { process, cgroup } = kind {
        let target = workload_model::resolved(held, cgroup)->Ok_0.identity.handle;
        let from = held.processes[process].cgroup;
        let between = workload_model::left(held, from, process);
        workload_model::lemma_position(held.groups, from);
        if let Some(group) = workload_model::group_at(held, from) {
            lemma_order_kept(
                held,
                GroupModel { processes: group.processes.remove(process), ..group },
            );
        }
        workload_model::lemma_position(between.groups, target);
        let group = workload_model::group_at(between, target)->0;
        lemma_order_kept(
            between,
            GroupModel { processes: group.processes.insert(process), ..group },
        );
    }
}

/// A change lets loose what it is about, and nothing else.
proof fn lemma_frame_write(start: CgroupModel, held: CgroupModel, loose: Set<Thing>, kind: KindView)
    requires
        framed(start, held, loose),
        workload_model::write(held, kind, kind.desired()).1 is None,
        workload::shape_fits(kind, kind.desired()),
    ensures
        framed(
            start,
            workload_model::write(held, kind, kind.desired()).0,
            loose.insert(thing(kind)),
        ),
{
    reveal(framed);
    let after = workload_model::write(held, kind, kind.desired()).0;
    let more = loose.insert(thing(kind));
    assert forall|key: Seq<char>|
        group_framed(
            workload_model::group_at(start, key),
            #[trigger] workload_model::group_at(after, key),
            key,
            more,
        ) by {
        assert(group_framed(
            workload_model::group_at(start, key),
            workload_model::group_at(held, key),
            key,
            loose,
        ));
        if let Some((group, node)) = workload_model::control_of(kind) {
            let found = workload_model::resolved(held, group)->Ok_0;
            workload_model::lemma_position(held.groups, group.handle);
            workload_model::lemma_replaced(
                held,
                workload_model::given(found, node, kind.desired()),
                key,
            );
        } else if let Some((parent, name, _)) = workload_model::child_of(kind) {
            workload_model::lemma_created(held, parent, name, key);
        } else if let KindView::ProcessPlacement { process, cgroup } = kind {
            workload_model::lemma_moved(held, process, cgroup, key);
        }
    }
    if let KindView::ProcessPlacement { process, cgroup } = kind {
        workload_model::lemma_moved(held, process, cgroup, Seq::empty());
    }
    assert forall|process: ProcessId| #[trigger]
        after.processes.contains_key(process) <==> start.processes.contains_key(process) by {
        assert(held.processes.contains_key(process) == start.processes.contains_key(process));
    }
    assert forall|process: ProcessId| #[trigger]
        after.processes.contains_key(process) implies process_framed(
        start.processes[process],
        after.processes[process],
        process,
        more,
    ) by {
        assert(held.processes.contains_key(process));
        assert(process_framed(
            start.processes[process],
            held.processes[process],
            process,
            loose,
        ));
    }
}

/// What was not let loose holds what it held.
proof fn lemma_frame_read(start: CgroupModel, held: CgroupModel, loose: Set<Thing>, kind: KindView)
    requires
        framed(start, held, loose),
        shaped(start),
        shaped(held),
        workload_model::target_state(start, kind) is Ok,
        !loose.contains(thing(kind)),
    ensures
        workload_model::target_state(held, kind) == workload_model::target_state(start, kind),
{
    reveal(framed);
    if let Some((group, _)) = workload_model::control_of(kind) {
        let key = group.handle;
        assert(group_framed(
            workload_model::group_at(start, key),
            workload_model::group_at(held, key),
            key,
            loose,
        ));
    } else if let Some((parent, name, _)) = workload_model::child_of(kind) {
        let key = parent.handle;
        let child = workload_node::child_name(parent.handle, name);
        assert(group_framed(
            workload_model::group_at(start, key),
            workload_model::group_at(held, key),
            key,
            loose,
        ));
        assert(group_framed(
            workload_model::group_at(start, child),
            workload_model::group_at(held, child),
            child,
            loose,
        ));
    } else if let Some(process) = workload_model::process_in(kind) {
        assert(start.processes.contains_key(process));
        assert(held.processes.contains_key(process));
        assert(process_framed(
            start.processes[process],
            held.processes[process],
            process,
            loose,
        ));
        let key = held.processes[process].cgroup;
        assert(workload_model::group_at(held, key) is Some);
        assert(group_framed(
            workload_model::group_at(start, key),
            workload_model::group_at(held, key),
            key,
            loose,
        ));
    }
}

/// A write that fails changes nothing.
proof fn lemma_failed_write(held: CgroupModel, kind: KindView, value: ValueView)
    requires
        workload_model::well_formed(held),
        workload_model::write(held, kind, value).1 is Some,
    ensures
        workload_model::write(held, kind, value).0 == held,
{
    if let KindView::ProcessPlacement { process, .. } = kind {
        if let ValueView::ProcessPlacement(group) = value {
            if workload_model::resolved(held, group) is Ok && held.processes.contains_key(process) {
                let found = workload_model::resolved(held, group)->Ok_0;
                workload_model::lemma_left(
                    held,
                    held.processes[process].cgroup,
                    process,
                    found.identity.handle,
                );
            }
        }
    }
}

/// The change that gives a target another value.
spec fn with_value(kind: KindView, value: ValueView) -> KindView {
    match kind {
        KindView::CgroupCpuWeight { cgroup, .. } => KindView::CgroupCpuWeight {
            cgroup,
            weight: value->CgroupCpuWeight_0,
        },
        KindView::CgroupCpuMax { cgroup, .. } => KindView::CgroupCpuMax {
            cgroup,
            quota: value->quota,
            period: value->period,
        },
        KindView::CgroupCpuset { cgroup, .. } => KindView::CgroupCpuset {
            cgroup,
            cpus: value->CgroupCpuset_0,
        },
        KindView::CgroupIoWeight { cgroup, .. } => KindView::CgroupIoWeight {
            cgroup,
            weight: value->CgroupIoWeight_0,
        },
        KindView::CgroupUclampMin { cgroup, .. } => KindView::CgroupUclampMin {
            cgroup,
            value: value->CgroupUclamp_0,
        },
        KindView::CgroupUclampMax { cgroup, .. } => KindView::CgroupUclampMax {
            cgroup,
            value: value->CgroupUclamp_0,
        },
        KindView::ProcessPlacement { process, .. } => KindView::ProcessPlacement {
            process,
            cgroup: value->ProcessPlacement_0,
        },
        KindView::ProcessNice { process, .. } => KindView::ProcessNice {
            process,
            nice: value->Nice_0,
        },
        KindView::ProcessIoPriority { process, .. } => KindView::ProcessIoPriority {
            process,
            priority: value->IoPriority_0,
        },
        _ => kind,
    }
}

proof fn lemma_with_value(held: CgroupModel, kind: KindView, value: ValueView)
    requires
        workload::shape_fits(kind, value),
        workload_model::child_of(kind) is None,
    ensures
        with_value(kind, value).desired() == value,
        thing(with_value(kind, value)) == thing(kind),
        workload::shape_fits(with_value(kind, value), value),
        workload_model::write(held, with_value(kind, value), value) == workload_model::write(
            held,
            kind,
            value,
        ),
{
}

/// What is found after a group was removed.
proof fn lemma_without(groups: Seq<GroupModel>, key: Seq<char>, other: Seq<char>)
    requires
        workload_model::in_order(groups),
    ensures
        workload_model::in_order(workload_model::without_group(groups, key)),
        found(workload_model::without_group(groups, key), other) == if other == key {
            None
        } else {
            found(groups, other)
        },
        forall|i: int|
            0 <= i < workload_model::without_group(groups, key).len() ==> groups.contains(
                #[trigger] workload_model::without_group(groups, key)[i],
            ),
    decreases groups.len(),
{
    if groups.len() > 0 {
        let before = groups.drop_last();
        lemma_ends(groups);
        lemma_without(before, key, other);
        let rest = workload_model::without_group(before, key);
        let after = workload_model::without_group(groups, key);
        assert forall|i: int| 0 <= i < rest.len() implies groups.contains(#[trigger] rest[i]) by {
            let k = before.index_of(rest[i]);
            assert(groups[k] == rest[i]);
        }
        workload_model::lemma_position(before, other);
        workload_model::lemma_position(rest, other);
        if groups.last().key != key {
            assert(after == rest.push(groups.last()));
            assert(after.drop_last() =~= rest);
            assert forall|i: int| 0 <= i < after.len() implies groups.contains(
                #[trigger] after[i],
            ) by {
                if i < rest.len() {
                    assert(after[i] == rest[i]);
                } else {
                    assert(after[i] == groups[groups.len() - 1]);
                }
            }
            assert forall|i: int, j: int| 0 <= i < j < after.len() implies text::less_spec(
                (#[trigger] after[i]).key,
                (#[trigger] after[j]).key,
            ) by {
                if j < rest.len() {
                    assert(text::less_spec(rest[i].key, rest[j].key));
                } else {
                    let k = before.index_of(rest[i]);
                    assert(before.contains(rest[i]));
                    assert(groups[k] == after[i]);
                    assert(text::less_spec(groups[k].key, groups.last().key));
                }
            }
        }
    }
}

/// Removing an empty group keeps the shape of a host.
proof fn lemma_removed(held: CgroupModel, parent: CgroupView, name: Seq<char>)
    requires
        shaped(held),
        workload_model::removed(held, parent, name).1 is None,
    ensures
        ({
            let after = workload_model::removed(held, parent, name).0;
            let gone = workload_node::child_name(parent.handle, name);
            &&& shaped(after)
            &&& after.processes == held.processes
            &&& forall|key: Seq<char>| #[trigger]
                workload_model::group_at(after, key) == if key == gone {
                    None
                } else {
                    workload_model::group_at(held, key)
                }
            &&& forall|process: ProcessId| #[trigger]
                held.processes.contains_key(process) ==> held.processes[process].cgroup != gone
        }),
{
    let after = workload_model::removed(held, parent, name).0;
    let gone = workload_node::child_name(parent.handle, name);
    lemma_without(held.groups, gone, gone);
    assert forall|key: Seq<char>| #[trigger]
        workload_model::group_at(after, key) == if key == gone {
            None
        } else {
            workload_model::group_at(held, key)
        } by {
        lemma_without(held.groups, gone, key);
        assert(workload_model::group_at(after, key) == found(after.groups, key));
        assert(workload_model::group_at(held, key) == found(held.groups, key));
    }
    assert forall|process: ProcessId| #[trigger]
        held.processes.contains_key(process) implies held.processes[process].cgroup != gone by {
        assert(workload_model::group_at(held, gone) is Some);
    }
    assert(workload_model::well_formed(after)) by {
        assert forall|process: ProcessId| #[trigger]
            after.processes.contains_key(process) implies workload_model::group_at(
            after,
            after.processes[process].cgroup,
        ) is Some by {
            assert(held.processes.contains_key(process));
            assert(workload_model::group_at(held, held.processes[process].cgroup) is Some);
        }
    }
}

/// Giving a target its first value makes it as it was.
proof fn lemma_frame_back(
    start: CgroupModel,
    held: CgroupModel,
    loose: Set<Thing>,
    kind: KindView,
    value: ValueView,
)
    requires
        framed(start, held, loose),
        shaped(start),
        shaped(held),
        workload_model::target_state(start, kind) is Ok,
        workload_model::target_state(start, kind)->Ok_0.typed == value,
        workload::shape_fits(kind, value),
        value != kind.desired(),
        workload_model::write(held, kind, value).1 is None,
    ensures
        framed(start, workload_model::write(held, kind, value).0, loose.remove(thing(kind))),
        shaped(workload_model::write(held, kind, value).0),
{
    let after = workload_model::write(held, kind, value).0;
    let less = loose.remove(thing(kind));
    if let Some((parent, name, _)) = workload_model::child_of(kind) {
        lemma_removed(held, parent, name);
        reveal(framed);
        let gone = workload_node::child_name(parent.handle, name);
        assert forall|key: Seq<char>|
            group_framed(
                workload_model::group_at(start, key),
                #[trigger] workload_model::group_at(after, key),
                key,
                less,
            ) by {
            assert(group_framed(
                workload_model::group_at(start, key),
                workload_model::group_at(held, key),
                key,
                loose,
            ));
        }
    } else {
        let back = with_value(kind, value);
        lemma_with_value(held, kind, value);
        lemma_shape_kept(held, back);
        lemma_frame_write(start, held, loose, back);
        lemma_back_again(start, held, loose, kind, value);
    }
}

/// Giving a control or a process its first value makes it as it was.
proof fn lemma_back_again(
    start: CgroupModel,
    held: CgroupModel,
    loose: Set<Thing>,
    kind: KindView,
    value: ValueView,
)
    requires
        framed(start, held, loose),
        framed(start, workload_model::write(held, kind, value).0, loose.insert(thing(kind))),
        shaped(start),
        shaped(held),
        workload_model::target_state(start, kind) is Ok,
        workload_model::target_state(start, kind)->Ok_0.typed == value,
        workload::shape_fits(kind, value),
        workload_model::child_of(kind) is None,
        workload_model::write(held, kind, value).1 is None,
    ensures
        framed(start, workload_model::write(held, kind, value).0, loose.remove(thing(kind))),
{
    reveal(framed);
    let after = workload_model::write(held, kind, value).0;
    let more = loose.insert(thing(kind));
    let less = loose.remove(thing(kind));
    assert forall|key: Seq<char>|
        group_framed(
            workload_model::group_at(start, key),
            #[trigger] workload_model::group_at(after, key),
            key,
            less,
        ) by {
        assert(group_framed(
            workload_model::group_at(start, key),
            workload_model::group_at(after, key),
            key,
            more,
        ));
        if let Some((group, node)) = workload_model::control_of(kind) {
            let there = workload_model::resolved(held, group)->Ok_0;
            workload_model::lemma_position(held.groups, group.handle);
            workload_model::lemma_replaced(
                held,
                workload_model::given(there, node, value),
                key,
            );
        }
    }
    assert forall|process: ProcessId| #[trigger]
        after.processes.contains_key(process) implies process_framed(
        start.processes[process],
        after.processes[process],
        process,
        less,
    ) by {
        assert(process_framed(
            start.processes[process],
            after.processes[process],
            process,
            more,
        ));
        if let KindView::ProcessPlacement { process: moving, .. } = kind {
            let home = value->ProcessPlacement_0;
            workload_model::lemma_moved(held, moving, home, home.handle);
            assert(start.processes.contains_key(moving));
            assert(workload_model::group_at(start, start.processes[moving].cgroup) is Some);
            assert(workload_model::group_at(held, home.handle) is Some);
        }
    }
}

/// Giving one target its first value changes no other.
proof fn lemma_others(
    start: CgroupModel,
    held: CgroupModel,
    kind: KindView,
    value: ValueView,
    other: KindView,
)
    requires
        shaped(held),
        workload_model::target_state(start, kind) is Ok,
        workload_model::target_state(start, kind)->Ok_0.typed == value,
        workload::shape_fits(kind, value),
        value != kind.desired(),
        workload_model::target_state(start, other) is Ok,
        workload_model::target_state(held, other) is Ok,
        thing(kind) != thing(other),
        workload_model::write(held, kind, value).1 is None,
    ensures
        workload_model::target_state(workload_model::write(held, kind, value).0, other)
            == workload_model::target_state(held, other),
{
    let after = workload_model::write(held, kind, value).0;
    if let Some((parent, name, _)) = workload_model::child_of(kind) {
        lemma_removed(held, parent, name);
        let gone = workload_node::child_name(parent.handle, name);
        assert(workload_model::group_at(start, gone) is None);
        if let Some((second, _)) = workload_model::control_of(other) {
            assert(second.handle != gone);
            assert(workload_model::group_at(after, second.handle) == workload_model::group_at(
                held,
                second.handle,
            ));
        } else if let Some((second, child, _)) = workload_model::child_of(other) {
            assert(second.handle != gone);
            let there = workload_node::child_name(second.handle, child);
            assert(workload_model::group_at(after, second.handle) == workload_model::group_at(
                held,
                second.handle,
            ));
            assert(workload_model::group_at(after, there) == workload_model::group_at(held, there));
        } else if let Some(process) = workload_model::process_in(other) {
            let key = held.processes[process].cgroup;
            assert(held.processes.contains_key(process));
            assert(workload_model::group_at(after, key) == workload_model::group_at(held, key));
        }
    } else {
        lemma_with_value(held, kind, value);
        let back = with_value(kind, value);
        lemma_apart(back, other);
        workload_model::other_targets_are_kept(held, back, other);
    }
}

/// What snapshotting a change of control groups in memory gives.
#[verifier::opaque]
pub(crate) open spec fn cgroup_snapshot(model: CgroupModel, mutation: MutationView, now: Timestamp) -> Result<
    SnapshotView,
    ErrorView,
> {
    workload::snapshot_spec::<CgroupFixture>(model, mutation, now)
}

/// What applying a change to control groups in memory leaves and answers.
#[verifier::opaque]
pub(crate) open spec fn cgroup_apply(model: CgroupModel, mutation: MutationView, snapshot: SnapshotView) -> (
    CgroupModel,
    Result<ApplyReceipt, ErrorView>,
) {
    workload::apply_spec::<CgroupFixture>(model, mutation, snapshot)
}

/// What reading back a change of control groups in memory answers.
#[verifier::opaque]
pub(crate) open spec fn cgroup_verify(model: CgroupModel, mutation: MutationView, identity: TargetIdentity) -> Result<
    StateFingerprint,
    ErrorView,
> {
    workload::verify_spec::<CgroupFixture>(model, mutation, identity)
}

/// What restoring a change of control groups in memory leaves and answers.
#[verifier::opaque]
pub(crate) open spec fn cgroup_restore(
    model: CgroupModel,
    mutation: MutationView,
    snapshot: SnapshotView,
    ownership: StateFingerprint,
) -> (CgroupModel, Result<RestoreReceipt, ErrorView>) {
    workload::restore_spec::<CgroupFixture>(model, mutation, snapshot, ownership)
}

/// The changes of a session that are still there, by what they are about.
spec fn loose(mutations: Seq<MutationView>, made: Seq<Mark>) -> Set<Thing> {
    Set::new(
        |about: Thing|
            exists|i: int|
                0 <= i < made.len() && (#[trigger] made[i]) is Left && thing(mutations[i].kind)
                    == about,
    )
}

/// Whether a change of control groups or processes can be told from what was there
/// before by the fingerprints of the two values, where it changes anything.
pub open spec fn told_apart(model: CgroupModel, mutation: MutationView) -> bool {
    workload_model::target_state(model, mutation.kind) matches Ok(seen) ==> (
    value::fingerprint_of(mutation.desired) == seen.fingerprint ==> mutation.desired == seen.typed)
}

/// Whether a change that fails on a host leaves it as it was.
pub open spec fn unchanged_by_failure(
    model: CgroupModel,
    mutation: MutationView,
    snapshot: SnapshotView,
) -> bool {
    let (after, reply) = workload::apply_spec::<CgroupFixture>(model, mutation, snapshot);
    reply is Err ==> after == model
}

/// Whether a snapshot was taken of a host for a change that can be told from what was
/// there.
#[verifier::opaque]
pub(crate) open spec fn one_planned(start: CgroupModel, mutation: MutationView, snapshot: SnapshotView) -> bool {
    &&& cgroup_snapshot(start, mutation, snapshot.captured_at) == Ok::<SnapshotView, ErrorView>(
        snapshot,
    )
    &&& told_apart(start, mutation)
}

spec fn all_planned(
    start: CgroupModel,
    mutations: Seq<MutationView>,
    snapshots: Seq<SnapshotView>,
) -> bool {
    &&& mutations.len() == snapshots.len()
    &&& shaped(start)
    &&& forall|i: int|
        0 <= i < mutations.len() ==> one_planned(start, #[trigger] mutations[i], snapshots[i])
}

/// Whether a change is there in its target if it should be.
#[verifier::opaque]
spec fn there(
    held: CgroupModel,
    mutation: MutationView,
    snapshot: SnapshotView,
    mark: Mark,
) -> bool {
    mark matches Mark::Left(owned) ==> {
        &&& workload_model::target_state(held, mutation.kind) matches Ok(seen)
        &&& seen.fingerprint == owned
        &&& seen.target_identity == snapshot.target_identity
        &&& owned == value::fingerprint_of(mutation.desired)
        &&& owned != snapshot.original_fingerprint
        &&& mutation.kind.desired() == mutation.desired
    }
}

pub(crate) closed spec fn groups_stand(
    start: CgroupModel,
    mutations: Seq<MutationView>,
    snapshots: Seq<SnapshotView>,
    made: Seq<Mark>,
    held: CgroupModel,
) -> bool {
    &&& framed(start, held, loose(mutations, made))
    &&& shaped(held)
    &&& forall|i: int|
        0 <= i < made.len() ==> there(held, mutations[i], snapshots[i], #[trigger] made[i])
    &&& forall|i: int|
        0 <= i < made.len() && !((#[trigger] made[i]) is Never) ==> one_planned(
            start,
            mutations[i],
            snapshots[i],
        )
    &&& forall|i: int, j: int|
        0 <= i < j < made.len() && !((#[trigger] made[i]) is Never) && !((#[trigger] made[j])
            is Never) ==> thing(mutations[i].kind) != thing(mutations[j].kind)
}

/// What a snapshot says of the target that it was taken of.
proof fn lemma_one_planned(start: CgroupModel, mutation: MutationView, snapshot: SnapshotView)
    requires
        one_planned(start, mutation, snapshot),
    ensures
        ({
            let seen = workload_model::target_state(start, mutation.kind)->Ok_0;
            &&& workload_model::target_state(start, mutation.kind) is Ok
            &&& workload::shape_fits(mutation.kind, seen.typed)
            &&& seen.fingerprint == value::fingerprint_of(seen.typed)
            &&& seen.fingerprint == snapshot.original_fingerprint
            &&& seen.fingerprint == mutation.precondition
            &&& seen.typed == snapshot.original_typed
            &&& seen.typed != mutation.desired
            &&& seen.target_identity == snapshot.target_identity
            &&& value::fingerprint_of(mutation.desired) != seen.fingerprint
        }),
{
    reveal(one_planned);
    reveal(cgroup_snapshot);
    assert(workload::held::<CgroupFixture>(start, mutation.kind) == workload_model::target_state(
        start,
        mutation.kind,
    ));
}

/// What a target holds is what the backend reads.
proof fn lemma_read(model: CgroupModel, kind: KindView)
    ensures
        workload::held::<CgroupFixture>(model, kind) == workload_model::target_state(model, kind),
{
}

/// Two changes about one thing read the same, or the second finds what it asks for.
proof fn lemma_one_thing(model: CgroupModel, a: KindView, b: KindView)
    requires
        thing(a) == thing(b),
        workload_model::target_state(model, a) is Ok,
        workload_model::target_state(model, b) is Ok,
    ensures
        ({
            let first = workload_model::target_state(model, a)->Ok_0;
            let second = workload_model::target_state(model, b)->Ok_0;
            &&& first.fingerprint == value::fingerprint_of(first.typed)
            &&& second.fingerprint == value::fingerprint_of(second.typed)
            &&& workload_model::child_of(a) is None ==> first.typed == second.typed
            &&& workload_model::child_of(a) is Some ==> workload_model::child_of(b) is Some && (
            first.typed == a.desired() <==> second.typed == b.desired())
        }),
{
}

/// What one apply does to a host whose target holds the original.
proof fn lemma_one_made(
    start: CgroupModel,
    held: CgroupModel,
    mutation: MutationView,
    snapshot: SnapshotView,
    open: Set<Thing>,
)
    requires
        one_planned(start, mutation, snapshot),
        framed(start, held, open),
        shaped(start),
        shaped(held),
        cgroup_apply(held, mutation, snapshot).1 is Ok,
    ensures
        ({
            let (after, reply) = cgroup_apply(held, mutation, snapshot);
            let owned = reply->Ok_0.ownership_fingerprint;
            &&& framed(start, after, open.insert(thing(mutation.kind)))
            &&& shaped(after)
            &&& owned != snapshot.original_fingerprint
            &&& there(after, mutation, snapshot, Mark::Left(owned))
            &&& forall|other: MutationView, taken: SnapshotView, mark: Mark|
                there(held, other, taken, mark) && thing(other.kind) != thing(mutation.kind)
                    ==> #[trigger] there(after, other, taken, mark)
        }),
{
    reveal(cgroup_apply);
    lemma_one_planned(start, mutation, snapshot);
    let kind = mutation.kind;
    let (after, reply) = cgroup_apply(held, mutation, snapshot);
    lemma_read(held, kind);
    lemma_read(after, kind);
    assert(kind.desired() == mutation.desired);
    assert(workload_model::write(held, kind, kind.desired()) == (after, None::<ErrorView>));
    lemma_shape_kept(held, kind);
    lemma_frame_write(start, held, open, kind);
    assert(there(after, mutation, snapshot, Mark::Left(reply->Ok_0.ownership_fingerprint))) by {
        reveal(there);
    }
    assert forall|other: MutationView, taken: SnapshotView, mark: Mark|
        there(held, other, taken, mark) && thing(other.kind) != thing(kind) implies #[trigger] there(
        after,
        other,
        taken,
        mark,
    ) by {
        reveal(there);
        if mark is Left {
            lemma_apart(kind, other.kind);
            workload_model::other_targets_are_kept(held, kind, other.kind);
        }
    }
}

proof fn lemma_loose_more(mutations: Seq<MutationView>, made: Seq<Mark>, k: int, mark: Mark)
    requires
        0 <= k < made.len(),
        mark is Left,
        made[k] is Never,
    ensures
        loose(mutations, made.update(k, mark)) == loose(mutations, made).insert(
            thing(mutations[k].kind),
        ),
{
    let after = made.update(k, mark);
    let node = thing(mutations[k].kind);
    assert forall|n: Thing| loose(mutations, after).contains(n) == loose(
        mutations,
        made,
    ).insert(node).contains(n) by {
        if loose(mutations, made).contains(n) {
            let i = choose|i: int|
                0 <= i < made.len() && (#[trigger] made[i]) is Left && thing(mutations[i].kind) == n;
            assert(after[i] is Left);
        }
        if n == node {
            assert(after[k] is Left);
        }
        if loose(mutations, after).contains(n) && n != node {
            let i = choose|i: int|
                0 <= i < after.len() && (#[trigger] after[i]) is Left && thing(mutations[i].kind) == n;
            assert(made[i] is Left);
        }
    }
    assert(loose(mutations, after) =~= loose(mutations, made).insert(node));
}

proof fn lemma_loose_less(
    start: CgroupModel,
    mutations: Seq<MutationView>,
    snapshots: Seq<SnapshotView>,
    made: Seq<Mark>,
    held: CgroupModel,
    k: int,
)
    requires
        groups_stand(start, mutations, snapshots, made, held),
        0 <= k < made.len(),
        made[k] is Left,
    ensures
        loose(mutations, made.update(k, Mark::Back)) == loose(mutations, made).remove(
            thing(mutations[k].kind),
        ),
{
    let after = made.update(k, Mark::Back);
    let node = thing(mutations[k].kind);
    assert forall|n: Thing| loose(mutations, after).contains(n) == loose(
        mutations,
        made,
    ).remove(node).contains(n) by {
        if loose(mutations, made).contains(n) && n != node {
            let i = choose|i: int|
                0 <= i < made.len() && (#[trigger] made[i]) is Left && thing(mutations[i].kind) == n;
            assert(after[i] is Left);
        }
        if loose(mutations, after).contains(n) {
            let i = choose|i: int|
                0 <= i < after.len() && (#[trigger] after[i]) is Left && thing(mutations[i].kind) == n;
            assert(made[i] is Left);
            assert(i != k);
            assert(made[k] is Left);
        }
    }
    assert(loose(mutations, after) =~= loose(mutations, made).remove(node));
}

/// A change that was made is about something else than those before it.
proof fn lemma_another_thing(
    start: CgroupModel,
    mutations: Seq<MutationView>,
    snapshots: Seq<SnapshotView>,
    made: Seq<Mark>,
    held: CgroupModel,
    k: int,
    i: int,
)
    requires
        mutations.len() == snapshots.len(),
        one_planned(start, mutations[k], snapshots[k]),
        groups_stand(start, mutations, snapshots, made, held),
        made.len() == mutations.len(),
        0 <= i < mutations.len(),
        0 <= k < mutations.len(),
        made[i] is Left,
        cgroup_apply(held, mutations[k], snapshots[k]).1 is Ok,
    ensures
        thing(mutations[i].kind) != thing(mutations[k].kind),
{
    assert(there(held, mutations[i], snapshots[i], made[i]));
    assert(one_planned(start, mutations[i], snapshots[i]));
    assert(one_planned(start, mutations[k], snapshots[k]));
    if thing(mutations[i].kind) == thing(mutations[k].kind) {
        lemma_second_refused(
            start,
            held,
            mutations[i],
            snapshots[i],
            made[i]->Left_0,
            mutations[k],
            snapshots[k],
        );
    }
}

pub(crate) proof fn lemma_groups_made(
    start: CgroupModel,
    mutations: Seq<MutationView>,
    snapshots: Seq<SnapshotView>,
    made: Seq<Mark>,
    held: CgroupModel,
    k: int,
)
    requires
        shaped(start),
        mutations.len() == snapshots.len(),
        one_planned(start, mutations[k], snapshots[k]),
        groups_stand(start, mutations, snapshots, made, held),
        made.len() == mutations.len(),
        0 <= k < mutations.len(),
        made[k] is Never,
        forall|j: int| 0 <= j < made.len() ==> !((#[trigger] made[j]) is Back),
        cgroup_apply(held, mutations[k], snapshots[k]).1 is Ok,
    ensures
        ({
            let (after, reply) = cgroup_apply(held, mutations[k], snapshots[k]);
            let owned = reply->Ok_0.ownership_fingerprint;
            &&& owned != snapshots[k].original_fingerprint
            &&& groups_stand(
                start,
                mutations,
                snapshots,
                made.update(k, Mark::Left(owned)),
                after,
            )
        }),
{
    let mutation = mutations[k];
    let snapshot = snapshots[k];
    let open = loose(mutations, made);
    let (after, reply) = cgroup_apply(held, mutation, snapshot);
    let mark = Mark::Left(reply->Ok_0.ownership_fingerprint);
    let now = made.update(k, mark);
    assert(one_planned(start, mutations[k], snapshots[k]));
    lemma_one_made(start, held, mutation, snapshot, open);
    lemma_loose_more(mutations, made, k, mark);
    assert forall|i: int| 0 <= i < now.len() implies there(
        after,
        mutations[i],
        snapshots[i],
        #[trigger] now[i],
    ) by {
        if i != k {
            assert(now[i] == made[i]);
            assert(there(held, mutations[i], snapshots[i], made[i]));
            if made[i] is Left {
                lemma_another_thing(start, mutations, snapshots, made, held, k, i);
            } else {
                reveal(there);
            }
        }
    }
    assert forall|i: int| 0 <= i < now.len() && !((#[trigger] now[i]) is Never) implies one_planned(
        start,
        mutations[i],
        snapshots[i],
    ) by {
        if i != k {
            assert(!(made[i] is Never));
        }
    }
    assert forall|i: int, j: int|
        0 <= i < j < now.len() && !((#[trigger] now[i]) is Never) && !((#[trigger] now[j])
            is Never) implies thing(mutations[i].kind) != thing(mutations[j].kind) by {
        assert(i != k ==> made[i] is Left);
        assert(j != k ==> made[j] is Left);
        if i == k {
            lemma_another_thing(start, mutations, snapshots, made, held, k, j);
        } else if j == k {
            lemma_another_thing(start, mutations, snapshots, made, held, k, i);
        }
    }
}

/// A second change about one thing is refused while the first is there.
proof fn lemma_second_refused(
    start: CgroupModel,
    held: CgroupModel,
    first: MutationView,
    taken: SnapshotView,
    owned: StateFingerprint,
    second: MutationView,
    snapshot: SnapshotView,
)
    requires
        one_planned(start, first, taken),
        one_planned(start, second, snapshot),
        there(held, first, taken, Mark::Left(owned)),
        thing(first.kind) == thing(second.kind),
    ensures
        cgroup_apply(held, second, snapshot).1 is Err,
{
    reveal(cgroup_apply);
    reveal(there);
    lemma_one_planned(start, first, taken);
    lemma_one_planned(start, second, snapshot);
    lemma_read(held, second.kind);
    lemma_one_thing(start, first.kind, second.kind);
    if workload_model::target_state(held, second.kind) is Ok {
        lemma_one_thing(held, first.kind, second.kind);
    }
}

pub(crate) proof fn lemma_groups_seen(
    start: CgroupModel,
    mutations: Seq<MutationView>,
    snapshots: Seq<SnapshotView>,
    made: Seq<Mark>,
    held: CgroupModel,
    k: int,
)
    requires
        shaped(start),
        mutations.len() == snapshots.len(),
        groups_stand(start, mutations, snapshots, made, held),
        made.len() == mutations.len(),
        0 <= k < mutations.len(),
        !(made[k] is Never),
    ensures
        cgroup_verify(held, mutations[k], snapshots[k].target_identity) == Ok::<
            StateFingerprint,
            ErrorView,
        >(
            match made[k] {
                Mark::Left(owned) => owned,
                _ => snapshots[k].original_fingerprint,
            },
        ),
        made[k] != Mark::Left(snapshots[k].original_fingerprint),
{
    reveal(cgroup_verify);
    assert(one_planned(start, mutations[k], snapshots[k]));
    lemma_one_planned(start, mutations[k], snapshots[k]);
    let kind = mutations[k].kind;
    assert(there(held, mutations[k], snapshots[k], made[k]));
    reveal(there);
    lemma_read(held, kind);
    if made[k] is Back {
        if loose(mutations, made).contains(thing(kind)) {
            let i = choose|i: int|
                0 <= i < made.len() && (#[trigger] made[i]) is Left && thing(mutations[i].kind)
                    == thing(kind);
            assert(i != k);
        }
        lemma_frame_read(start, held, loose(mutations, made), kind);
    }
}

/// What a restore does to a target that holds what the session left.
proof fn lemma_one_undone(
    start: CgroupModel,
    held: CgroupModel,
    mutation: MutationView,
    snapshot: SnapshotView,
    owned: StateFingerprint,
    open: Set<Thing>,
)
    requires
        one_planned(start, mutation, snapshot),
        framed(start, held, open),
        shaped(start),
        shaped(held),
        there(held, mutation, snapshot, Mark::Left(owned)),
    ensures
        ({
            let (after, reply) = cgroup_restore(held, mutation, snapshot, owned);
            ||| reply is Err && after == held
            ||| {
                &&& framed(start, after, open.remove(thing(mutation.kind)))
                &&& shaped(after)
                &&& forall|other: MutationView, taken: SnapshotView, mark: Mark|
                    there(held, other, taken, mark) && one_planned(start, other, taken) && thing(
                        other.kind,
                    ) != thing(mutation.kind) ==> #[trigger] there(after, other, taken, mark)
            }
        }),
{
    reveal(cgroup_restore);
    lemma_one_planned(start, mutation, snapshot);
    let kind = mutation.kind;
    let original = snapshot.original_typed;
    let (after, reply) = cgroup_restore(held, mutation, snapshot, owned);
    lemma_read(held, kind);
    assert(workload_model::target_state(held, kind) is Ok && workload_model::target_state(
        held,
        kind,
    )->Ok_0.target_identity == snapshot.target_identity && workload_model::target_state(
        held,
        kind,
    )->Ok_0.fingerprint == owned) by {
        reveal(there);
    }
    let (written, failed) = workload_model::write(held, kind, original);
    assert(after == written);
    if failed is Some {
        lemma_failed_write(held, kind, original);
    } else {
        assert(kind.desired() == mutation.desired) by {
            reveal(there);
        }
        lemma_frame_back(start, held, open, kind, original);
        assert forall|other: MutationView, taken: SnapshotView, mark: Mark|
            there(held, other, taken, mark) && one_planned(start, other, taken) && thing(other.kind)
                != thing(kind) implies #[trigger] there(after, other, taken, mark) by {
            reveal(there);
            if mark is Left {
                lemma_one_planned(start, other, taken);
                lemma_others(start, held, kind, original, other.kind);
            }
        }
    }
}

pub(crate) proof fn lemma_groups_undone(
    start: CgroupModel,
    mutations: Seq<MutationView>,
    snapshots: Seq<SnapshotView>,
    made: Seq<Mark>,
    held: CgroupModel,
    k: int,
    owned: StateFingerprint,
)
    requires
        shaped(start),
        mutations.len() == snapshots.len(),
        groups_stand(start, mutations, snapshots, made, held),
        made.len() == mutations.len(),
        0 <= k < mutations.len(),
        made[k] == Mark::Left(owned),
    ensures
        ({
            let (after, reply) = cgroup_restore(held, mutations[k], snapshots[k], owned);
            ||| groups_stand(start, mutations, snapshots, made.update(k, Mark::Back), after)
            ||| reply is Err && groups_stand(start, mutations, snapshots, made, after)
        }),
{
    let mutation = mutations[k];
    let snapshot = snapshots[k];
    let open = loose(mutations, made);
    let now = made.update(k, Mark::Back);
    let (after, reply) = cgroup_restore(held, mutation, snapshot, owned);
    assert(one_planned(start, mutations[k], snapshots[k]));
    assert(there(held, mutations[k], snapshots[k], made[k]));
    lemma_one_undone(start, held, mutation, snapshot, owned, open);
    if !(reply is Err && after == held) {
        lemma_loose_less(start, mutations, snapshots, made, held, k);
        assert forall|i: int| 0 <= i < now.len() implies there(
            after,
            mutations[i],
            snapshots[i],
            #[trigger] now[i],
        ) by {
            if i == k || now[i] is Never {
                reveal(there);
            } else {
                assert(now[i] == made[i]);
                assert(there(held, mutations[i], snapshots[i], made[i]));
                assert(one_planned(start, mutations[i], snapshots[i]));
                assert(made[k] is Left);
            }
        }
        assert forall|i: int, j: int|
            0 <= i < j < now.len() && !((#[trigger] now[i]) is Never) && !((#[trigger] now[j])
                is Never) implies thing(mutations[i].kind) != thing(mutations[j].kind) by {
            assert(!(made[i] is Never) && !(made[j] is Never));
        }
    }
}

/// What is found on a host in memory goes by what it holds.
pub(crate) proof fn lemma_conduct_snapshots(
    shown: Shown,
    mutation: MutationView,
    now: Timestamp,
    reply: Result<SnapshotView, ErrorView>,
)
    requires
        (workload::workload_conduct::<CgroupFixture>().snapshots)(shown, mutation, now, reply),
    ensures
        shown matches Shown::Workload(held) && reply == cgroup_snapshot(held, mutation, now),
{
    reveal(cgroup_snapshot);
    let host = choose|host: CgroupFixture| #[trigger]
        workload::snapshots(host, mutation, now, reply) && host.shown() == shown;
    workload::settled_hosts_go_by_their_model(host, host, mutation, arbitrary());
}

/// What a change does to a host in memory goes by what it holds.
pub(crate) proof fn lemma_conduct_applies(
    shown: Shown,
    after: Shown,
    mutation: MutationView,
    snapshot: SnapshotView,
    reply: Result<ApplyReceipt, ErrorView>,
)
    requires
        (workload::workload_conduct::<CgroupFixture>().applies)(shown, after, mutation, snapshot, reply),
    ensures
        shown is Workload,
        after is Workload,
        (after->Workload_0, reply) == cgroup_apply(shown->Workload_0, mutation, snapshot),
{
    reveal(cgroup_apply);
    let (host, left) = choose|host: CgroupFixture, left: CgroupFixture| #[trigger]
        workload::applies(host, left, mutation, snapshot, reply) && host.shown() == shown
            && left.shown() == after;
    workload::settled_hosts_go_by_their_model(host, left, mutation, snapshot);
}

/// What is read back from a host in memory goes by what it holds.
pub(crate) proof fn lemma_conduct_verifies(
    shown: Shown,
    mutation: MutationView,
    identity: TargetIdentity,
    reply: Result<StateFingerprint, ErrorView>,
)
    requires
        (workload::workload_conduct::<CgroupFixture>().verifies)(shown, mutation, identity, reply),
    ensures
        shown matches Shown::Workload(held) && reply == cgroup_verify(held, mutation, identity),
{
    reveal(cgroup_verify);
    let host = choose|host: CgroupFixture| #[trigger]
        workload::verifies(host, mutation, identity, reply) && host.shown() == shown;
    workload::settled_hosts_go_by_their_model(host, host, mutation, arbitrary());
}

/// What giving back an original does to a host in memory goes by what it holds.
pub(crate) proof fn lemma_conduct_restores(
    shown: Shown,
    after: Shown,
    mutation: MutationView,
    snapshot: SnapshotView,
    ownership: StateFingerprint,
    reply: Result<RestoreReceipt, ErrorView>,
)
    requires
        (workload::workload_conduct::<CgroupFixture>().restores)(shown, after, mutation, snapshot, ownership, reply),
    ensures
        shown is Workload,
        after is Workload,
        (after->Workload_0, reply) == cgroup_restore(shown->Workload_0, mutation, snapshot, ownership),
{
    reveal(cgroup_restore);
    let (host, left) = choose|host: CgroupFixture, left: CgroupFixture| #[trigger]
        workload::restores(host, left, mutation, snapshot, ownership, reply) && host.shown() == shown
            && left.shown() == after;
    workload::settled_hosts_go_by_their_model(host, left, mutation, snapshot);
}

/// Before anything is made the host stands.
pub(crate) proof fn lemma_groups_begin(
    start: CgroupModel,
    mutations: Seq<MutationView>,
    snapshots: Seq<SnapshotView>,
    made: Seq<Mark>,
)
    requires
        shaped(start),
        forall|j: int| 0 <= j < made.len() ==> (#[trigger] made[j]) is Never,
    ensures
        groups_stand(start, mutations, snapshots, made, start),
{
    lemma_frame_start(start);
    assert(loose(mutations, made) =~= Set::empty());
    assert forall|i: int| 0 <= i < made.len() implies there(
        start,
        mutations[i],
        snapshots[i],
        #[trigger] made[i],
    ) by {
        reveal(there);
    }
}

/// Once nothing is left the host is as it was.
pub(crate) proof fn lemma_groups_closed(
    start: CgroupModel,
    mutations: Seq<MutationView>,
    snapshots: Seq<SnapshotView>,
    made: Seq<Mark>,
    held: CgroupModel,
)
    requires
        shaped(start),
        groups_stand(start, mutations, snapshots, made, held),
        forall|j: int| 0 <= j < made.len() ==> !((#[trigger] made[j]) is Left),
    ensures
        held == start,
{
    assert(loose(mutations, made) =~= Set::empty());
    lemma_frame_closed(start, held);
}

impl InMemory for WorkloadBackend<CgroupFixture> {
    type Model = CgroupModel;

    closed spec fn held(&self) -> CgroupModel {
        self.host().model()
    }

    closed spec fn sound(held: CgroupModel) -> bool {
        true
    }

    closed spec fn snapshot_by(held: CgroupModel, mutation: MutationView, now: Timestamp) -> Result<
        SnapshotView,
        ErrorView,
    > {
        cgroup_snapshot(held, mutation, now)
    }

    closed spec fn apply_by(held: CgroupModel, mutation: MutationView, snapshot: SnapshotView) -> (
        CgroupModel,
        Result<ApplyReceipt, ErrorView>,
    ) {
        cgroup_apply(held, mutation, snapshot)
    }

    closed spec fn verify_by(
        held: CgroupModel,
        mutation: MutationView,
        identity: TargetIdentity,
    ) -> Result<StateFingerprint, ErrorView> {
        cgroup_verify(held, mutation, identity)
    }

    closed spec fn restore_by(
        held: CgroupModel,
        mutation: MutationView,
        snapshot: SnapshotView,
        ownership: StateFingerprint,
    ) -> (CgroupModel, Result<RestoreReceipt, ErrorView>) {
        cgroup_restore(held, mutation, snapshot, ownership)
    }

    closed spec fn suits(held: CgroupModel, mutation: MutationView, snapshot: SnapshotView) -> bool {
        unchanged_by_failure(held, mutation, snapshot)
    }

    closed spec fn planned(
        start: CgroupModel,
        mutations: Seq<MutationView>,
        snapshots: Seq<SnapshotView>,
    ) -> bool {
        all_planned(start, mutations, snapshots)
    }

    closed spec fn stands(
        start: CgroupModel,
        mutations: Seq<MutationView>,
        snapshots: Seq<SnapshotView>,
        made: Seq<Mark>,
        held: CgroupModel,
    ) -> bool {
        groups_stand(start, mutations, snapshots, made, held)
    }

    closed spec fn same(start: CgroupModel, held: CgroupModel) -> bool {
        held == start
    }

    proof fn lemma_begin(
        start: CgroupModel,
        mutations: Seq<MutationView>,
        snapshots: Seq<SnapshotView>,
        made: Seq<Mark>,
    ) {
        lemma_groups_begin(start, mutations, snapshots, made);
    }

    proof fn lemma_made(
        start: CgroupModel,
        mutations: Seq<MutationView>,
        snapshots: Seq<SnapshotView>,
        made: Seq<Mark>,
        held: CgroupModel,
        k: int,
    ) {
        if cgroup_apply(held, mutations[k], snapshots[k]).1 is Ok {
            lemma_groups_made(start, mutations, snapshots, made, held, k);
        } else {
            reveal(cgroup_apply);
        }
    }

    proof fn lemma_seen(
        start: CgroupModel,
        mutations: Seq<MutationView>,
        snapshots: Seq<SnapshotView>,
        made: Seq<Mark>,
        held: CgroupModel,
        k: int,
    ) {
        lemma_groups_seen(start, mutations, snapshots, made, held, k);
    }

    proof fn lemma_undone(
        start: CgroupModel,
        mutations: Seq<MutationView>,
        snapshots: Seq<SnapshotView>,
        made: Seq<Mark>,
        held: CgroupModel,
        k: int,
        owned: StateFingerprint,
    ) {
        lemma_groups_undone(start, mutations, snapshots, made, held, k, owned);
    }

    proof fn lemma_nothing_left(
        start: CgroupModel,
        mutations: Seq<MutationView>,
        snapshots: Seq<SnapshotView>,
        made: Seq<Mark>,
        held: CgroupModel,
    ) {
        lemma_groups_closed(start, mutations, snapshots, made, held);
    }

    proof fn lemma_snapshot(
        &self,
        mutation: MutationView,
        now: Timestamp,
        reply: Result<SnapshotView, ErrorView>,
    ) {
        reveal(cgroup_snapshot);
        workload::settled_hosts_go_by_their_model(self.host(), self.host(), mutation, arbitrary());
    }

    proof fn lemma_apply(
        &self,
        after: &Self,
        mutation: MutationView,
        snapshot: SnapshotView,
        reply: Result<ApplyReceipt, ErrorView>,
    ) {
        reveal(cgroup_apply);
        let left = choose|left: CgroupFixture| #[trigger]
            workload::applies(self.host(), left, mutation, snapshot, reply)
                && after.host().shown() == left.shown();
        workload::settled_hosts_go_by_their_model(self.host(), left, mutation, snapshot);
        assert(after.host().model() == left.model());
    }

    proof fn lemma_verify(
        &self,
        mutation: MutationView,
        expected: StateFingerprint,
        identity: TargetIdentity,
        reply: Result<StateFingerprint, ErrorView>,
    ) {
        reveal(cgroup_verify);
        workload::settled_hosts_go_by_their_model(self.host(), self.host(), mutation, arbitrary());
    }

    proof fn lemma_restore(
        &self,
        after: &Self,
        mutation: MutationView,
        snapshot: SnapshotView,
        ownership: StateFingerprint,
        reply: Result<RestoreReceipt, ErrorView>,
    ) {
        reveal(cgroup_restore);
        let left = choose|left: CgroupFixture| #[trigger]
            workload::restores(self.host(), left, mutation, snapshot, ownership, reply)
                && after.host().shown() == left.shown();
        workload::settled_hosts_go_by_their_model(self.host(), left, mutation, snapshot);
        assert(after.host().model() == left.model());
    }
}

/// A change that fails leaves the host as it was, unless it names the group that a process
/// is to be in by less than its whole identity, or what is read back is too long to keep.
pub proof fn failed_changes_change_nothing(
    model: CgroupModel,
    mutation: MutationView,
    snapshot: SnapshotView,
    now: Timestamp,
)
    requires
        workload_model::well_formed(model),
        workload::snapshot_spec::<CgroupFixture>(model, mutation, now) == Ok::<
            SnapshotView,
            ErrorView,
        >(snapshot),
        mutation.desired matches ValueView::ProcessPlacement(group) ==> group.mount_id != 0
            && group.inode != 0,
        workload_model::target_state(
            workload_model::write(model, mutation.kind, mutation.desired).0,
            mutation.kind,
        ) is Ok,
    ensures
        unchanged_by_failure(model, mutation, snapshot),
{
    let kind = mutation.kind;
    let (after, failed) = workload_model::write(model, kind, mutation.desired);
    lemma_read(model, kind);
    lemma_read(after, kind);
    if failed is Some {
        lemma_failed_write(model, kind, mutation.desired);
    } else if kind.desired() == mutation.desired {
        if let Some((group, node)) = workload_model::control_of(kind) {
            let there = workload_model::resolved(model, group)->Ok_0;
            let changed = workload_model::given(there, node, mutation.desired);
            workload_model::lemma_position(model.groups, group.handle);
            workload_model::lemma_replaced(model, changed, group.handle);
        } else if let Some((parent, name, _)) = workload_model::child_of(kind) {
            workload_model::lemma_created(model, parent, name, parent.handle);
        } else if let KindView::ProcessPlacement { process, cgroup } = kind {
            workload_model::lemma_moved(model, process, cgroup, cgroup.handle);
        }
    }
}

/// A session that is restored, wherever in the history it was prepared.
proof fn lemma_groups_life<S, L, G, C>(
    before: TransactionEngine<WorkloadBackend<CgroupFixture>, S, L, G, C>,
    plan: PlanDataView,
    session_id: SessionId,
    prepared: TransactionEngine<WorkloadBackend<CgroupFixture>, S, L, G, C>,
    from: int,
    to: int,
    visits: Seq<Visit<WorkloadBackend<CgroupFixture>, S, L, G, C>>,
) where
    S: SessionStateStore,
    L: ExclusiveSessionLock,
    G: SessionIdSource,
    C: Clock,

    requires
        exact::is_prepared(before, plan, session_id, prepared, from, to),
        exact::in_turn(exact::intent(prepared.history(), to), visits, session_id),
        forall|k: int|
            0 <= k < visits.len() ==> (#[trigger] visits[k]).before.held_backend().host().model()
                == exact::backend_before(prepared, visits, k).host().model(),
        workload_model::well_formed(before.held_backend().host().model()),
        workload_model::in_order(before.held_backend().host().model().groups),
        forall|i: int|
            0 <= i < plan.mutations.len() ==> told_apart(
                before.held_backend().host().model(),
                #[trigger] plan.mutations[i],
            ),
        forall|i: int| 0 <= i < visits.len() ==> failures_change_nothing(#[trigger] visits[i]),
        visits.len() > 0,
        exact::ends_restored(visits.last(), session_id),
    ensures
        visits.last().after.held_backend().host().model() == before.held_backend().host().model(),
{
    let start = before.held_backend().host().model();
    assert(exact::undisturbed(prepared, visits)) by {
        assert forall|k: int| 0 <= k < visits.len() implies (
        #[trigger] visits[k]).before.held_backend().held() == exact::backend_before(
            prepared,
            visits,
            k,
        ).held() by {
            assert(visits[k].before.held_backend().host().model() == exact::backend_before(
                prepared,
                visits,
                k,
            ).host().model());
        }
    }
    assert forall|i: int| 0 <= i < visits.len() implies exact::suits_all(#[trigger] visits[i]) by {
        assert(failures_change_nothing(visits[i]));
    }
    assert forall|now: Timestamp, snapshots: Seq<SnapshotView>| #[trigger]
        exact::captured::<WorkloadBackend<CgroupFixture>>(
            start,
            plan.mutations,
            snapshots,
            now,
        ) implies all_planned(start, plan.mutations, snapshots) by {
        assert forall|i: int| 0 <= i < plan.mutations.len() implies one_planned(
            start,
            #[trigger] plan.mutations[i],
            snapshots[i],
        ) by {
            assert(cgroup_snapshot(start, plan.mutations[i], now) == Ok::<SnapshotView, ErrorView>(
                snapshots[i],
            ));
            reveal(cgroup_snapshot);
            reveal(one_planned);
        }
    }
    exact::lemma_life(before, plan, session_id, prepared, from, to, visits);
}

/// Once a session is restored, control groups and processes in memory are exactly as they
/// were before the session was prepared, whatever became of the session in between.
///
/// The session is visited in turn: applied, restored or recovered, each any number of
/// times, by one coordinator or by several one after another. Visits fail or stop half
/// way as they may, be it at the host, the store or the clock. The last one ends with
/// the session restored: an apply that was rolled back, a restore, or a recovery.
///
/// Nobody else changes the groups in the meantime. The store gives back no record but one
/// that may be durable by then. At the start each group is found by its own name and
/// holds the processes that say so, and the groups are in order. A new value has another
/// fingerprint than the old one. A change that fails leaves the host as it was: one that
/// is made, but reads back as something else, is not known to be there.
pub proof fn restored_sessions_leave_the_groups_as_they_were<S, L, G, C>(
    before: TransactionEngine<WorkloadBackend<CgroupFixture>, S, L, G, C>,
    plan: PlanDataView,
    session_id: SessionId,
    prepared: TransactionEngine<WorkloadBackend<CgroupFixture>, S, L, G, C>,
    visits: Seq<Visit<WorkloadBackend<CgroupFixture>, S, L, G, C>>,
) where
    S: SessionStateStore,
    L: ExclusiveSessionLock,
    G: SessionIdSource,
    C: Clock,

    requires
        exact::is_prepared(
            before,
            plan,
            session_id,
            prepared,
            before.history().len() as int,
            prepared.history().len() as int,
        ),
        exact::in_turn(
            exact::intent(prepared.history(), prepared.history().len() as int),
            visits,
            session_id,
        ),
        forall|k: int|
            0 <= k < visits.len() ==> (#[trigger] visits[k]).before.held_backend().host().model()
                == exact::backend_before(prepared, visits, k).host().model(),
        workload_model::well_formed(before.held_backend().host().model()),
        workload_model::in_order(before.held_backend().host().model().groups),
        forall|i: int|
            0 <= i < plan.mutations.len() ==> told_apart(
                before.held_backend().host().model(),
                #[trigger] plan.mutations[i],
            ),
        forall|i: int| 0 <= i < visits.len() ==> failures_change_nothing(#[trigger] visits[i]),
        visits.len() > 0,
        exact::ends_restored(visits.last(), session_id),
    ensures
        visits.last().after.held_backend().host().model() == before.held_backend().host().model(),
{
    lemma_groups_life(
        before,
        plan,
        session_id,
        prepared,
        before.history().len() as int,
        prepared.history().len() as int,
        visits,
    );
}

/// Once a session that was prepared through the helper is restored, control groups and
/// processes in memory are exactly as they were before, whatever became of the session in
/// between. The visits are those of the coordinator of this helper, or of others after it.
pub proof fn restored_helper_sessions_leave_the_groups_as_they_were<S, L, G, C>(
    before: PrivilegeService<WorkloadBackend<CgroupFixture>, S, L, G, C>,
    plan: PlanDataView,
    handle: SessionHandle,
    prepared: PrivilegeService<WorkloadBackend<CgroupFixture>, S, L, G, C>,
    visits: Seq<Visit<WorkloadBackend<CgroupFixture>, S, L, G, C>>,
) where
    S: SessionStateStore,
    L: ExclusiveSessionLock,
    G: SessionIdSource,
    C: Clock,

    requires
        before.wf(),
        prepared.wf(),
        prepared.goes_on_from(&before),
        privilege::prepared_for(
            before.observed(),
            prepared.observed(),
            handle.owner,
            Some(plan),
            handle.plan_id,
            handle.plan_digest,
            Ok(handle),
        ),
        exact::in_turn(
            exact::intent(prepared.observed().history, prepared.observed().history.len() - 1),
            visits,
            handle.session_id,
        ),
        forall|k: int|
            0 <= k < visits.len() ==> (#[trigger] visits[k]).before.held_backend().host().model()
                == exact::backend_before(prepared.coordinator(), visits, k).host().model(),
        workload_model::well_formed(before.coordinator().held_backend().host().model()),
        workload_model::in_order(before.coordinator().held_backend().host().model().groups),
        forall|i: int|
            0 <= i < plan.mutations.len() ==> told_apart(
                before.coordinator().held_backend().host().model(),
                #[trigger] plan.mutations[i],
            ),
        forall|i: int| 0 <= i < visits.len() ==> failures_change_nothing(#[trigger] visits[i]),
        visits.len() > 0,
        exact::ends_restored(visits.last(), handle.session_id),
    ensures
        visits.last().after.held_backend().host().model() == before.coordinator().held_backend().host().model(),
{
    let from = exact::helper_sessions_are_prepared(before, plan, handle, prepared);
    lemma_groups_life(
        before.coordinator(),
        plan,
        handle.session_id,
        prepared.coordinator(),
        from,
        prepared.observed().history.len() - 1,
        visits,
    );
}

/// Whether every change that failed during a visit left the host as it was.
pub open spec fn failures_change_nothing<S, L, G, C>(
    visit: Visit<WorkloadBackend<CgroupFixture>, S, L, G, C>,
) -> bool where
    S: SessionStateStore,
    L: ExclusiveSessionLock,
    G: SessionIdSource,
    C: Clock,
 {
    forall|k: int|
        visit.before.history().len() <= k < visit.after.history().len()
            && #[trigger] visit.after.history()[k] is Apply ==> unchanged_by_failure(
            visit.after.steps()[k].before.backend.host().model(),
            visit.after.history()[k]->Apply_mutation,
            visit.after.history()[k]->Apply_snapshot,
        )
}

} // verus!
