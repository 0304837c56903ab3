//! Choosing CPUs for a workload while keeping CPUs for housekeeping.

use vstd::prelude::*;

use crate::capability;
use crate::cpuset;
use crate::cpuset::{CpuAffinityMask, CpuSet};
use crate::error::{ErrorCode, Stage, SysboostError};
use crate::ids::{MutationId, StateFingerprint, TargetIdentity};
use crate::mutation::{EqualityKind, KindView, MutationKind, MutationView, PlannedMutation};
use crate::text;
use crate::topology;
use crate::topology::{
    CpuCapacityMode, CpuPerformanceClass, CpuTopology, CpuTopologyCpu, CpuView, TopologyRevision,
    TopologyView,
};
use crate::value::{CgroupId, CgroupView, TypedValue, ValueView};

verus! {

/// What makes CPUs one physical core: package and core where both are known,
/// else the set of thread siblings.
#[verifier::ext_equal]
pub enum CoreKeyView {
    PackageCore(u32, u32),
    SiblingSet(Seq<u32>),
}

pub open spec fn core_key(cpu: CpuView) -> CoreKeyView {
    match (cpu.package_id, cpu.core_id) {
        (Some(package), Some(core)) => CoreKeyView::PackageCore(package, core),
        _ => CoreKeyView::SiblingSet(cpu.thread_siblings),
    }
}

/// The online CPUs of one physical core.
#[verifier::ext_equal]
pub struct GroupView {
    pub key: CoreKeyView,
    pub cpus: Seq<u32>,
    pub performance_class: CpuPerformanceClass,
    pub numa_node: Option<u32>,
}

/// What two classes agree on.
pub open spec fn common_class(
    a: CpuPerformanceClass,
    b: CpuPerformanceClass,
) -> CpuPerformanceClass {
    if a == b {
        a
    } else {
        CpuPerformanceClass::Unknown
    }
}

/// What two nodes agree on.
pub open spec fn common_node(a: Option<u32>, b: Option<u32>) -> Option<u32> {
    if a == b {
        a
    } else {
        None
    }
}

/// The group with the given key, or the number of groups.
pub open spec fn group_index(groups: Seq<GroupView>, key: CoreKeyView) -> int
    decreases groups.len(),
{
    if groups.len() == 0 {
        0
    } else {
        let before = group_index(groups.drop_last(), key);
        if before < groups.len() - 1 {
            before
        } else if groups.last().key == key {
            groups.len() - 1
        } else {
            groups.len() as int
        }
    }
}

/// Groups with one more CPU in the group of its core.
pub open spec fn add_to_groups(groups: Seq<GroupView>, cpu: CpuView) -> Seq<GroupView> {
    let k = group_index(groups, core_key(cpu));
    if k < groups.len() {
        groups.update(
            k,
            GroupView {
                key: groups[k].key,
                cpus: groups[k].cpus.push(cpu.id),
                performance_class: common_class(
                    groups[k].performance_class,
                    cpu.performance_class,
                ),
                numa_node: common_node(groups[k].numa_node, cpu.numa_node),
            },
        )
    } else {
        groups.push(
            GroupView {
                key: core_key(cpu),
                cpus: seq![cpu.id],
                performance_class: cpu.performance_class,
                numa_node: cpu.numa_node,
            },
        )
    }
}

/// The physical cores of the online CPUs, in the order of their first CPUs. A
/// core has the class and the node that all its CPUs have, if they agree.
pub open spec fn groups_spec(cpus: Seq<CpuView>, online: Seq<u32>) -> Seq<GroupView>
    decreases cpus.len(),
{
    if cpus.len() == 0 {
        Seq::empty()
    } else {
        let before = groups_spec(cpus.drop_last(), online);
        if online.contains(cpus.last().id) {
            add_to_groups(before, cpus.last())
        } else {
            before
        }
    }
}

/// A physical core as a planning unit. Thread siblings stay together, so that
/// no core is split between the workload and housekeeping.
#[derive(Debug, PartialEq, Eq)]
pub struct CpuCoreGroup {
    /// The online CPUs of the core.
    pub cpus: CpuSet,
    /// The class of all its CPUs, if they agree.
    pub performance_class: CpuPerformanceClass,
    /// The NUMA node of all its CPUs, if they agree.
    pub numa_node: Option<u32>,
}

/// Whether a core group is what the model says.
pub open spec fn group_is(group: CpuCoreGroup, view: GroupView) -> bool {
    &&& group.cpus@ == view.cpus
    &&& group.performance_class == view.performance_class
    &&& group.numa_node == view.numa_node
}

pub open spec fn groups_are(groups: Seq<CpuCoreGroup>, views: Seq<GroupView>) -> bool {
    &&& groups.len() == views.len()
    &&& forall|i: int| 0 <= i < groups.len() ==> group_is(#[trigger] groups[i], views[i])
}

struct GroupBuild {
    /// A CPU of the group; all have the same core.
    first: usize,
    cpus: Vec<u32>,
    performance_class: CpuPerformanceClass,
    numa_node: Option<u32>,
}

spec fn build_view(build: GroupBuild, cpus: Seq<CpuView>) -> GroupView {
    GroupView {
        key: core_key(cpus[build.first as int]),
        cpus: build.cpus@,
        performance_class: build.performance_class,
        numa_node: build.numa_node,
    }
}

spec fn builds_view(builds: Seq<GroupBuild>, cpus: Seq<CpuView>) -> Seq<GroupView> {
    builds.map_values(|build: GroupBuild| build_view(build, cpus))
}

fn same_core(a: &CpuTopologyCpu, b: &CpuTopologyCpu) -> (r: bool)
    ensures
        r == (core_key(a@) == core_key(b@)),
{
    match (a.package_id, a.core_id, b.package_id, b.core_id) {
        (Some(p), Some(c), Some(q), Some(d)) => p == q && c == d,
        (Some(_), Some(_), _, _) => false,
        (_, _, Some(_), Some(_)) => false,
        _ => a.thread_siblings.same(&b.thread_siblings),
    }
}

proof fn lemma_group_index(groups: Seq<GroupView>, key: CoreKeyView, k: int)
    requires
        0 <= k <= groups.len(),
        k < groups.len() ==> groups[k].key == key,
        forall|j: int| 0 <= j < k ==> (#[trigger] groups[j]).key != key,
    ensures
        group_index(groups, key) == k,
    decreases groups.len(),
{
    if groups.len() > 0 {
        let before = groups.drop_last();
        if k < before.len() {
            lemma_group_index(before, key, k);
        } else {
            lemma_group_index(before, key, before.len() as int);
        }
    }
}

impl CpuTopology {
    /// The physical cores of the online CPUs; none where those are unknown.
    pub fn core_groups(&self) -> (r: Vec<CpuCoreGroup>)
        ensures
            match self@.online {
                Some(online) => groups_are(r@, groups_spec(self@.cpus, online)),
                None => r@.len() == 0,
            },
    {
        let online = match self.online() {
            Some(online) => online,
            None => return Vec::new(),
        };
        let cpus = self.cpus();
        let ghost all = self@.cpus;
        let mut builds: Vec<GroupBuild> = Vec::new();
        assert(builds_view(builds@, all) =~= groups_spec(all.take(0), online@));
        for i in 0..cpus.len()
            invariant
                all == topology::cpus_view(cpus@),
                builds_view(builds@, all) == groups_spec(all.take(i as int), online@),
                forall|j: int| 0 <= j < builds@.len() ==> (#[trigger] builds@[j]).first < i,
        {
            assert(all.take(i + 1).drop_last() =~= all.take(i as int));
            let cpu = &cpus[i];
            assert(all[i as int] == cpu@);
            let ghost before = builds_view(builds@, all);
            if online.contains(cpu.id) {
                let mut k: usize = 0;
                while k < builds.len() && !same_core(&cpus[builds[k].first], cpu)
                    invariant
                        k <= builds.len(),
                        i < cpus.len(),
                        cpu@ == all[i as int],
                        all == topology::cpus_view(cpus@),
                        before == builds_view(builds@, all),
                        forall|j: int| 0 <= j < builds@.len() ==> (#[trigger] builds@[j]).first < i,
                        forall|j: int| 0 <= j < k ==> (#[trigger] before[j]).key != core_key(cpu@),
                    ensures
                        k <= builds.len(),
                        k < builds.len() ==> before[k as int].key == core_key(cpu@),
                        forall|j: int| 0 <= j < k ==> (#[trigger] before[j]).key != core_key(cpu@),
                    decreases builds.len() - k,
                {
                    assert(before[k as int].key == core_key(all[builds@[k as int].first as int]));
                    k = k + 1;
                }
                proof {
                    lemma_group_index(before, core_key(cpu@), k as int);
                }
                if k < builds.len() {
                    let class = if builds[k].performance_class == cpu.performance_class {
                        cpu.performance_class
                    } else {
                        CpuPerformanceClass::Unknown
                    };
                    let node: Option<u32> = match (builds[k].numa_node, cpu.numa_node) {
                        (Some(a), Some(b)) => if a == b {
                            Some(a)
                        } else {
                            None
                        },
                        _ => None,
                    };
                    builds[k].cpus.push(cpu.id);
                    builds[k].performance_class = class;
                    builds[k].numa_node = node;
                    assert(builds_view(builds@, all) =~= add_to_groups(before, cpu@));
                } else {
                    let mut ids: Vec<u32> = Vec::new();
                    ids.push(cpu.id);
                    assert(ids@ =~= seq![cpu.id]);
                    builds.push(
                        GroupBuild {
                            first: i,
                            cpus: ids,
                            performance_class: cpu.performance_class,
                            numa_node: cpu.numa_node,
                        },
                    );
                    assert(builds_view(builds@, all) =~= add_to_groups(before, cpu@));
                }
            }
        }
        assert(all.take(all.len() as int) =~= all);
        proof {
            lemma_groups(all, online@);
        }
        let ghost views = builds_view(builds@, all);
        let mut groups: Vec<CpuCoreGroup> = Vec::new();
        for i in 0..builds.len()
            invariant
                views == builds_view(builds@, all),
                groups_ok(views),
                groups_are(groups@, views.take(i as int)),
        {
            let ids = builds[i].cpus.clone();
            assert(ids@ =~= views[i as int].cpus);
            proof {
                cpuset::canonical_of_ascending(ids@);
            }
            match CpuSet::new(ids) {
                Ok(cpus) => {
                    groups.push(
                        CpuCoreGroup {
                            cpus,
                            performance_class: builds[i].performance_class,
                            numa_node: builds[i].numa_node,
                        },
                    );
                },
                Err(_) => {
                    assert(false);
                },
            }
        }
        assert(views.take(views.len() as int) =~= views);
        groups
    }
}

/// Each core has CPUs, in ascending order.
spec fn groups_ok(groups: Seq<GroupView>) -> bool {
    forall|i: int|
        0 <= i < groups.len() ==> (#[trigger] groups[i]).cpus.len() > 0 && cpuset::ascending(
            groups[i].cpus,
        )
}

spec fn ids_ascend(cpus: Seq<CpuView>) -> bool {
    forall|i: int, j: int|
        0 <= i < j < cpus.len() ==> (#[trigger] cpus[i]).id < (#[trigger] cpus[j]).id
}

proof fn lemma_index_bounds(groups: Seq<GroupView>, key: CoreKeyView)
    ensures
        0 <= group_index(groups, key) <= groups.len(),
        group_index(groups, key) < groups.len() ==> groups[group_index(groups, key)].key == key,
        forall|j: int| 0 <= j < group_index(groups, key) ==> (#[trigger] groups[j]).key != key,
    decreases groups.len(),
{
    if groups.len() > 0 {
        let before = groups.drop_last();
        lemma_index_bounds(before, key);
        assert forall|j: int| 0 <= j < group_index(groups, key) implies (#[trigger] groups[j]).key
            != key by {
            if j < before.len() {
                assert(before[j].key == groups[j].key);
            }
        }
    }
}

/// The cores partition the online CPUs among the given ones, each in ascending
/// order.
proof fn lemma_groups(cpus: Seq<CpuView>, online: Seq<u32>)
    requires
        ids_ascend(cpus),
    ensures
        groups_ok(groups_spec(cpus, online)),
        forall|i: int, x: u32|
            0 <= i < groups_spec(cpus, online).len() && #[trigger] groups_spec(
                cpus,
                online,
            )[i].cpus.contains(x) ==> online.contains(x) && topology::has_cpu(cpus, x),
        forall|i: int, j: int, x: u32|
            0 <= i < j < groups_spec(cpus, online).len() ==> !(#[trigger] groups_spec(
                cpus,
                online,
            )[i].cpus.contains(x) && #[trigger] groups_spec(cpus, online)[j].cpus.contains(x)),
        forall|x: u32|
            online.contains(x) && #[trigger] topology::has_cpu(cpus, x) ==> in_groups(
                groups_spec(cpus, online),
                x,
            ),
    decreases cpus.len(),
{
    let groups = groups_spec(cpus, online);
    if cpus.len() > 0 {
        let rest = cpus.drop_last();
        let cpu = cpus.last();
        let before = groups_spec(rest, online);
        lemma_groups(rest, online);
        lemma_index_bounds(before, core_key(cpu));
        assert forall|x: u32| topology::has_cpu(rest, x) implies x < cpu.id && topology::has_cpu(
            cpus,
            x,
        ) by {
            let i = choose|i: int| 0 <= i < rest.len() && (#[trigger] rest[i]).id == x;
            assert(cpus[i].id == x);
            assert(cpus[i].id < cpus[cpus.len() - 1].id);
        }
        assert(topology::has_cpu(cpus, cpu.id)) by {
            assert(cpus[cpus.len() - 1].id == cpu.id);
        }
        assert forall|x: u32| topology::has_cpu(cpus, x) implies x == cpu.id || topology::has_cpu(
            rest,
            x,
        ) by {
            let i = choose|i: int| 0 <= i < cpus.len() && (#[trigger] cpus[i]).id == x;
            if i < rest.len() {
                assert(rest[i].id == x);
            }
        }
        if online.contains(cpu.id) {
            let k = group_index(before, core_key(cpu));
            assert forall|i: int| 0 <= i < groups.len() && i != k implies #[trigger] groups[i]
                == before[i] by {}
            if k < before.len() {
                lemma_push_contains(before[k].cpus, cpu.id);
                assert(groups[k].cpus == before[k].cpus.push(cpu.id));
                assert forall|j: int| 0 <= j < before[k].cpus.len() implies before[k].cpus[j]
                    < cpu.id by {
                    assert(before[k].cpus.contains(before[k].cpus[j]));
                }
            } else {
                assert(groups[k].cpus =~= seq![cpu.id]);
                lemma_single_contains(cpu.id);
            }
            assert forall|i: int, x: u32|
                0 <= i < groups.len() && #[trigger] groups[i].cpus.contains(x) implies
                online.contains(x) && topology::has_cpu(cpus, x) by {
                if i != k {
                    assert(before[i].cpus.contains(x));
                } else if x != cpu.id {
                    assert(before[k].cpus.contains(x));
                }
            }
            assert forall|i: int, j: int, x: u32| 0 <= i < j < groups.len() implies !(
            #[trigger] groups[i].cpus.contains(x) && #[trigger] groups[j].cpus.contains(x)) by {
                if i < before.len() && before[i].cpus.contains(x) {
                    assert(topology::has_cpu(rest, x));
                }
                if j < before.len() && before[j].cpus.contains(x) {
                    assert(topology::has_cpu(rest, x));
                }
            }
            assert forall|x: u32|
                online.contains(x) && #[trigger] topology::has_cpu(cpus, x) implies in_groups(
                groups,
                x,
            ) by {
                if x == cpu.id {
                    assert(groups[k].cpus.contains(x));
                } else {
                    assert(topology::has_cpu(rest, x));
                    let i = choose|i: int|
                        0 <= i < before.len() && (#[trigger] before[i]).cpus.contains(x);
                    assert(groups[i].cpus.contains(x));
                }
            }
        } else {
            assert forall|x: u32|
                online.contains(x) && #[trigger] topology::has_cpu(cpus, x) implies in_groups(
                groups,
                x,
            ) by {
                assert(topology::has_cpu(rest, x));
            }
        }
    }
}

proof fn lemma_push_contains(s: Seq<u32>, x: u32)
    ensures
        forall|y: u32| #[trigger] s.push(x).contains(y) <==> s.contains(y) || y == x,
{
    assert forall|y: u32| #[trigger] s.push(x).contains(y) <==> s.contains(y) || y == x by {
        if s.contains(y) {
            let i = choose|i: int| 0 <= i < s.len() && s[i] == y;
            assert(s.push(x)[i] == y);
        }
        if y == x {
            assert(s.push(x)[s.len() as int] == y);
        }
    }
}

proof fn lemma_single_contains(x: u32)
    ensures
        forall|y: u32| #[trigger] seq![x].contains(y) <==> y == x,
{
    assert(seq![x][0] == x);
}

/// Whether some core has the CPU.
pub open spec fn in_groups(groups: Seq<GroupView>, x: u32) -> bool {
    exists|i: int| 0 <= i < groups.len() && (#[trigger] groups[i]).cpus.contains(x)
}

/// Placement options. Preferring performance cores changes the order only
/// where capacities are proven to differ.
#[derive(Clone, Copy, Debug, PartialEq, Eq)]
pub struct CpuSelectionPolicy {
    /// Take the cores of the highest capacity first.
    pub prefer_performance_cores: bool,
    /// Wanted number of logical CPUs. It may be rounded up to keep a core
    /// whole, and is capped to keep housekeeping CPUs.
    pub workload_cpu_count: Option<usize>,
    /// NUMA node to take cores of first.
    pub preferred_numa_node: Option<u32>,
}

/// Why a placement differs from what was asked for.
#[derive(Clone, Copy, Debug, PartialEq, Eq, Structural)]
pub enum CpuPlacementFallback {
    /// All capacities are the same.
    HomogeneousTopology,
    /// Some online CPU has no known capacity.
    CapacityMetadataUnavailable,
    /// No core is on the preferred NUMA node.
    NumaPreferenceUnavailable,
    /// Fewer CPUs than wanted, so that housekeeping CPUs remain.
    ReducedToPreserveHousekeeping,
}

/// What is chosen for a workload, and from what evidence.
#[verifier::ext_equal]
pub struct ChoiceView {
    pub workload: Seq<u32>,
    pub housekeeping: Seq<u32>,
    pub capacity_mode: CpuCapacityMode,
    pub fallbacks: Seq<CpuPlacementFallback>,
    pub revision: Seq<u8>,
    pub online: Seq<u32>,
    pub target_identity: Option<TargetIdentity>,
}

/// A placement decision: what is chosen, and the masks for it.
#[verifier::ext_equal]
pub struct PlanView {
    pub choice: ChoiceView,
    pub workload_mask: Seq<u8>,
    pub housekeeping_mask: Seq<u8>,
}

/// A reversible placement decision.
#[derive(Debug, PartialEq, Eq)]
pub struct CpuIsolationPlan {
    /// CPUs of the workload.
    pub workload_cpus: CpuSet,
    /// CPUs kept for everything else.
    pub housekeeping_cpus: CpuSet,
    /// Affinity mask of the workload.
    pub workload_mask: CpuAffinityMask,
    /// Affinity mask of housekeeping.
    pub housekeeping_mask: CpuAffinityMask,
    /// Capacity evidence that the decision used.
    pub capacity_mode: CpuCapacityMode,
    /// Fallbacks in the order of the decision.
    pub fallbacks: Vec<CpuPlacementFallback>,
    /// Revision of the evidence.
    pub topology_revision: TopologyRevision,
    /// Online CPUs at the time of the decision.
    pub online_at_plan: CpuSet,
    /// Target that the decision is bound to.
    pub target_identity: Option<TargetIdentity>,
}

impl View for CpuIsolationPlan {
    type V = PlanView;

    open spec fn view(&self) -> PlanView {
        PlanView {
            choice: ChoiceView {
                workload: self.workload_cpus@,
                housekeeping: self.housekeeping_cpus@,
                capacity_mode: self.capacity_mode,
                fallbacks: self.fallbacks@,
                revision: self.topology_revision.bytes@,
                online: self.online_at_plan@,
                target_identity: self.target_identity,
            },
            workload_mask: self.workload_mask.bytes@,
            housekeeping_mask: self.housekeeping_mask.bytes@,
        }
    }
}

/// Where a core stands in the order of choice: the preferred node first, then,
/// where that counts, the higher capacity.
pub open spec fn order_key(
    group: GroupView,
    policy: CpuSelectionPolicy,
    mode: CpuCapacityMode,
) -> nat {
    let node = if policy.preferred_numa_node is Some && group.numa_node
        == policy.preferred_numa_node {
        0nat
    } else {
        3nat
    };
    let rank = if policy.prefer_performance_cores && mode == CpuCapacityMode::HeterogeneousProven {
        topology::rank_spec(group.performance_class) as nat
    } else {
        0nat
    };
    node + rank
}

/// The cores with one place in the order of choice.
pub open spec fn bucket(
    groups: Seq<GroupView>,
    policy: CpuSelectionPolicy,
    mode: CpuCapacityMode,
    key: nat,
) -> Seq<GroupView>
    decreases groups.len(),
{
    if groups.len() == 0 {
        Seq::empty()
    } else {
        let before = bucket(groups.drop_last(), policy, mode, key);
        if order_key(groups.last(), policy, mode) == key {
            before.push(groups.last())
        } else {
            before
        }
    }
}

/// The cores in the order of choice, as far as the first `keys` places; cores
/// of the same place stand in the order of their CPUs.
pub open spec fn ordered(
    groups: Seq<GroupView>,
    policy: CpuSelectionPolicy,
    mode: CpuCapacityMode,
    keys: nat,
) -> Seq<GroupView>
    decreases keys,
{
    if keys == 0 {
        Seq::empty()
    } else {
        ordered(groups, policy, mode, (keys - 1) as nat) + bucket(
            groups,
            policy,
            mode,
            (keys - 1) as nat,
        )
    }
}

/// The cores in the order of choice.
pub open spec fn candidates_spec(
    groups: Seq<GroupView>,
    policy: CpuSelectionPolicy,
    mode: CpuCapacityMode,
) -> Seq<GroupView> {
    ordered(groups, policy, mode, 6)
}

/// The number of logical CPUs of cores.
pub open spec fn total_cpus(groups: Seq<GroupView>) -> nat
    decreases groups.len(),
{
    if groups.len() == 0 {
        0
    } else {
        total_cpus(groups.drop_last()) + groups.last().cpus.len()
    }
}

/// All CPUs of cores.
pub open spec fn all_cpus(groups: Seq<GroupView>) -> Seq<u32>
    decreases groups.len(),
{
    if groups.len() == 0 {
        Seq::empty()
    } else {
        all_cpus(groups.drop_last()) + groups.last().cpus
    }
}

/// How many cores are taken when `taken` of them already are: until the wanted
/// CPUs are there or the most cores that may be taken are.
pub open spec fn taken_spec(
    candidates: Seq<GroupView>,
    most: nat,
    wanted: nat,
    taken: nat,
) -> nat
    decreases candidates.len() - taken,
{
    if taken >= candidates.len() || taken >= most || (taken > 0 && total_cpus(
        candidates.take(taken as int),
    ) >= wanted) {
        taken
    } else {
        taken_spec(candidates, most, wanted, taken + 1)
    }
}

/// The CPUs of a list that another does not name.
pub open spec fn without(list: Seq<u32>, drop: Seq<u32>) -> Seq<u32>
    decreases list.len(),
{
    if list.len() == 0 {
        Seq::empty()
    } else {
        let before = without(list.drop_last(), drop);
        if drop.contains(list.last()) {
            before
        } else {
            before.push(list.last())
        }
    }
}

pub open spec fn has_node(groups: Seq<GroupView>, node: u32) -> bool {
    exists|i: int| 0 <= i < groups.len() && (#[trigger] groups[i]).numa_node == Some(node)
}

/// The fallbacks of a decision, in order.
pub open spec fn fallbacks_spec(
    groups: Seq<GroupView>,
    candidates: Seq<GroupView>,
    online: Seq<u32>,
    policy: CpuSelectionPolicy,
    mode: CpuCapacityMode,
) -> Seq<CpuPlacementFallback> {
    let capacity = if policy.prefer_performance_cores {
        match mode {
            CpuCapacityMode::Homogeneous => seq![CpuPlacementFallback::HomogeneousTopology],
            CpuCapacityMode::Unknown => seq![CpuPlacementFallback::CapacityMetadataUnavailable],
            CpuCapacityMode::HeterogeneousProven => Seq::empty(),
        }
    } else {
        Seq::empty()
    };
    let numa = if policy.preferred_numa_node is Some && !has_node(
        groups,
        policy.preferred_numa_node->0,
    ) {
        seq![CpuPlacementFallback::NumaPreferenceUnavailable]
    } else {
        Seq::empty()
    };
    let reduced = match policy.workload_cpu_count {
        Some(wanted) => if wanted > online.len() - 1 || wanted > total_cpus(
            candidates.take((groups.len() / 2) as int),
        ) {
            seq![CpuPlacementFallback::ReducedToPreserveHousekeeping]
        } else {
            Seq::empty()
        },
        None => Seq::empty(),
    };
    capacity + numa + reduced
}

/// The CPUs that the workload gets: at most half of the cores, rounded down, in
/// the order of choice.
pub open spec fn workload_spec(
    groups: Seq<GroupView>,
    policy: CpuSelectionPolicy,
    mode: CpuCapacityMode,
) -> Seq<u32> {
    let candidates = candidates_spec(groups, policy, mode);
    let wanted = match policy.workload_cpu_count {
        Some(count) => count as nat,
        None => usize::MAX as nat,
    };
    let taken = taken_spec(candidates, groups.len() / 2, wanted, 0);
    cpuset::canonical(all_cpus(candidates.take(taken as int)))
}

/// The placement for a topology and a policy.
pub open spec fn select_spec(
    t: TopologyView,
    policy: CpuSelectionPolicy,
    target_identity: Option<TargetIdentity>,
) -> Result<ChoiceView, crate::error::ErrorView> {
    match t.online {
        None => Err(
            crate::error::staged(
                ErrorCode::CapabilityError,
                "current online CPU set is unavailable; soft isolation is report-only"@,
                Stage::Plan,
            ),
        ),
        Some(online) => {
            let groups = groups_spec(t.cpus, online);
            let candidates = candidates_spec(groups, policy, t.capacity_mode);
            let workload = workload_spec(groups, policy, t.capacity_mode);
            let housekeeping = without(online, workload);
            if groups.len() < 2 {
                Err(
                    crate::error::staged(
                        ErrorCode::PlanningError,
                        "at least two online physical-core groups are required to preserve housekeeping"@,
                        Stage::Plan,
                    ),
                )
            } else if policy.workload_cpu_count == Some(0usize) {
                Err(
                    crate::error::staged(
                        ErrorCode::InvalidInput,
                        "requested workload CPU count must be positive"@,
                        Stage::Plan,
                    ),
                )
            } else if !cpuset::mask_fits(workload) || !cpuset::mask_fits(housekeeping) {
                Err(cpuset::mask_error())
            } else {
                Ok(
                    ChoiceView {
                        workload,
                        housekeeping,
                        capacity_mode: t.capacity_mode,
                        fallbacks: fallbacks_spec(
                            groups,
                            candidates,
                            online,
                            policy,
                            t.capacity_mode,
                        ),
                        revision: t.revision,
                        online,
                        target_identity,
                    },
                )
            }
        },
    }
}

proof fn lemma_bucket_member(
    groups: Seq<GroupView>,
    policy: CpuSelectionPolicy,
    mode: CpuCapacityMode,
    key: nat,
)
    ensures
        forall|k: int|
            0 <= k < bucket(groups, policy, mode, key).len() ==> groups.contains(
                #[trigger] bucket(groups, policy, mode, key)[k],
            ),
        bucket(groups, policy, mode, key).len() <= groups.len(),
    decreases groups.len(),
{
    if groups.len() > 0 {
        let rest = groups.drop_last();
        lemma_bucket_member(rest, policy, mode, key);
        let b = bucket(groups, policy, mode, key);
        let before = bucket(rest, policy, mode, key);
        assert forall|k: int| 0 <= k < b.len() implies groups.contains(#[trigger] b[k]) by {
            if k < before.len() {
                assert(rest.contains(before[k]));
                let i = choose|i: int| 0 <= i < rest.len() && rest[i] == before[k];
                assert(groups[i] == b[k]);
            } else {
                assert(groups[groups.len() - 1] == b[k]);
            }
        }
    }
}

/// How many of the cores have a place below `keys`.
spec fn placed(
    groups: Seq<GroupView>,
    policy: CpuSelectionPolicy,
    mode: CpuCapacityMode,
    keys: nat,
) -> nat
    decreases groups.len(),
{
    if groups.len() == 0 {
        0
    } else {
        placed(groups.drop_last(), policy, mode, keys) + if order_key(groups.last(), policy, mode)
            < keys {
            1nat
        } else {
            0nat
        }
    }
}

proof fn lemma_placed_step(
    groups: Seq<GroupView>,
    policy: CpuSelectionPolicy,
    mode: CpuCapacityMode,
    keys: nat,
)
    ensures
        placed(groups, policy, mode, keys + 1) == placed(groups, policy, mode, keys) + bucket(
            groups,
            policy,
            mode,
            keys,
        ).len(),
    decreases groups.len(),
{
    if groups.len() > 0 {
        lemma_placed_step(groups.drop_last(), policy, mode, keys);
    }
}

proof fn lemma_placed_all(
    groups: Seq<GroupView>,
    policy: CpuSelectionPolicy,
    mode: CpuCapacityMode,
)
    ensures
        placed(groups, policy, mode, 6) == groups.len(),
        placed(groups, policy, mode, 0) == 0,
    decreases groups.len(),
{
    if groups.len() > 0 {
        lemma_placed_all(groups.drop_last(), policy, mode);
    }
}

proof fn lemma_ordered_len(
    groups: Seq<GroupView>,
    policy: CpuSelectionPolicy,
    mode: CpuCapacityMode,
    keys: nat,
)
    ensures
        ordered(groups, policy, mode, keys).len() == placed(groups, policy, mode, keys),
        forall|k: int|
            0 <= k < ordered(groups, policy, mode, keys).len() ==> groups.contains(
                #[trigger] ordered(groups, policy, mode, keys)[k],
            ),
    decreases keys,
{
    if keys > 0 {
        let before = (keys - 1) as nat;
        lemma_ordered_len(groups, policy, mode, before);
        lemma_placed_step(groups, policy, mode, before);
        lemma_bucket_member(groups, policy, mode, before);
        let a = ordered(groups, policy, mode, before);
        let b = bucket(groups, policy, mode, before);
        let whole = ordered(groups, policy, mode, keys);
        assert forall|k: int| 0 <= k < whole.len() implies groups.contains(#[trigger] whole[k]) by {
            if k < a.len() {
                assert(whole[k] == a[k]);
            } else {
                assert(whole[k] == b[k - a.len()]);
            }
        }
    } else {
        lemma_placed_all(groups, policy, mode);
    }
}

/// The order of choice has every core, and nothing else.
proof fn lemma_candidates(groups: Seq<GroupView>, policy: CpuSelectionPolicy, mode: CpuCapacityMode)
    ensures
        candidates_spec(groups, policy, mode).len() == groups.len(),
        forall|k: int|
            0 <= k < groups.len() ==> groups.contains(
                #[trigger] candidates_spec(groups, policy, mode)[k],
            ),
{
    lemma_ordered_len(groups, policy, mode, 6);
    lemma_placed_all(groups, policy, mode);
}

proof fn lemma_taken_bounds(candidates: Seq<GroupView>, most: nat, wanted: nat, taken: nat)
    requires
        taken <= candidates.len(),
        taken <= most,
    ensures
        taken <= taken_spec(candidates, most, wanted, taken) <= candidates.len(),
        taken_spec(candidates, most, wanted, taken) <= most,
        taken == 0 && candidates.len() > 0 && most > 0 ==> taken_spec(
            candidates,
            most,
            wanted,
            taken,
        ) > 0,
    decreases candidates.len() - taken,
{
    if !(taken >= candidates.len() || taken >= most || (taken > 0 && total_cpus(
        candidates.take(taken as int),
    ) >= wanted)) {
        lemma_taken_bounds(candidates, most, wanted, taken + 1);
    }
}

proof fn lemma_all_cpus(groups: Seq<GroupView>)
    ensures
        forall|x: u32| #[trigger] all_cpus(groups).contains(x) <==> in_groups(groups, x),
        groups.len() > 0 && groups[0].cpus.len() > 0 ==> all_cpus(groups).len() > 0,
    decreases groups.len(),
{
    if groups.len() > 0 {
        let rest = groups.drop_last();
        lemma_all_cpus(rest);
        let a = all_cpus(rest);
        let b = groups.last().cpus;
        let whole = all_cpus(groups);
        assert(whole =~= a + b);
        if groups.len() > 1 {
            assert(rest[0] == groups[0]);
        }
        assert forall|x: u32| #[trigger] whole.contains(x) <==> in_groups(groups, x) by {
            if whole.contains(x) {
                let i = choose|i: int| 0 <= i < whole.len() && whole[i] == x;
                if i < a.len() {
                    assert(a[i] == x);
                    assert(a.contains(x));
                    let k = choose|k: int|
                        0 <= k < rest.len() && (#[trigger] rest[k]).cpus.contains(x);
                    assert(groups[k].cpus.contains(x));
                } else {
                    assert(b[i - a.len()] == x);
                    assert(groups[groups.len() - 1].cpus.contains(x));
                }
            }
            if in_groups(groups, x) {
                let k = choose|k: int|
                    0 <= k < groups.len() && (#[trigger] groups[k]).cpus.contains(x);
                if k < rest.len() {
                    assert(rest[k].cpus.contains(x));
                    assert(a.contains(x));
                    let i = choose|i: int| 0 <= i < a.len() && a[i] == x;
                    assert(whole[i] == x);
                } else {
                    let i = choose|i: int| 0 <= i < b.len() && b[i] == x;
                    assert(whole[a.len() + i] == x);
                }
            }
        }
    } else {
        assert forall|x: u32| #[trigger] all_cpus(groups).contains(x) <==> in_groups(
            groups,
            x,
        ) by {}
    }
}

proof fn lemma_without(list: Seq<u32>, drop: Seq<u32>)
    requires
        cpuset::ascending(list),
    ensures
        cpuset::ascending(without(list, drop)),
        forall|x: u32| #[trigger]
            without(list, drop).contains(x) <==> list.contains(x) && !drop.contains(x),
    decreases list.len(),
{
    let whole = without(list, drop);
    if list.len() > 0 {
        let rest = list.drop_last();
        let before = without(rest, drop);
        lemma_without(rest, drop);
        let last = list.last();
        assert(list =~= rest.push(last));
        lemma_push_contains(rest, last);
        lemma_push_contains(before, last);
        assert forall|i: int| 0 <= i < before.len() implies before[i] < last by {
            assert(before.contains(before[i]));
            assert(rest.contains(before[i]));
            let k = choose|k: int| 0 <= k < rest.len() && rest[k] == before[i];
            assert(list[k] < list[list.len() - 1]);
        }
    }
}

/// No CPU is in two of the cores.
pub open spec fn disjoint_groups(groups: Seq<GroupView>) -> bool {
    forall|i: int, j: int, x: u32|
        0 <= i < j < groups.len() ==> !(#[trigger] groups[i].cpus.contains(x)
            && #[trigger] groups[j].cpus.contains(x))
}

proof fn lemma_bucket_disjoint(
    groups: Seq<GroupView>,
    policy: CpuSelectionPolicy,
    mode: CpuCapacityMode,
    key: nat,
)
    requires
        disjoint_groups(groups),
    ensures
        disjoint_groups(bucket(groups, policy, mode, key)),
        forall|k: int|
            0 <= k < bucket(groups, policy, mode, key).len() ==> order_key(
                #[trigger] bucket(groups, policy, mode, key)[k],
                policy,
                mode,
            ) == key,
    decreases groups.len(),
{
    if groups.len() > 0 {
        let rest = groups.drop_last();
        let before = bucket(rest, policy, mode, key);
        assert(disjoint_groups(rest)) by {
            assert forall|i: int, j: int, x: u32| 0 <= i < j < rest.len() implies !(
            #[trigger] rest[i].cpus.contains(x) && #[trigger] rest[j].cpus.contains(x)) by {
                assert(groups[i].cpus.contains(x) == rest[i].cpus.contains(x));
                assert(groups[j].cpus.contains(x) == rest[j].cpus.contains(x));
            }
        }
        lemma_bucket_disjoint(rest, policy, mode, key);
        lemma_bucket_member(rest, policy, mode, key);
        let whole = bucket(groups, policy, mode, key);
        assert forall|i: int, j: int, x: u32| 0 <= i < j < whole.len() implies !(
        #[trigger] whole[i].cpus.contains(x) && #[trigger] whole[j].cpus.contains(x)) by {
            if j < before.len() {
                assert(before[i].cpus.contains(x) == whole[i].cpus.contains(x));
                assert(before[j].cpus.contains(x) == whole[j].cpus.contains(x));
            } else {
                assert(rest.contains(before[i]));
                let k = choose|k: int| 0 <= k < rest.len() && rest[k] == before[i];
                assert(groups[k].cpus.contains(x) == whole[i].cpus.contains(x));
                assert(groups[groups.len() - 1].cpus.contains(x) == whole[j].cpus.contains(x));
            }
        }
    }
}

proof fn lemma_ordered_disjoint(
    groups: Seq<GroupView>,
    policy: CpuSelectionPolicy,
    mode: CpuCapacityMode,
    keys: nat,
)
    requires
        disjoint_groups(groups),
    ensures
        disjoint_groups(ordered(groups, policy, mode, keys)),
        forall|k: int|
            0 <= k < ordered(groups, policy, mode, keys).len() ==> order_key(
                #[trigger] ordered(groups, policy, mode, keys)[k],
                policy,
                mode,
            ) < keys,
    decreases keys,
{
    if keys > 0 {
        let before = (keys - 1) as nat;
        lemma_ordered_disjoint(groups, policy, mode, before);
        lemma_bucket_disjoint(groups, policy, mode, before);
        lemma_ordered_len(groups, policy, mode, before);
        lemma_bucket_member(groups, policy, mode, before);
        let a = ordered(groups, policy, mode, before);
        let b = bucket(groups, policy, mode, before);
        let whole = ordered(groups, policy, mode, keys);
        assert forall|k: int| 0 <= k < whole.len() implies order_key(
            #[trigger] whole[k],
            policy,
            mode,
        ) < keys by {
            if k < a.len() {
                assert(whole[k] == a[k]);
            } else {
                assert(whole[k] == b[k - a.len()]);
            }
        }
        assert forall|i: int, j: int, x: u32| 0 <= i < j < whole.len() implies !(
        #[trigger] whole[i].cpus.contains(x) && #[trigger] whole[j].cpus.contains(x)) by {
            if j < a.len() {
                assert(a[i].cpus.contains(x) == whole[i].cpus.contains(x));
                assert(a[j].cpus.contains(x) == whole[j].cpus.contains(x));
            } else if i >= a.len() {
                assert(b[i - a.len()].cpus.contains(x) == whole[i].cpus.contains(x));
                assert(b[j - a.len()].cpus.contains(x) == whole[j].cpus.contains(x));
            } else {
                assert(groups.contains(a[i]));
                assert(groups.contains(b[j - a.len()]));
                let m = choose|m: int| 0 <= m < groups.len() && groups[m] == a[i];
                let n = choose|n: int| 0 <= n < groups.len() && groups[n] == b[j - a.len()];
                assert(order_key(a[i], policy, mode) < before);
                assert(order_key(b[j - a.len()], policy, mode) == before);
                assert(m != n);
                assert(groups[m].cpus.contains(x) == whole[i].cpus.contains(x));
                assert(groups[n].cpus.contains(x) == whole[j].cpus.contains(x));
            }
        }
    }
}

/// What a placement keeps, whatever the policy: the workload and housekeeping
/// share no CPU and together are the online CPUs, neither is empty, no core is
/// split between them, and the workload has at most half of the cores.
pub proof fn placement_is_safe(t: TopologyView, policy: CpuSelectionPolicy)
    requires
        topology::topology_wf(t),
        t.online is Some,
        groups_spec(t.cpus, t.online->0).len() >= 2,
    ensures
        ({
            let online = t.online->0;
            let groups = groups_spec(t.cpus, online);
            let workload = workload_spec(groups, policy, t.capacity_mode);
            let housekeeping = without(online, workload);
            &&& cpuset::ascending(workload)
            &&& cpuset::ascending(housekeeping)
            &&& workload.len() > 0
            &&& housekeeping.len() > 0
            &&& forall|x: u32| #[trigger]
                online.contains(x) <==> workload.contains(x) || housekeeping.contains(x)
            &&& forall|x: u32| !(#[trigger] workload.contains(x) && housekeeping.contains(x))
            &&& forall|k: int, x: u32, y: u32|
                0 <= k < groups.len() && #[trigger] groups[k].cpus.contains(x)
                    && #[trigger] groups[k].cpus.contains(y) ==> (workload.contains(x)
                    <==> workload.contains(y))
        }),
{
    let online = t.online->0;
    let groups = groups_spec(t.cpus, online);
    let mode = t.capacity_mode;
    let candidates = candidates_spec(groups, policy, mode);
    let wanted = match policy.workload_cpu_count {
        Some(count) => count as nat,
        None => usize::MAX as nat,
    };
    let taken = taken_spec(candidates, groups.len() / 2, wanted, 0);
    let chosen = candidates.take(taken as int);
    let workload = workload_spec(groups, policy, mode);
    let housekeeping = without(online, workload);
    lemma_groups(t.cpus, online);
    lemma_candidates(groups, policy, mode);
    lemma_ordered_disjoint(groups, policy, mode, 6);
    lemma_taken_bounds(candidates, groups.len() / 2, wanted, 0);
    lemma_all_cpus(chosen);
    cpuset::canonical_is_sorted_set(all_cpus(chosen));
    lemma_without(online, workload);
    assert(groups.contains(candidates[0]));
    assert(chosen[0] == candidates[0]);
    assert(workload.len() > 0);
    assert forall|x: u32| #[trigger] workload.contains(x) implies online.contains(x) by {
        assert(all_cpus(chosen).contains(x));
        let k = choose|k: int| 0 <= k < chosen.len() && (#[trigger] chosen[k]).cpus.contains(x);
        assert(groups.contains(candidates[k]));
        let m = choose|m: int| 0 <= m < groups.len() && groups[m] == candidates[k];
        assert(groups[m].cpus.contains(x));
    }
    assert(housekeeping.len() > 0) by {
        let spare = candidates[taken as int];
        assert(groups.contains(spare));
        let m = choose|m: int| 0 <= m < groups.len() && groups[m] == spare;
        let x = spare.cpus[0];
        assert(groups[m].cpus.contains(x));
        assert(online.contains(x));
        assert(!workload.contains(x)) by {
            if workload.contains(x) {
                assert(all_cpus(chosen).contains(x));
                let k = choose|k: int|
                    0 <= k < chosen.len() && (#[trigger] chosen[k]).cpus.contains(x);
                assert(candidates[k].cpus.contains(x));
                assert(candidates[taken as int].cpus.contains(x));
            }
        }
        assert(housekeeping.contains(x));
    }
    assert forall|k: int, x: u32, y: u32|
        0 <= k < groups.len() && #[trigger] groups[k].cpus.contains(x)
            && #[trigger] groups[k].cpus.contains(y) && workload.contains(x) implies
        workload.contains(y) by {
        assert(all_cpus(chosen).contains(x));
        let c = choose|c: int| 0 <= c < chosen.len() && (#[trigger] chosen[c]).cpus.contains(x);
        assert(groups.contains(candidates[c]));
        let m = choose|m: int| 0 <= m < groups.len() && groups[m] == candidates[c];
        assert(groups[m].cpus.contains(x));
        assert(m == k);
        assert(chosen[c].cpus.contains(y));
        assert(in_groups(chosen, y));
        assert(all_cpus(chosen).contains(y));
    }
}

proof fn lemma_bucket_has(
    groups: Seq<GroupView>,
    policy: CpuSelectionPolicy,
    mode: CpuCapacityMode,
    key: nat,
    i: int,
)
    requires
        0 <= i < groups.len(),
        order_key(groups[i], policy, mode) == key,
    ensures
        bucket(groups, policy, mode, key).contains(groups[i]),
    decreases groups.len(),
{
    let b = bucket(groups, policy, mode, key);
    if i == groups.len() - 1 {
        assert(b.last() == groups[i]);
        assert(b[b.len() - 1] == groups[i]);
    } else {
        let rest = groups.drop_last();
        lemma_bucket_has(rest, policy, mode, key, i);
        let before = bucket(rest, policy, mode, key);
        let k = choose|k: int| 0 <= k < before.len() && before[k] == rest[i];
        assert(b[k] == groups[i]);
    }
}

/// The order of choice goes up, and has every core below its end.
proof fn lemma_ordered_goes_up(
    groups: Seq<GroupView>,
    policy: CpuSelectionPolicy,
    mode: CpuCapacityMode,
    keys: nat,
)
    requires
        disjoint_groups(groups),
    ensures
        forall|c: int, d: int|
            0 <= c < d < ordered(groups, policy, mode, keys).len() ==> order_key(
                #[trigger] ordered(groups, policy, mode, keys)[c],
                policy,
                mode,
            ) <= order_key(#[trigger] ordered(groups, policy, mode, keys)[d], policy, mode),
        forall|i: int|
            0 <= i < groups.len() && order_key(groups[i], policy, mode) < keys ==> ordered(
                groups,
                policy,
                mode,
                keys,
            ).contains(#[trigger] groups[i]),
    decreases keys,
{
    if keys > 0 {
        let before = (keys - 1) as nat;
        lemma_ordered_goes_up(groups, policy, mode, before);
        lemma_ordered_disjoint(groups, policy, mode, before);
        lemma_bucket_disjoint(groups, policy, mode, before);
        let a = ordered(groups, policy, mode, before);
        let b = bucket(groups, policy, mode, before);
        let whole = ordered(groups, policy, mode, keys);
        assert forall|c: int, d: int| 0 <= c < d < whole.len() implies order_key(
            #[trigger] whole[c],
            policy,
            mode,
        ) <= order_key(#[trigger] whole[d], policy, mode) by {
            if d < a.len() {
                assert(whole[c] == a[c] && whole[d] == a[d]);
            } else {
                assert(whole[d] == b[d - a.len()]);
                if c < a.len() {
                    assert(whole[c] == a[c]);
                } else {
                    assert(whole[c] == b[c - a.len()]);
                }
            }
        }
        assert forall|i: int| 0 <= i < groups.len() && order_key(groups[i], policy, mode)
            < keys implies whole.contains(#[trigger] groups[i]) by {
            if order_key(groups[i], policy, mode) < before {
                let k = choose|k: int| 0 <= k < a.len() && a[k] == groups[i];
                assert(whole[k] == groups[i]);
            } else {
                lemma_bucket_has(groups, policy, mode, before, i);
                let k = choose|k: int| 0 <= k < b.len() && b[k] == groups[i];
                assert(whole[a.len() + k] == groups[i]);
            }
        }
    }
}

/// A core with a place before that of another is not left to housekeeping while the other
/// goes to the workload.
proof fn lemma_taken_first(
    t: TopologyView,
    policy: CpuSelectionPolicy,
    i: int,
    j: int,
    x: u32,
    y: u32,
)
    requires
        topology::topology_wf(t),
        t.online is Some,
        groups_spec(t.cpus, t.online->0).len() >= 2,
        0 <= i < groups_spec(t.cpus, t.online->0).len(),
        0 <= j < groups_spec(t.cpus, t.online->0).len(),
        groups_spec(t.cpus, t.online->0)[i].cpus.contains(x),
        groups_spec(t.cpus, t.online->0)[j].cpus.contains(y),
        order_key(groups_spec(t.cpus, t.online->0)[i], policy, t.capacity_mode) < order_key(
            groups_spec(t.cpus, t.online->0)[j],
            policy,
            t.capacity_mode,
        ),
        workload_spec(groups_spec(t.cpus, t.online->0), policy, t.capacity_mode).contains(y),
    ensures
        workload_spec(groups_spec(t.cpus, t.online->0), policy, t.capacity_mode).contains(x),
{
    let online = t.online->0;
    let groups = groups_spec(t.cpus, online);
    let mode = t.capacity_mode;
    let candidates = candidates_spec(groups, policy, mode);
    let wanted = match policy.workload_cpu_count {
        Some(count) => count as nat,
        None => usize::MAX as nat,
    };
    let taken = taken_spec(candidates, groups.len() / 2, wanted, 0);
    let chosen = candidates.take(taken as int);
    lemma_groups(t.cpus, online);
    lemma_candidates(groups, policy, mode);
    lemma_ordered_goes_up(groups, policy, mode, 6);
    lemma_taken_bounds(candidates, groups.len() / 2, wanted, 0);
    lemma_all_cpus(chosen);
    cpuset::canonical_is_sorted_set(all_cpus(chosen));
    assert(all_cpus(chosen).contains(y));
    let c = choose|c: int| 0 <= c < chosen.len() && (#[trigger] chosen[c]).cpus.contains(y);
    assert(groups.contains(candidates[c]));
    let m = choose|m: int| 0 <= m < groups.len() && groups[m] == candidates[c];
    assert(groups[m].cpus.contains(y));
    assert(m == j);
    assert(candidates.contains(groups[i]));
    let d = choose|d: int| 0 <= d < candidates.len() && candidates[d] == groups[i];
    assert(d < taken) by {
        if d >= taken {
            assert(order_key(candidates[c], policy, mode) <= order_key(candidates[d], policy, mode));
        }
    }
    assert(chosen[d] == groups[i]);
    assert(in_groups(chosen, x));
    assert(all_cpus(chosen).contains(x));
}

/// Where performance cores are preferred and the capacities are known to differ, the
/// workload gets no efficiency core before it has every performance core, and no core of
/// another class before those. A preferred NUMA node comes first: among the cores of that
/// node, and among all others, the same holds.
pub proof fn performance_cores_go_to_the_workload_first(
    t: TopologyView,
    policy: CpuSelectionPolicy,
    target_identity: Option<TargetIdentity>,
    i: int,
    j: int,
    x: u32,
    y: u32,
)
    requires
        topology::topology_wf(t),
        select_spec(t, policy, target_identity) is Ok,
        policy.prefer_performance_cores,
        t.capacity_mode == CpuCapacityMode::HeterogeneousProven,
        0 <= i < groups_spec(t.cpus, t.online->0).len(),
        0 <= j < groups_spec(t.cpus, t.online->0).len(),
        groups_spec(t.cpus, t.online->0)[i].cpus.contains(x),
        groups_spec(t.cpus, t.online->0)[j].cpus.contains(y),
    ensures
        ({
            let choice = select_spec(t, policy, target_identity)->Ok_0;
            let first = groups_spec(t.cpus, t.online->0)[i];
            let second = groups_spec(t.cpus, t.online->0)[j];
            let alike = policy.preferred_numa_node is None || (first.numa_node
                == policy.preferred_numa_node) == (second.numa_node == policy.preferred_numa_node);
            &&& alike && first.performance_class == CpuPerformanceClass::Performance
                && second.performance_class != CpuPerformanceClass::Performance
                && choice.workload.contains(y) ==> choice.workload.contains(x)
            &&& alike && first.performance_class != CpuPerformanceClass::Efficiency
                && second.performance_class == CpuPerformanceClass::Efficiency
                && choice.workload.contains(y) ==> choice.workload.contains(x)
            &&& alike && first.performance_class == CpuPerformanceClass::Performance
                && second.performance_class == CpuPerformanceClass::Efficiency ==> !(
            choice.workload.contains(y) && choice.housekeeping.contains(x))
        }),
{
    let choice = select_spec(t, policy, target_identity)->Ok_0;
    let first = groups_spec(t.cpus, t.online->0)[i];
    let second = groups_spec(t.cpus, t.online->0)[j];
    placement_is_safe(t, policy);
    if choice.workload.contains(y) && order_key(first, policy, t.capacity_mode) < order_key(
        second,
        policy,
        t.capacity_mode,
    ) {
        lemma_taken_first(t, policy, i, j, x, y);
        assert(choice.workload.contains(x));
    }
}

/// Cores of the preferred NUMA node go to the workload before all others.
pub proof fn the_preferred_node_goes_first(
    t: TopologyView,
    policy: CpuSelectionPolicy,
    target_identity: Option<TargetIdentity>,
    i: int,
    j: int,
    x: u32,
    y: u32,
)
    requires
        topology::topology_wf(t),
        select_spec(t, policy, target_identity) is Ok,
        policy.preferred_numa_node is Some,
        0 <= i < groups_spec(t.cpus, t.online->0).len(),
        0 <= j < groups_spec(t.cpus, t.online->0).len(),
        groups_spec(t.cpus, t.online->0)[i].cpus.contains(x),
        groups_spec(t.cpus, t.online->0)[j].cpus.contains(y),
        groups_spec(t.cpus, t.online->0)[i].numa_node == policy.preferred_numa_node,
        groups_spec(t.cpus, t.online->0)[j].numa_node != policy.preferred_numa_node,
        select_spec(t, policy, target_identity)->Ok_0.workload.contains(y),
    ensures
        select_spec(t, policy, target_identity)->Ok_0.workload.contains(x),
{
    lemma_taken_first(t, policy, i, j, x, y);
}

/// Two CPUs are of one core where the kernel names the same package and the same core for
/// both, or, where it names neither, the same thread siblings.
pub open spec fn of_one_core(a: CpuView, b: CpuView) -> bool {
    if a.package_id is Some && a.core_id is Some {
        a.package_id == b.package_id && a.core_id == b.core_id
    } else {
        !(b.package_id is Some && b.core_id is Some) && a.thread_siblings == b.thread_siblings
    }
}

/// A core is the online CPUs that are of one core, and has the class and the NUMA node that
/// all of them have.
pub proof fn cores_are_what_the_kernel_names(cpus: Seq<CpuView>, online: Seq<u32>, i: int, j: int)
    requires
        forall|a: int, b: int|
            0 <= a < b < cpus.len() ==> (#[trigger] cpus[a]).id < (#[trigger] cpus[b]).id,
        0 <= i < cpus.len(),
        0 <= j < cpus.len(),
        online.contains(cpus[i].id),
        online.contains(cpus[j].id),
    ensures
        forall|k: int|
            #![trigger groups_spec(cpus, online)[k]]
            0 <= k < groups_spec(cpus, online).len() && groups_spec(cpus, online)[k].cpus.contains(
                cpus[i].id,
            ) ==> {
                let core = groups_spec(cpus, online)[k];
                &&& core.cpus.contains(cpus[j].id) <==> of_one_core(cpus[i], cpus[j])
                &&& core.performance_class != CpuPerformanceClass::Unknown
                    ==> cpus[i].performance_class == core.performance_class
                &&& core.numa_node is Some ==> cpus[i].numa_node == core.numa_node
            },
        exists|k: int|
            0 <= k < groups_spec(cpus, online).len() && (#[trigger] groups_spec(
                cpus,
                online,
            )[k]).cpus.contains(cpus[i].id),
{
    lemma_groups(cpus, online);
    lemma_members(cpus, online);
    assert(topology::has_cpu(cpus, cpus[i].id));
    assert(topology::has_cpu(cpus, cpus[j].id));
    assert(in_groups(groups_spec(cpus, online), cpus[i].id));
    assert(in_groups(groups_spec(cpus, online), cpus[j].id));
    let groups = groups_spec(cpus, online);
    assert forall|k: int|
        #![trigger groups_spec(cpus, online)[k]]
        0 <= k < groups.len() && groups[k].cpus.contains(cpus[i].id) implies {
        let core = groups[k];
        &&& core.cpus.contains(cpus[j].id) <==> of_one_core(cpus[i], cpus[j])
        &&& core.performance_class != CpuPerformanceClass::Unknown ==> cpus[i].performance_class
            == core.performance_class
        &&& core.numa_node is Some ==> cpus[i].numa_node == core.numa_node
    } by {
        assert(member_fits(groups[k], cpus[i]));
        let m = choose|m: int|
            0 <= m < groups.len() && (#[trigger] groups[m]).cpus.contains(cpus[j].id);
        assert(member_fits(groups[m], cpus[j]));
        if groups[m].key == groups[k].key {
            assert(m == k);
        } else if groups[k].cpus.contains(cpus[j].id) {
            assert(member_fits(groups[k], cpus[j]));
        }
    }
}

/// Whether a CPU, if it is in a core, is of that core.
spec fn member_fits(group: GroupView, cpu: CpuView) -> bool {
    group.cpus.contains(cpu.id) ==> {
        &&& group.key == core_key(cpu)
        &&& group.performance_class != CpuPerformanceClass::Unknown ==> cpu.performance_class
            == group.performance_class
        &&& group.numa_node is Some ==> cpu.numa_node == group.numa_node
    }
}

proof fn lemma_members(cpus: Seq<CpuView>, online: Seq<u32>)
    requires
        ids_ascend(cpus),
    ensures
        forall|k: int, i: int|
            0 <= k < groups_spec(cpus, online).len() && 0 <= i < cpus.len()
                ==> #[trigger] member_fits(groups_spec(cpus, online)[k], cpus[i]),
        forall|k: int, m: int|
            0 <= k < m < groups_spec(cpus, online).len() ==> (#[trigger] groups_spec(
                cpus,
                online,
            )[k]).key != (#[trigger] groups_spec(cpus, online)[m]).key,
    decreases cpus.len(),
{
    if cpus.len() > 0 {
        let rest = cpus.drop_last();
        let cpu = cpus.last();
        let before = groups_spec(rest, online);
        let groups = groups_spec(cpus, online);
        lemma_members(rest, online);
        lemma_groups(rest, online);
        lemma_index_bounds(before, core_key(cpu));
        let at = group_index(before, core_key(cpu));
        assert forall|k: int, i: int| 0 <= k < groups.len() && 0 <= i < cpus.len() implies
            #[trigger] member_fits(groups[k], cpus[i]) by {
            if i < rest.len() {
                assert(rest[i] == cpus[i]);
                assert(cpus[i].id < cpus[cpus.len() - 1].id);
                if k < before.len() {
                    assert(member_fits(before[k], rest[i]));
                    lemma_push_contains(before[k].cpus, cpu.id);
                } else {
                    lemma_single_contains(cpu.id);
                }
            } else if k < before.len() {
                lemma_push_contains(before[k].cpus, cpu.id);
                if before[k].cpus.contains(cpu.id) {
                    assert(topology::has_cpu(rest, cpu.id));
                    let n = choose|n: int| 0 <= n < rest.len() && (#[trigger] rest[n]).id == cpu.id;
                    assert(cpus[n].id < cpus[cpus.len() - 1].id);
                }
            }
        }
    }
}

/// At least half of the cores are left to housekeeping.
pub proof fn housekeeping_keeps_half(t: TopologyView, policy: CpuSelectionPolicy)
    requires
        topology::topology_wf(t),
        t.online is Some,
    ensures
        ({
            let groups = groups_spec(t.cpus, t.online->0);
            let candidates = candidates_spec(groups, policy, t.capacity_mode);
            let wanted = match policy.workload_cpu_count {
                Some(count) => count as nat,
                None => usize::MAX as nat,
            };
            2 * taken_spec(candidates, groups.len() / 2, wanted, 0) <= groups.len()
        }),
{
    let groups = groups_spec(t.cpus, t.online->0);
    let candidates = candidates_spec(groups, policy, t.capacity_mode);
    let wanted = match policy.workload_cpu_count {
        Some(count) => count as nat,
        None => usize::MAX as nat,
    };
    lemma_taken_bounds(candidates, groups.len() / 2, wanted, 0);
}

fn place_of(
    group: &CpuCoreGroup,
    policy: CpuSelectionPolicy,
    mode: CpuCapacityMode,
    view: Ghost<GroupView>,
) -> (r: u8)
    requires
        group_is(*group, view@),
    ensures
        r == order_key(view@, policy, mode),
{
    let node: u8 = match (policy.preferred_numa_node, group.numa_node) {
        (Some(wanted), Some(found)) => if wanted == found {
            0
        } else {
            3
        },
        _ => 3,
    };
    let rank: u8 = if policy.prefer_performance_cores && mode
        == CpuCapacityMode::HeterogeneousProven {
        topology::capacity_rank(group.performance_class)
    } else {
        0
    };
    node + rank
}

spec fn picked(views: Seq<GroupView>, order: Seq<usize>) -> Seq<GroupView> {
    order.map_values(|i: usize| views[i as int])
}

fn order_groups(
    groups: &Vec<CpuCoreGroup>,
    policy: CpuSelectionPolicy,
    mode: CpuCapacityMode,
    views: Ghost<Seq<GroupView>>,
) -> (r: Vec<usize>)
    requires
        groups_are(groups@, views@),
    ensures
        picked(views@, r@) == candidates_spec(views@, policy, mode),
        forall|k: int| 0 <= k < r@.len() ==> #[trigger] r@[k] < groups@.len(),
{
    let mut order: Vec<usize> = Vec::new();
    let mut key: u8 = 0;
    assert(picked(views@, order@) =~= ordered(views@, policy, mode, 0));
    while key < 6
        invariant
            key <= 6,
            groups_are(groups@, views@),
            picked(views@, order@) == ordered(views@, policy, mode, key as nat),
            forall|k: int| 0 <= k < order@.len() ==> #[trigger] order@[k] < groups@.len(),
        decreases 6 - key,
    {
        let mut i: usize = 0;
        let ghost front = ordered(views@, policy, mode, key as nat);
        assert(picked(views@, order@) =~= front + bucket(
            views@.take(0),
            policy,
            mode,
            key as nat,
        ));
        while i < groups.len()
            invariant
                i <= groups.len(),
                key < 6,
                groups_are(groups@, views@),
                picked(views@, order@) == front + bucket(
                    views@.take(i as int),
                    policy,
                    mode,
                    key as nat,
                ),
                forall|k: int| 0 <= k < order@.len() ==> #[trigger] order@[k] < groups@.len(),
            decreases groups.len() - i,
        {
            assert(views@.take(i + 1).drop_last() =~= views@.take(i as int));
            let ghost before = picked(views@, order@);
            if place_of(&groups[i], policy, mode, Ghost(views@[i as int])) == key {
                order.push(i);
                assert(picked(views@, order@) =~= before.push(views@[i as int]));
            }
            assert(picked(views@, order@) =~= front + bucket(
                views@.take(i + 1),
                policy,
                mode,
                key as nat,
            ));
            i = i + 1;
        }
        assert(views@.take(views@.len() as int) =~= views@);
        key = key + 1;
    }
    order
}

fn node_present(groups: &Vec<CpuCoreGroup>, node: u32, views: Ghost<Seq<GroupView>>) -> (r: bool)
    requires
        groups_are(groups@, views@),
    ensures
        r == has_node(views@, node),
{
    let mut i: usize = 0;
    while i < groups.len()
        invariant
            i <= groups.len(),
            groups_are(groups@, views@),
            forall|j: int| 0 <= j < i ==> (#[trigger] views@[j]).numa_node != Some(node),
        decreases groups.len() - i,
    {
        assert(group_is(groups@[i as int], views@[i as int]));
        if let Some(found) = groups[i].numa_node {
            if found == node {
                assert(views@[i as int].numa_node == Some(node));
                return true;
            }
        }
        i = i + 1;
    }
    false
}

/// The CPUs of the first `count` chosen cores, as far as `usize` can count.
fn count_cpus(
    groups: &Vec<CpuCoreGroup>,
    order: &Vec<usize>,
    count: usize,
    views: Ghost<Seq<GroupView>>,
) -> (r: usize)
    requires
        groups_are(groups@, views@),
        count <= order@.len(),
        forall|k: int| 0 <= k < order@.len() ==> #[trigger] order@[k] < groups@.len(),
    ensures
        ({
            let total = total_cpus(picked(views@, order@).take(count as int));
            r == if total <= usize::MAX {
                total
            } else {
                usize::MAX as nat
            }
        }),
{
    let ghost candidates = picked(views@, order@);
    let mut total: usize = 0;
    let mut i: usize = 0;
    while i < count
        invariant
            i <= count <= order@.len(),
            groups_are(groups@, views@),
            candidates == picked(views@, order@),
            forall|k: int| 0 <= k < order@.len() ==> #[trigger] order@[k] < groups@.len(),
            total == if total_cpus(candidates.take(i as int)) <= usize::MAX {
                total_cpus(candidates.take(i as int))
            } else {
                usize::MAX as nat
            },
        decreases count - i,
    {
        assert(candidates.take(i + 1).drop_last() =~= candidates.take(i as int));
        let at: usize = order[i];
        assert(group_is(groups@[at as int], views@[at as int]));
        total = total.saturating_add(groups[at].cpus.len());
        i = i + 1;
    }
    total
}

fn take_cpus(
    groups: &Vec<CpuCoreGroup>,
    order: &Vec<usize>,
    count: usize,
    views: Ghost<Seq<GroupView>>,
) -> (r: Vec<u32>)
    requires
        groups_are(groups@, views@),
        count <= order@.len(),
        forall|k: int| 0 <= k < order@.len() ==> #[trigger] order@[k] < groups@.len(),
    ensures
        r@ == all_cpus(picked(views@, order@).take(count as int)),
{
    let ghost candidates = picked(views@, order@);
    let mut ids: Vec<u32> = Vec::new();
    let mut i: usize = 0;
    while i < count
        invariant
            i <= count <= order@.len(),
            groups_are(groups@, views@),
            candidates == picked(views@, order@),
            forall|k: int| 0 <= k < order@.len() ==> #[trigger] order@[k] < groups@.len(),
            ids@ == all_cpus(candidates.take(i as int)),
        decreases count - i,
    {
        assert(candidates.take(i + 1).drop_last() =~= candidates.take(i as int));
        let at: usize = order[i];
        assert(group_is(groups@[at as int], views@[at as int]));
        topology::push_all(&mut ids, groups[at].cpus.as_slice());
        i = i + 1;
    }
    ids
}

fn remove_cpus(list: &CpuSet, drop: &CpuSet) -> (r: Vec<u32>)
    ensures
        r@ == without(list@, drop@),
{
    let ids = list.as_slice();
    let mut out: Vec<u32> = Vec::new();
    for i in 0..ids.len()
        invariant
            out@ == without(ids@.take(i as int), drop@),
    {
        assert(ids@.take(i + 1).drop_last() =~= ids@.take(i as int));
        if !drop.contains(ids[i]) {
            out.push(ids[i]);
        }
    }
    assert(ids@.take(ids@.len() as int) =~= ids@);
    out
}

fn plan_error(code: ErrorCode, message: &str) -> (r: SysboostError)
    ensures
        r@ == crate::error::staged(code, message@, Stage::Plan),
{
    SysboostError::new(code, message).with_stage(Stage::Plan)
}

/// Whether a plan is for a choice, with the masks of its sets.
pub open spec fn plan_is(plan: CpuIsolationPlan, choice: ChoiceView) -> bool {
    &&& plan@.choice == choice
    &&& cpuset::mask_of(plan@.workload_mask, choice.workload)
    &&& cpuset::mask_of(plan@.housekeeping_mask, choice.housekeeping)
}

impl CpuTopology {
    /// Chooses CPUs and binds the plan to a target, whose identity is asked for
    /// again before the plan is applied.
    pub fn select_for_target(
        &self,
        policy: CpuSelectionPolicy,
        target_identity: Option<TargetIdentity>,
    ) -> (r: Result<CpuIsolationPlan, SysboostError>)
        ensures
            match r {
                Ok(plan) => select_spec(self@, policy, target_identity) is Ok && plan_is(
                    plan,
                    select_spec(self@, policy, target_identity)->Ok_0,
                ),
                Err(e) => select_spec(self@, policy, target_identity) == Err::<
                    ChoiceView,
                    crate::error::ErrorView,
                >(e@),
            },
    {
        let online = match self.online() {
            Some(online) => online,
            None => return Err(
                plan_error(
                    ErrorCode::CapabilityError,
                    "current online CPU set is unavailable; soft isolation is report-only",
                ),
            ),
        };
        let ghost t = self@;
        let groups = self.core_groups();
        let ghost views = groups_spec(t.cpus, online@);
        if groups.len() < 2 {
            return Err(
                plan_error(
                    ErrorCode::PlanningError,
                    "at least two online physical-core groups are required to preserve housekeeping",
                ),
            );
        }
        let mode = self.capacity_mode();
        let most: usize = groups.len() / 2;
        let mut fallbacks: Vec<CpuPlacementFallback> = Vec::new();
        if policy.prefer_performance_cores {
            match mode {
                CpuCapacityMode::Homogeneous => {
                    fallbacks.push(CpuPlacementFallback::HomogeneousTopology);
                },
                CpuCapacityMode::Unknown => {
                    fallbacks.push(CpuPlacementFallback::CapacityMetadataUnavailable);
                },
                CpuCapacityMode::HeterogeneousProven => {},
            }
        }
        if let Some(node) = policy.preferred_numa_node {
            if !node_present(&groups, node, Ghost(views)) {
                fallbacks.push(CpuPlacementFallback::NumaPreferenceUnavailable);
            }
        }
        let order = order_groups(&groups, policy, mode, Ghost(views));
        let ghost candidates = candidates_spec(views, policy, mode);
        proof {
            lemma_candidates(views, policy, mode);
        }
        let wanted: usize = match policy.workload_cpu_count {
            Some(count) => count,
            None => usize::MAX,
        };
        if wanted == 0 {
            return Err(
                plan_error(
                    ErrorCode::InvalidInput,
                    "requested workload CPU count must be positive",
                ),
            );
        }
        if let Some(count) = policy.workload_cpu_count {
            if count > online.len() - 1 || count > count_cpus(&groups, &order, most, Ghost(views)) {
                fallbacks.push(CpuPlacementFallback::ReducedToPreserveHousekeeping);
            }
        }
        assert(fallbacks@ =~= fallbacks_spec(views, candidates, online@, policy, mode));
        let mut taken: usize = 0;
        while taken < most && !(taken > 0 && count_cpus(&groups, &order, taken, Ghost(views))
            >= wanted)
            invariant
                taken <= most <= order@.len(),
                groups_are(groups@, views),
                candidates == picked(views, order@),
                forall|k: int| 0 <= k < order@.len() ==> #[trigger] order@[k] < groups@.len(),
                taken_spec(candidates, most as nat, wanted as nat, 0) == taken_spec(
                    candidates,
                    most as nat,
                    wanted as nat,
                    taken as nat,
                ),
            ensures
                taken <= most <= order@.len(),
                taken_spec(candidates, most as nat, wanted as nat, 0) == taken,
            decreases most - taken,
        {
            taken = taken + 1;
        }
        proof {
            placement_is_safe(t, policy);
        }
        let ids = take_cpus(&groups, &order, taken, Ghost(views));
        let workload = match CpuSet::new(ids) {
            Ok(set) => set,
            Err(e) => return Err(e),
        };
        let rest = remove_cpus(online, &workload);
        proof {
            cpuset::canonical_of_ascending(rest@);
        }
        let housekeeping = match CpuSet::new(rest) {
            Ok(set) => set,
            Err(e) => return Err(e),
        };
        let workload_mask = match CpuAffinityMask::from_cpu_set(&workload) {
            Ok(mask) => mask,
            Err(e) => return Err(e),
        };
        let housekeeping_mask = match CpuAffinityMask::from_cpu_set(&housekeeping) {
            Ok(mask) => mask,
            Err(e) => return Err(e),
        };
        Ok(
            CpuIsolationPlan {
                workload_cpus: workload,
                housekeeping_cpus: housekeeping,
                workload_mask,
                housekeeping_mask,
                capacity_mode: mode,
                fallbacks,
                topology_revision: self.revision(),
                online_at_plan: online.clone(),
                target_identity,
            },
        )
    }

    /// Chooses CPUs without binding the plan to a target.
    pub fn select(&self, policy: CpuSelectionPolicy) -> (r: Result<
        CpuIsolationPlan,
        SysboostError,
    >)
        ensures
            match r {
                Ok(plan) => select_spec(self@, policy, None) is Ok && plan_is(
                    plan,
                    select_spec(self@, policy, None)->Ok_0,
                ),
                Err(e) => select_spec(self@, policy, None) == Err::<
                    ChoiceView,
                    crate::error::ErrorView,
                >(e@),
            },
    {
        self.select_for_target(policy, None)
    }

    /// Chooses CPUs by the conservative policy.
    pub fn select_workload(&self) -> (r: Result<CpuIsolationPlan, SysboostError>)
        ensures
            match r {
                Ok(plan) => select_spec(self@, conservative_policy(), None) is Ok && plan_is(
                    plan,
                    select_spec(self@, conservative_policy(), None)->Ok_0,
                ),
                Err(e) => select_spec(self@, conservative_policy(), None) == Err::<
                    ChoiceView,
                    crate::error::ErrorView,
                >(e@),
            },
    {
        self.select(CpuSelectionPolicy::conservative())
    }
}

/// Plans several times on one topology.
#[derive(Clone, Copy, Debug)]
pub struct CpuTopologyPlanner<'a> {
    pub topology: &'a CpuTopology,
}

impl<'a> CpuTopologyPlanner<'a> {
    pub fn new(topology: &'a CpuTopology) -> (r: CpuTopologyPlanner<'a>)
        ensures
            r.topology == topology,
    {
        CpuTopologyPlanner { topology }
    }

    /// Plans without binding to a target.
    pub fn plan(&self, policy: CpuSelectionPolicy) -> (r: Result<CpuIsolationPlan, SysboostError>)
        ensures
            match r {
                Ok(plan) => select_spec(self.topology@, policy, None) is Ok && plan_is(
                    plan,
                    select_spec(self.topology@, policy, None)->Ok_0,
                ),
                Err(e) => select_spec(self.topology@, policy, None) == Err::<
                    ChoiceView,
                    crate::error::ErrorView,
                >(e@),
            },
    {
        self.topology.select(policy)
    }

    /// Plans and binds to a target.
    pub fn plan_for_target(
        &self,
        policy: CpuSelectionPolicy,
        target_identity: Option<TargetIdentity>,
    ) -> (r: Result<CpuIsolationPlan, SysboostError>)
        ensures
            match r {
                Ok(plan) => select_spec(self.topology@, policy, target_identity) is Ok && plan_is(
                    plan,
                    select_spec(self.topology@, policy, target_identity)->Ok_0,
                ),
                Err(e) => select_spec(self.topology@, policy, target_identity) == Err::<
                    ChoiceView,
                    crate::error::ErrorView,
                >(e@),
            },
    {
        self.topology.select_for_target(policy, target_identity)
    }
}

/// The planner under the name of what it plans.
pub type CpuIsolationPlanner<'a> = CpuTopologyPlanner<'a>;

/// The policy under the name of what it decides.
pub type CpuPlacementPolicy = CpuSelectionPolicy;

/// Emitted when isolation planning is available.
pub const CPU_ISOLATION_OUTPUT_GATE: &'static str = "SYSBOOST_CPU_ISOLATION_READY";

/// The option that asks for performance cores.
pub const PREFER_PERFORMANCE_CORES_FLAG: &'static str = "--prefer-performance-cores";

/// No preference at all.
pub open spec fn conservative_policy() -> CpuSelectionPolicy {
    CpuSelectionPolicy {
        prefer_performance_cores: false,
        workload_cpu_count: None,
        preferred_numa_node: None,
    }
}

/// Whether an argument is an option that placement does not have.
pub open spec fn unknown_option(argument: Seq<char>) -> bool {
    argument != PREFER_PERFORMANCE_CORES_FLAG@ && argument.len() > 0 && argument[0] == '-'
}

impl CpuSelectionPolicy {
    /// The policy without preferences.
    pub fn conservative() -> (r: CpuSelectionPolicy)
        ensures
            r == conservative_policy(),
    {
        CpuSelectionPolicy {
            prefer_performance_cores: false,
            workload_cpu_count: None,
            preferred_numa_node: None,
        }
    }

    /// The policy of `--prefer-performance-cores`.
    pub fn prefer_performance_cores() -> (r: CpuSelectionPolicy)
        ensures
            r == (CpuSelectionPolicy { prefer_performance_cores: true, ..conservative_policy() }),
    {
        CpuSelectionPolicy {
            prefer_performance_cores: true,
            workload_cpu_count: None,
            preferred_numa_node: None,
        }
    }

    pub fn with_prefer_performance_cores(self, enabled: bool) -> (r: CpuSelectionPolicy)
        ensures
            r == (CpuSelectionPolicy { prefer_performance_cores: enabled, ..self }),
    {
        CpuSelectionPolicy { prefer_performance_cores: enabled, ..self }
    }

    pub fn with_workload_cpu_count(self, count: usize) -> (r: CpuSelectionPolicy)
        ensures
            r == (CpuSelectionPolicy { workload_cpu_count: Some(count), ..self }),
    {
        CpuSelectionPolicy { workload_cpu_count: Some(count), ..self }
    }

    pub fn with_preferred_numa_node(self, node: u32) -> (r: CpuSelectionPolicy)
        ensures
            r == (CpuSelectionPolicy { preferred_numa_node: Some(node), ..self }),
    {
        CpuSelectionPolicy { preferred_numa_node: Some(node), ..self }
    }

    /// Reads the placement options of a command line. Arguments that are no
    /// options are passed over; an option that placement does not have is
    /// refused.
    pub fn from_args(args: &[&str]) -> (r: Result<CpuSelectionPolicy, SysboostError>)
        ensures
            match r {
                Ok(policy) => {
                    &&& forall|i: int| 0 <= i < args@.len() ==> !unknown_option(
                        (#[trigger] args@[i])@,
                    )
                    &&& policy == (CpuSelectionPolicy {
                        prefer_performance_cores: exists|i: int|
                            0 <= i < args@.len() && (#[trigger] args@[i])@
                                == PREFER_PERFORMANCE_CORES_FLAG@,
                        ..conservative_policy()
                    })
                },
                Err(e) => {
                    &&& exists|i: int| 0 <= i < args@.len() && unknown_option(
                        (#[trigger] args@[i])@,
                    )
                    &&& e@ == crate::error::staged(
                        ErrorCode::ConfigError,
                        "unknown CPU placement option"@,
                        Stage::Config,
                    )
                },
            },
    {
        let mut prefer = false;
        let mut i: usize = 0;
        while i < args.len()
            invariant
                i <= args.len(),
                forall|j: int| 0 <= j < i ==> !unknown_option((#[trigger] args@[j])@),
                prefer == exists|j: int|
                    0 <= j < i && (#[trigger] args@[j])@ == PREFER_PERFORMANCE_CORES_FLAG@,
            decreases args.len() - i,
        {
            let argument = args[i];
            if text::same(argument, PREFER_PERFORMANCE_CORES_FLAG) {
                assert(args@[i as int]@ == PREFER_PERFORMANCE_CORES_FLAG@);
                prefer = true;
            } else if argument.unicode_len() > 0 && argument.get_char(0) == '-' {
                assert(unknown_option(args@[i as int]@));
                return Err(
                    SysboostError::new(
                        ErrorCode::ConfigError,
                        "unknown CPU placement option",
                    ).with_stage(Stage::Config),
                );
            }
            i = i + 1;
        }
        Ok(
            CpuSelectionPolicy {
                prefer_performance_cores: prefer,
                workload_cpu_count: None,
                preferred_numa_node: None,
            },
        )
    }
}

impl Default for CpuSelectionPolicy {
    fn default() -> (r: CpuSelectionPolicy)
        ensures
            r == conservative_policy(),
    {
        CpuSelectionPolicy::conservative()
    }
}

pub open spec fn mode_text(mode: CpuCapacityMode) -> Seq<char> {
    match mode {
        CpuCapacityMode::HeterogeneousProven => "heterogeneous-proven"@,
        CpuCapacityMode::Homogeneous => "homogeneous"@,
        CpuCapacityMode::Unknown => "unknown"@,
    }
}

pub open spec fn class_text(class: CpuPerformanceClass) -> Seq<char> {
    match class {
        CpuPerformanceClass::Performance => "performance"@,
        CpuPerformanceClass::Efficiency => "efficiency"@,
        CpuPerformanceClass::Unknown => "unknown"@,
    }
}

pub open spec fn fallback_text(fallback: CpuPlacementFallback) -> Seq<char> {
    match fallback {
        CpuPlacementFallback::HomogeneousTopology => "homogeneous-topology"@,
        CpuPlacementFallback::CapacityMetadataUnavailable => "capacity-metadata-unavailable"@,
        CpuPlacementFallback::NumaPreferenceUnavailable => "numa-preference-unavailable"@,
        CpuPlacementFallback::ReducedToPreserveHousekeeping => "reduced-to-preserve-housekeeping"@,
    }
}

impl CpuCapacityMode {
    pub fn as_text(&self) -> (r: &'static str)
        ensures
            r@ == mode_text(*self),
    {
        match self {
            CpuCapacityMode::HeterogeneousProven => "heterogeneous-proven",
            CpuCapacityMode::Homogeneous => "homogeneous",
            CpuCapacityMode::Unknown => "unknown",
        }
    }
}

impl CpuPerformanceClass {
    pub fn as_text(&self) -> (r: &'static str)
        ensures
            r@ == class_text(*self),
    {
        match self {
            CpuPerformanceClass::Performance => "performance",
            CpuPerformanceClass::Efficiency => "efficiency",
            CpuPerformanceClass::Unknown => "unknown",
        }
    }
}

impl CpuPlacementFallback {
    pub fn as_text(&self) -> (r: &'static str)
        ensures
            r@ == fallback_text(*self),
    {
        match self {
            CpuPlacementFallback::HomogeneousTopology => "homogeneous-topology",
            CpuPlacementFallback::CapacityMetadataUnavailable => "capacity-metadata-unavailable",
            CpuPlacementFallback::NumaPreferenceUnavailable => "numa-preference-unavailable",
            CpuPlacementFallback::ReducedToPreserveHousekeeping =>
            "reduced-to-preserve-housekeeping",
        }
    }
}

/// What the last check before an apply refuses.
pub open spec fn validate_spec(
    plan: ChoiceView,
    current: TopologyView,
    target_identity: Option<TargetIdentity>,
) -> Result<(), crate::error::ErrorView> {
    if current.revision != plan.revision || current.online != Some(plan.online) {
        Err(
            crate::error::staged(
                ErrorCode::TargetError,
                "CPU topology or online CPU set changed after planning"@,
                Stage::Apply,
            ),
        )
    } else if !topology::subset(plan.workload, plan.online) || !topology::subset(
        plan.housekeeping,
        plan.online,
    ) {
        Err(
            crate::error::staged(
                ErrorCode::TargetError,
                "planned CPU set contains a CPU that is no longer online"@,
                Stage::Apply,
            ),
        )
    } else if plan.target_identity != target_identity {
        Err(
            crate::error::staged(
                ErrorCode::TargetError,
                "CPU placement target identity changed after planning"@,
                Stage::Apply,
            ),
        )
    } else {
        Ok(())
    }
}

/// The change that gives a group the CPUs of a placement.
pub open spec fn cpuset_mutation_view(
    plan: ChoiceView,
    mutation_id: MutationId,
    cgroup: CgroupView,
    precondition: StateFingerprint,
) -> MutationView {
    MutationView {
        mutation_id,
        capability: "cgroup.cpuset.cpus"@,
        target: cgroup.handle,
        kind: KindView::CgroupCpuset { cgroup, cpus: plan.workload },
        desired: ValueView::CgroupCpuset(plan.workload),
        precondition,
        equality: EqualityKind::SetExact,
        dependencies: Seq::empty(),
    }
}

fn same_revision(a: TopologyRevision, b: TopologyRevision) -> (r: bool)
    ensures
        r == (a.bytes@ == b.bytes@),
{
    for i in 0..32usize
        invariant
            forall|j: int| 0 <= j < i ==> a.bytes@[j] == b.bytes@[j],
    {
        if a.bytes[i] != b.bytes[i] {
            assert(a.bytes@[i as int] != b.bytes@[i as int]);
            return false;
        }
    }
    assert(a.bytes@ =~= b.bytes@);
    true
}

fn apply_error(message: &str) -> (r: SysboostError)
    ensures
        r@ == crate::error::staged(ErrorCode::TargetError, message@, Stage::Apply),
{
    SysboostError::new(ErrorCode::TargetError, message).with_stage(Stage::Apply)
}

/// The names of fallbacks with commas between them.
pub open spec fn fallbacks_text(fallbacks: Seq<CpuPlacementFallback>) -> Seq<char> {
    text::join_spec(fallbacks.map_values(|f: CpuPlacementFallback| fallback_text(f)), ',')
}

/// One line for a set of CPUs.
pub open spec fn set_line(label: Seq<char>, cpus: Seq<u32>, mask: Seq<u8>) -> Seq<char> {
    label + cpuset::render_spec(cpus) + " (mask=0x"@ + text::hex_spec(mask.reverse()) + ")\n"@
}

/// The explanation of a decision.
pub open spec fn explain_spec(plan: CpuIsolationPlan) -> Seq<char> {
    "capacity: "@ + mode_text(plan.capacity_mode) + "\n"@ + set_line(
        "workload CPUs: "@,
        plan.workload_cpus@,
        plan.workload_mask.bytes@,
    ) + set_line(
        "housekeeping CPUs: "@,
        plan.housekeeping_cpus@,
        plan.housekeeping_mask.bytes@,
    ) + if plan.fallbacks@.len() == 0 {
        "fallback: none\n"@
    } else {
        "fallback: "@ + fallbacks_text(plan.fallbacks@) + "\n"@
    }
}

fn write_set_line(out: &mut String, label: &str, cpus: &CpuSet, mask: &CpuAffinityMask)
    ensures
        final(out)@ == old(out)@ + set_line(label@, cpus@, mask.bytes@),
{
    let ghost start = out@;
    out.append(label);
    out.append(cpuset::render_cpu_set(cpus).as_str());
    out.append(" (mask=0x");
    out.append(mask.to_hex().as_str());
    out.append(")\n");
    assert(out@ =~= start + set_line(label@, cpus@, mask.bytes@));
}

impl CpuIsolationPlan {
    /// The first fallback, if there is one.
    pub fn primary_fallback(&self) -> (r: Option<CpuPlacementFallback>)
        ensures
            r == if self.fallbacks@.len() == 0 {
                None
            } else {
                Some(self.fallbacks@[0])
            },
    {
        if self.fallbacks.len() == 0 {
            None
        } else {
            Some(self.fallbacks[0])
        }
    }

    /// Holds the plan against fresh evidence right before it is applied. A
    /// changed topology, online set or target is refused; the plan is never
    /// changed to fit.
    pub fn validate_before_apply(
        &self,
        current: &CpuTopology,
        current_target_identity: Option<TargetIdentity>,
    ) -> (r: Result<(), SysboostError>)
        ensures
            match r {
                Ok(_) => validate_spec(self@.choice, current@, current_target_identity) is Ok,
                Err(e) => validate_spec(self@.choice, current@, current_target_identity) == Err::<
                    (),
                    crate::error::ErrorView,
                >(e@),
            },
    {
        if !same_revision(current.revision(), self.topology_revision) {
            return Err(apply_error("CPU topology or online CPU set changed after planning"));
        }
        let online = match current.online() {
            Some(online) => online,
            None => return Err(
                apply_error("CPU topology or online CPU set changed after planning"),
            ),
        };
        if !online.same(&self.online_at_plan) {
            return Err(apply_error("CPU topology or online CPU set changed after planning"));
        }
        if !topology::is_subset(&self.workload_cpus, online) || !topology::is_subset(
            &self.housekeeping_cpus,
            online,
        ) {
            return Err(apply_error("planned CPU set contains a CPU that is no longer online"));
        }
        let same_target = match (&self.target_identity, &current_target_identity) {
            (Some(a), Some(b)) => a.same(b),
            (None, None) => true,
            _ => false,
        };
        if !same_target {
            return Err(apply_error("CPU placement target identity changed after planning"));
        }
        Ok(())
    }

    /// The last check before an apply, under another name.
    pub fn revalidate_before_apply(
        &self,
        current: &CpuTopology,
        current_target_identity: Option<TargetIdentity>,
    ) -> (r: Result<(), SysboostError>)
        ensures
            match r {
                Ok(_) => validate_spec(self@.choice, current@, current_target_identity) is Ok,
                Err(e) => validate_spec(self@.choice, current@, current_target_identity) == Err::<
                    (),
                    crate::error::ErrorView,
                >(e@),
            },
    {
        self.validate_before_apply(current, current_target_identity)
    }

    /// The change that gives a group the CPUs of the workload. The plan is held
    /// against fresh evidence first, so that a stale one never becomes a change.
    pub fn to_cgroup_cpuset_mutation(
        &self,
        current: &CpuTopology,
        current_target_identity: TargetIdentity,
        mutation_id: MutationId,
        cgroup: CgroupId,
        current_cpuset_precondition: StateFingerprint,
    ) -> (r: Result<PlannedMutation, SysboostError>)
        ensures
            crate::error::viewed(r) == match validate_spec(
                self@.choice,
                current@,
                Some(current_target_identity),
            ) {
                Ok(_) => Ok::<MutationView, crate::error::ErrorView>(
                    cpuset_mutation_view(
                        self@.choice,
                        mutation_id,
                        cgroup@,
                        current_cpuset_precondition,
                    ),
                ),
                Err(e) => Err::<MutationView, crate::error::ErrorView>(e),
            },
    {
        if let Err(e) = self.validate_before_apply(current, Some(current_target_identity)) {
            return Err(e);
        }
        proof {
            reveal_strlit("cgroup.cpuset.cpus");
        }
        let target = cgroup.handle.clone();
        let kind = MutationKind::CgroupCpuset { cgroup, cpus: self.workload_cpus.clone() };
        let dependencies: Vec<MutationId> = Vec::new();
        assert(dependencies@ =~= Seq::empty());
        PlannedMutation::new(
            mutation_id,
            capability::capability_named("cgroup.cpuset.cpus"),
            target,
            kind,
            TypedValue::CgroupCpuset(self.workload_cpus.clone()),
            current_cpuset_precondition,
            EqualityKind::SetExact,
            dependencies,
        )
    }

    /// The decision in words, for a dry run.
    pub fn explain(&self) -> (r: String)
        ensures
            r@ == explain_spec(*self),
    {
        let mut out = "capacity: ".to_string();
        out.append(self.capacity_mode.as_text());
        out.append("\n");
        write_set_line(&mut out, "workload CPUs: ", &self.workload_cpus, &self.workload_mask);
        write_set_line(
            &mut out,
            "housekeeping CPUs: ",
            &self.housekeeping_cpus,
            &self.housekeeping_mask,
        );
        if self.fallbacks.len() == 0 {
            out.append("fallback: none\n");
        } else {
            out.append("fallback: ");
            let ghost front = out@;
            let ghost names = self.fallbacks@.map_values(
                |f: CpuPlacementFallback| fallback_text(f),
            );
            assert(out@ =~= front + text::join_spec(names.take(0), ','));
            for i in 0..self.fallbacks.len()
                invariant
                    names == self.fallbacks@.map_values(
                        |f: CpuPlacementFallback| fallback_text(f),
                    ),
                    out@ == front + text::join_spec(names.take(i as int), ','),
            {
                assert(names.take(i + 1).drop_last() =~= names.take(i as int));
                if i > 0 {
                    out.push(',');
                }
                out.append(self.fallbacks[i].as_text());
                assert(out@ =~= front + text::join_spec(names.take(i + 1), ','));
            }
            assert(names.take(names.len() as int) =~= names);
            out.append("\n");
        }
        assert(out@ =~= explain_spec(*self));
        out
    }
}

/// A fresh plan passes the last check as long as nothing changed.
pub proof fn unchanged_plan_validates(
    t: TopologyView,
    policy: CpuSelectionPolicy,
    target_identity: Option<TargetIdentity>,
)
    requires
        topology::topology_wf(t),
        select_spec(t, policy, target_identity) is Ok,
    ensures
        validate_spec(select_spec(t, policy, target_identity)->Ok_0, t, target_identity) is Ok,
{
    let plan = select_spec(t, policy, target_identity)->Ok_0;
    placement_is_safe(t, policy);
    assert forall|i: int| 0 <= i < plan.workload.len() implies plan.online.contains(
        #[trigger] plan.workload[i],
    ) by {
        assert(plan.workload.contains(plan.workload[i]));
    }
    assert forall|i: int| 0 <= i < plan.housekeeping.len() implies plan.online.contains(
        #[trigger] plan.housekeeping[i],
    ) by {
        assert(plan.housekeeping.contains(plan.housekeeping[i]));
    }
}

proof fn lemma_taken_least(candidates: Seq<GroupView>, most: nat, wanted: nat, taken: nat)
    requires
        taken <= most <= candidates.len(),
        forall|k: int| 0 < k < taken ==> total_cpus(#[trigger] candidates.take(k)) < wanted,
    ensures
        ({
            let end = taken_spec(candidates, most, wanted, taken);
            &&& taken <= end <= most
            &&& end == most || total_cpus(candidates.take(end as int)) >= wanted
            &&& forall|k: int| 0 < k < end ==> total_cpus(#[trigger] candidates.take(k)) < wanted
        }),
    decreases candidates.len() - taken,
{
    if !(taken >= candidates.len() || taken >= most || (taken > 0 && total_cpus(
        candidates.take(taken as int),
    ) >= wanted)) {
        assert forall|k: int| 0 < k < taken + 1 implies total_cpus(
            #[trigger] candidates.take(k),
        ) < wanted by {
            if k == taken {
                assert(candidates.take(k) == candidates.take(taken as int));
            }
        }
        lemma_taken_least(candidates, most, wanted, taken + 1);
    }
}

/// The workload gets the CPUs that it asked for, and no core more than that takes:
/// the cores taken hold as many, or half of all cores are taken, and with one core
/// fewer it would have got too few.
pub proof fn the_workload_gets_what_it_asked_for(
    candidates: Seq<GroupView>,
    half: nat,
    wanted: nat,
    fewer: int,
)
    requires
        half <= candidates.len(),
    ensures
        ({
            let taken = taken_spec(candidates, half, wanted, 0);
            &&& taken <= half
            &&& taken == half || total_cpus(candidates.take(taken as int)) >= wanted
            &&& 0 < fewer < taken ==> total_cpus(candidates.take(fewer)) < wanted
        }),
{
    lemma_taken_least(candidates, half, wanted, 0);
}

proof fn lemma_in_either(
    a: Seq<CpuPlacementFallback>,
    b: Seq<CpuPlacementFallback>,
    x: CpuPlacementFallback,
)
    ensures
        (a + b).contains(x) <==> a.contains(x) || b.contains(x),
{
    if a.contains(x) {
        let i = a.index_of(x);
        assert((a + b)[i] == x);
    }
    if b.contains(x) {
        let i = b.index_of(x);
        assert((a + b)[a.len() + i] == x);
    }
}

/// What a choice could not honour is said, and nothing else is: equal or unknown
/// CPUs where fast ones were preferred, a memory node that has no core, and a count
/// of CPUs that the housekeeping does not leave.
pub proof fn what_was_not_honoured_is_said(
    groups: Seq<GroupView>,
    candidates: Seq<GroupView>,
    online: Seq<u32>,
    policy: CpuSelectionPolicy,
    mode: CpuCapacityMode,
    said: CpuPlacementFallback,
)
    ensures
        fallbacks_spec(groups, candidates, online, policy, mode).contains(said) <==> match said {
            CpuPlacementFallback::HomogeneousTopology => policy.prefer_performance_cores && mode
                == CpuCapacityMode::Homogeneous,
            CpuPlacementFallback::CapacityMetadataUnavailable => policy.prefer_performance_cores
                && mode == CpuCapacityMode::Unknown,
            CpuPlacementFallback::NumaPreferenceUnavailable => policy.preferred_numa_node is Some
                && !(exists|i: int|
                0 <= i < groups.len() && (#[trigger] groups[i]).numa_node
                    == policy.preferred_numa_node),
            CpuPlacementFallback::ReducedToPreserveHousekeeping => policy.workload_cpu_count is Some
                && (policy.workload_cpu_count->0 > online.len() - 1
                || policy.workload_cpu_count->0 > total_cpus(
                candidates.take((groups.len() / 2) as int),
            )),
        },
{
    let capacity = if policy.prefer_performance_cores {
        match mode {
            CpuCapacityMode::Homogeneous => seq![CpuPlacementFallback::HomogeneousTopology],
            CpuCapacityMode::Unknown => seq![CpuPlacementFallback::CapacityMetadataUnavailable],
            CpuCapacityMode::HeterogeneousProven => Seq::empty(),
        }
    } else {
        Seq::empty()
    };
    let numa = if policy.preferred_numa_node is Some && !has_node(
        groups,
        policy.preferred_numa_node->0,
    ) {
        seq![CpuPlacementFallback::NumaPreferenceUnavailable]
    } else {
        Seq::empty()
    };
    let reduced = match policy.workload_cpu_count {
        Some(wanted) => if wanted > online.len() - 1 || wanted > total_cpus(
            candidates.take((groups.len() / 2) as int),
        ) {
            seq![CpuPlacementFallback::ReducedToPreserveHousekeeping]
        } else {
            Seq::empty()
        },
        None => Seq::empty(),
    };
    lemma_in_either(capacity, numa, said);
    lemma_in_either(capacity + numa, reduced, said);
    assert(capacity.len() > 0 ==> capacity.contains(capacity[0]));
    assert(numa.len() > 0 ==> numa.contains(numa[0]));
    assert(reduced.len() > 0 ==> reduced.contains(reduced[0]));
}

/// How a choice is put in words.
pub proof fn choices_are_put_in_these_words()
    ensures
        mode_text(CpuCapacityMode::HeterogeneousProven) == "heterogeneous-proven"@,
        mode_text(CpuCapacityMode::Homogeneous) == "homogeneous"@,
        mode_text(CpuCapacityMode::Unknown) == "unknown"@,
        class_text(CpuPerformanceClass::Performance) == "performance"@,
        class_text(CpuPerformanceClass::Efficiency) == "efficiency"@,
        class_text(CpuPerformanceClass::Unknown) == "unknown"@,
        fallback_text(CpuPlacementFallback::HomogeneousTopology) == "homogeneous-topology"@,
        fallback_text(CpuPlacementFallback::CapacityMetadataUnavailable)
            == "capacity-metadata-unavailable"@,
        fallback_text(CpuPlacementFallback::NumaPreferenceUnavailable)
            == "numa-preference-unavailable"@,
        fallback_text(CpuPlacementFallback::ReducedToPreserveHousekeeping)
            == "reduced-to-preserve-housekeeping"@,
{
}

} // verus!
