use sysboost::cpuset::{parse_cpu_list, render_cpu_set, CpuAffinityMask, CpuSet};
use sysboost::error::ErrorCode;
use sysboost::facts::{CpuTopologyEntry, CpuTopologyFacts, NumaFacts, NumaNodeFacts};
use sysboost::ids::{MutationId, StateFingerprint, TargetId, TargetIdentity};
use sysboost::placement::{
    CpuPlacementFallback, CpuSelectionPolicy, CpuTopologyPlanner, PREFER_PERFORMANCE_CORES_FLAG,
};
use sysboost::topology::{CpuCapacityMode, CpuTopology};
use sysboost::value::{CgroupId, TypedValue};

fn facts(
    possible: &str,
    online: &str,
    capacities: &[Option<u64>],
    siblings: &[&str],
) -> CpuTopologyFacts {
    CpuTopologyFacts {
        possible: Some(possible.to_owned()),
        online: Some(online.to_owned()),
        entries: capacities
            .iter()
            .enumerate()
            .map(|(id, capacity)| CpuTopologyEntry {
                cpu: id as u32,
                package_id: Some(0),
                core_id: Some(id as u32),
                thread_siblings: siblings.get(id).map(|value| (*value).to_owned()),
                capacity: *capacity,
                online: online.split(',').any(|part| part.trim() == id.to_string()),
            })
            .collect(),
        heterogeneous: false,
    }
}

fn topology(
    possible: &str,
    online: &str,
    capacities: &[Option<u64>],
    siblings: &[&str],
    numa_nodes: Vec<NumaNodeFacts>,
) -> CpuTopology {
    CpuTopology::from_facts(
        &facts(possible, online, capacities, siblings),
        &NumaFacts { nodes: numa_nodes },
    )
    .expect("valid topology fixture")
}

#[test]
fn homogeneous_four_core_plan_preserves_housekeeping() {
    let planned_topology = topology(
        "0-3",
        "0-3",
        &[Some(1024), Some(1024), Some(1024), Some(1024)],
        &["0", "1", "2", "3"],
        Vec::new(),
    );
    let plan = planned_topology
        .select(CpuSelectionPolicy::conservative())
        .expect("four CPUs can be split conservatively");
    assert_eq!(
        planned_topology.capacity_mode(),
        CpuCapacityMode::Homogeneous
    );
    assert_eq!(plan.workload_cpus.as_slice(), &[0, 1]);
    assert_eq!(plan.housekeeping_cpus.as_slice(), &[2, 3]);
    assert!(plan.workload_cpus.as_slice().len() < 4);
}

#[test]
fn smt_siblings_are_kept_in_one_planning_group() {
    let mut fixture = facts(
        "0-3",
        "0-3",
        &[Some(1024), Some(1024), Some(1024), Some(1024)],
        &["0,2", "1,3", "0,2", "1,3"],
    );
    fixture.entries[2].core_id = Some(0);
    fixture.entries[3].core_id = Some(1);
    let planned_topology = CpuTopology::from_facts(&fixture, &NumaFacts { nodes: Vec::new() })
        .expect("valid SMT topology fixture");
    let groups = planned_topology.core_groups();
    assert_eq!(groups.len(), 2);
    let plan = planned_topology
        .select(CpuSelectionPolicy::conservative())
        .expect("two SMT core groups can be split");
    assert_eq!(plan.workload_cpus.as_slice(), &[0, 2]);
    assert_eq!(plan.housekeeping_cpus.as_slice(), &[1, 3]);
}

#[test]
fn hybrid_preference_uses_kernel_capacity_not_cpu_model() {
    let topology = topology(
        "0-3",
        "0-3",
        &[Some(1024), Some(1024), Some(512), Some(512)],
        &["0", "1", "2", "3"],
        Vec::new(),
    );
    let plan = topology
        .select(CpuSelectionPolicy::prefer_performance_cores())
        .expect("hybrid capacity can be selected");
    assert_eq!(
        topology.capacity_mode(),
        CpuCapacityMode::HeterogeneousProven
    );
    assert_eq!(plan.workload_cpus.as_slice(), &[0, 1]);
    assert_eq!(plan.housekeeping_cpus.as_slice(), &[2, 3]);
    assert!(plan.fallbacks.is_empty());
}

#[test]
fn sparse_online_ids_exclude_offline_possible_cpus() {
    let topology = topology(
        "0-3,7",
        "0,2,7",
        &[
            Some(1024),
            Some(1024),
            Some(1024),
            Some(1024),
            None,
            None,
            None,
            Some(1024),
        ],
        &["0", "1", "2", "3", "4", "5", "6", "7"],
        Vec::new(),
    );
    let plan = topology
        .select(CpuSelectionPolicy::conservative())
        .expect("three sparse online CPUs can be split");
    for cpu in plan
        .workload_cpus
        .as_slice()
        .iter()
        .chain(plan.housekeeping_cpus.as_slice())
    {
        assert!([0, 2, 7].contains(cpu));
    }
    assert!(!plan.workload_cpus.as_slice().contains(&1));
}

#[test]
fn numa_preference_is_deterministic_and_keeps_global_housekeeping() {
    let topology = topology(
        "0-3",
        "0-3",
        &[Some(1024), Some(1024), Some(512), Some(512)],
        &["0", "1", "2", "3"],
        vec![
            NumaNodeFacts {
                id: 0,
                cpus: Some("0-1".to_owned()),
                memory_total_kb: Some(1024),
            },
            NumaNodeFacts {
                id: 1,
                cpus: Some("2-3".to_owned()),
                memory_total_kb: Some(1024),
            },
        ],
    );
    let plan = topology
        .select(CpuSelectionPolicy::conservative().with_preferred_numa_node(1))
        .expect("NUMA preference can be honored");
    assert_eq!(plan.workload_cpus.as_slice(), &[2, 3]);
    assert_eq!(plan.housekeeping_cpus.as_slice(), &[0, 1]);
}

#[test]
fn missing_capacity_metadata_falls_back_without_guessing() {
    let topology = topology(
        "0-3",
        "0-3",
        &[None, None, None, None],
        &["0", "1", "2", "3"],
        Vec::new(),
    );
    let plan = topology
        .select(CpuSelectionPolicy::prefer_performance_cores())
        .expect("unknown capacity uses the conservative fallback");
    assert_eq!(topology.capacity_mode(), CpuCapacityMode::Unknown);
    assert_eq!(
        plan.primary_fallback(),
        Some(CpuPlacementFallback::CapacityMetadataUnavailable)
    );
    assert_eq!(plan.workload_cpus.as_slice(), &[0, 1]);
}

#[test]
fn insufficient_online_cpus_are_rejected() {
    let topology = topology("0", "0", &[Some(1024)], &["0"], Vec::new());
    let error = topology
        .select(CpuSelectionPolicy::conservative())
        .expect_err("one CPU cannot provide housekeeping");
    assert_eq!(error.code, ErrorCode::PlanningError);
}

#[test]
fn affinity_mask_and_flag_parsing_are_closed_and_deterministic() {
    let cpus = parse_cpu_list("0,7").expect("valid sparse CPU list");
    let mask = CpuAffinityMask::from_cpu_set(&cpus).expect("mask is bounded");
    assert_eq!(mask.as_bytes(), &[0x81]);
    assert_eq!(mask.to_hex(), "81");
    let policy = CpuSelectionPolicy::from_args(&["sysboost", PREFER_PERFORMANCE_CORES_FLAG])
        .expect("closed flag parses");
    assert!(policy.prefer_performance_cores);
    assert!(CpuSelectionPolicy::from_args(&["--unknown"]).is_err());
}

#[test]
fn online_or_target_identity_changes_fail_before_mutation_construction() {
    let target_identity = TargetIdentity::from_bytes([7; 16]);
    let planned_topology = topology(
        "0-3",
        "0-3",
        &[Some(1024), Some(1024), Some(1024), Some(1024)],
        &["0", "1", "2", "3"],
        Vec::new(),
    );
    let plan = planned_topology
        .select_for_target(CpuSelectionPolicy::conservative(), Some(target_identity))
        .expect("plan is valid");
    let changed = topology(
        "0-3",
        "0-2",
        &[Some(1024), Some(1024), Some(1024), Some(1024)],
        &["0", "1", "2", "3"],
        Vec::new(),
    );
    assert_eq!(
        plan.validate_before_apply(&changed, Some(target_identity))
            .expect_err("online changes must fail closed")
            .code,
        ErrorCode::TargetError
    );
    assert!(plan
        .validate_before_apply(&planned_topology, Some(TargetIdentity::from_bytes([8; 16])))
        .is_err());
}

#[test]
fn placement_serializes_only_to_the_existing_typed_cpuset_operation() {
    let target_identity = TargetIdentity::from_bytes([9; 16]);
    let topology = topology(
        "0-3",
        "0-3",
        &[Some(1024), Some(1024), Some(1024), Some(1024)],
        &["0", "1", "2", "3"],
        Vec::new(),
    );
    let plan = topology
        .select_for_target(CpuSelectionPolicy::conservative(), Some(target_identity))
        .expect("plan is valid");
    plan.validate_before_apply(&topology, Some(target_identity))
        .expect("unchanged topology and target pass the final gate");

    let cgroup = CgroupId::new(
        7,
        11,
        TargetId::new("cgroup.workload").expect("valid cgroup target"),
    );
    let mutation = plan
        .to_cgroup_cpuset_mutation(
            &topology,
            target_identity,
            MutationId::new(1),
            cgroup,
            StateFingerprint::from_bytes([3; 32]),
        )
        .expect("planner emits the existing typed operation");
    assert_eq!(mutation.kind.operation_id().as_str(), "cgroup.cpuset.cpus");
    assert_eq!(
        mutation.desired,
        TypedValue::CgroupCpuset(plan.workload_cpus)
    );
}

#[test]
fn rendered_lists_parse_back() {
    let cpus = CpuSet::new(vec![7, 0, 1, 2, 9, 1]).expect("not empty");
    let text = render_cpu_set(&cpus);
    assert_eq!(text, "0-2,7,9");
    assert_eq!(parse_cpu_list(&text).expect("own rendering"), cpus);
}

#[test]
fn bad_lists_are_refused() {
    for list in ["", "3-1", "1-", "a", "1,,2", "0-4294967296"] {
        assert!(parse_cpu_list(list).is_err(), "{list} is no CPU list");
    }
    assert!(CpuSet::new(Vec::new()).is_err());
}

#[test]
fn workload_and_housekeeping_share_no_cpu() {
    let topology = topology(
        "0-7",
        "0-7",
        &[Some(1024); 8],
        &["0-1", "0-1", "2-3", "2-3", "4-5", "4-5", "6-7", "6-7"],
        Vec::new(),
    );
    let plan = CpuTopologyPlanner::new(&topology)
        .plan(CpuSelectionPolicy::conservative())
        .expect("eight CPUs can be split");
    for cpu in plan.workload_cpus.as_slice() {
        assert!(!plan.housekeeping_cpus.contains(*cpu));
    }
    assert_eq!(plan.workload_cpus.len() + plan.housekeeping_cpus.len(), 8);
    assert!(plan.housekeeping_cpus.len() >= 4);
}

#[test]
fn unknown_nodes_fall_back() {
    let topology = topology(
        "0-3",
        "0-3",
        &[Some(1024), Some(1024), Some(1024), Some(1024)],
        &["0", "1", "2", "3"],
        Vec::new(),
    );
    let plan = topology
        .select(CpuSelectionPolicy::conservative().with_preferred_numa_node(5))
        .expect("a missing node is no error");
    assert_eq!(
        plan.primary_fallback(),
        Some(CpuPlacementFallback::NumaPreferenceUnavailable)
    );
    let text = plan.explain();
    assert!(text.starts_with("capacity: homogeneous\nworkload CPUs: 0-1 (mask=0x"));
}

#[test]
fn a_stale_plan_never_becomes_a_mutation() {
    let identity = TargetIdentity::from_bytes([9; 16]);
    let before = topology("0-3", "0-3", &[Some(1024); 4], &["0", "1", "2", "3"], Vec::new());
    let after = topology("0-3", "0-2", &[Some(1024); 4], &["0", "1", "2", "3"], Vec::new());
    let plan = before
        .select_for_target(CpuSelectionPolicy::conservative(), Some(identity))
        .expect("plan is valid");
    let error = plan
        .to_cgroup_cpuset_mutation(
            &after,
            identity,
            MutationId::new(1),
            CgroupId::new(7, 11, TargetId::new("cgroup.workload").expect("valid target")),
            StateFingerprint::from_bytes([3; 32]),
        )
        .expect_err("the online set changed");
    assert_eq!(error.message, "CPU topology or online CPU set changed after planning");
}

#[test]
fn planners_plan_alike() {
    let identity = TargetIdentity::from_bytes([9; 16]);
    let topology = topology("0-3", "0-3", &[Some(1024); 4], &["0", "1", "2", "3"], Vec::new());
    let planner = CpuTopologyPlanner::new(&topology);
    let policy = CpuSelectionPolicy::conservative();
    assert_eq!(
        topology.select_workload().expect("four CPUs can be split"),
        planner.plan(policy).expect("four CPUs can be split")
    );
    let bound = planner
        .plan_for_target(policy, Some(identity))
        .expect("four CPUs can be split");
    assert_eq!(bound.target_identity, Some(identity));
    bound
        .revalidate_before_apply(&topology, Some(identity))
        .expect("nothing changed");
    assert!(bound.revalidate_before_apply(&topology, None).is_err());
}

#[test]
fn policies_are_built_step_by_step() {
    let policy = CpuSelectionPolicy::conservative()
        .with_prefer_performance_cores(true)
        .with_workload_cpu_count(1);
    assert!(policy.prefer_performance_cores);
    assert_eq!(policy.workload_cpu_count, Some(1));
    let topology = topology("0-3", "0-3", &[Some(1024); 4], &["0", "1", "2", "3"], Vec::new());
    let plan = topology
        .select(policy.with_prefer_performance_cores(false))
        .expect("one CPU can be given away");
    assert_eq!(plan.workload_cpus.as_slice(), &[0]);
    assert_eq!(plan.housekeeping_cpus.as_slice(), &[1, 2, 3]);
}

#[test]
fn topologies_say_what_they_know() {
    let known = topology("0-3", "0,2", &[Some(1024); 4], &["0", "1", "2", "3"], Vec::new());
    assert!(known.online_is_known());
    assert_eq!(known.online_cpus().map(|cpus| cpus.as_slice().to_vec()), Some(vec![0, 2]));
    assert_eq!(known.capacity_classification(), known.capacity_mode());
    assert_eq!(known.cpu(2).map(|cpu| cpu.id), Some(2));
    assert!(known.cpu(9).is_none());
    let mut silent = facts("0-3", "0-3", &[Some(1024); 4], &["0", "1", "2", "3"]);
    silent.online = None;
    let unknown = CpuTopology::from_facts(&silent, &NumaFacts { nodes: Vec::new() })
        .expect("a topology without online evidence");
    assert!(!unknown.online_is_known());
    assert!(unknown.online_cpus().is_none());
    let error = unknown.select_workload().expect_err("nothing is known to be online");
    assert_eq!(error.code, ErrorCode::CapabilityError);
}
