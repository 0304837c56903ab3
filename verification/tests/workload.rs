use sysboost::backend::MutationBackend;
use sysboost::capability::{CapabilityDescriptor, CapabilityState};
use sysboost::clock::{FixedClock, Timestamp};
use sysboost::cpu::CPU_BACKEND_ID;
use sysboost::cpuset::CpuSet;
use sysboost::error::{ErrorCode, SysboostError};
use sysboost::ids::{CapabilityId, CgroupName, MutationId, TargetId, TargetIdentity};
use sysboost::mutation::{ApplyReceipt, EqualityKind, MutationKind, PlannedMutation, Snapshot};
use sysboost::value::{
    fingerprint_for_value, CgroupGroupKind, CgroupId, CpuPeriod, CpuQuota, CpuWeight, IoPriority,
    IoPriorityClass, IoWeight, NiceValue, ProcessId, TypedValue, UclampValue,
};
use sysboost::workload::{
    capability_state, combine_capability_states, host_capabilities, linux_operation_catalog,
    probed_state, workload_operation_catalog, ChildProcessSupervisor, HostStates, WorkloadBackend,
    WorkloadControlIo, WorkloadObservation, WorkloadTarget, WORKLOAD_BACKEND_ID,
};
use sysboost::workload_fixture::CgroupFixture;
use sysboost::workload_node::{
    cgroup_identity, check_process, check_removal, check_workload_value, parse_group_path,
    parse_workload_node, plan_write, process_identity, render_placement, WorkloadNode,
    WorkloadWrite,
};

fn process(pid: u32) -> ProcessId {
    ProcessId::new(pid, 77).expect("valid process")
}

fn weight(value: u64) -> CpuWeight {
    CpuWeight::new(value).expect("valid weight")
}

fn nice(value: i8) -> NiceValue {
    NiceValue::new(value).expect("valid nice value")
}

fn best_effort(level: u8) -> IoPriority {
    IoPriority::new(IoPriorityClass::BestEffort, level).expect("valid priority")
}

fn name(value: &str) -> CgroupName {
    CgroupName::new(value).expect("valid name")
}

fn root() -> CgroupId {
    CgroupFixture::new().root_id()
}

fn group(inode: u64, handle: &str) -> CgroupId {
    CgroupId::new(1, inode, TargetId::new(handle).expect("valid target"))
}

fn host() -> CgroupFixture {
    let mut fixture = CgroupFixture::new();
    fixture.add_group(group(2, "cgroup.games"), "games");
    fixture
        .add_process(process(10), &root(), nice(0), best_effort(4))
        .expect("the root is there");
    fixture
}

fn mutation(id: u32, kind: MutationKind, target: &str, original: TypedValue) -> PlannedMutation {
    let desired = kind.typed_value();
    let capability = match kind.operation_name() {
        "cgroup.uclamp.min" | "cgroup.uclamp.max" => "cgroup.uclamp",
        other => other,
    };
    PlannedMutation::new(
        MutationId::new(id),
        CapabilityId::new(capability).expect("valid capability"),
        TargetId::new(target).expect("valid target"),
        kind,
        desired,
        fingerprint_for_value(&original),
        EqualityKind::ScalarExact,
        Vec::new(),
    )
    .expect("valid mutation")
}

fn weight_change() -> PlannedMutation {
    mutation(
        1,
        MutationKind::CgroupCpuWeight { cgroup: group(2, "cgroup.games"), weight: weight(900) },
        "cgroup.games",
        TypedValue::CgroupCpuWeight(weight(100)),
    )
}

fn changes() -> Vec<(PlannedMutation, TargetIdentity)> {
    let games = || group(2, "cgroup.games");
    let group_identity = cgroup_identity(&games());
    let process_target = process(10).target_id().as_str().to_string();
    vec![
        (weight_change(), group_identity),
        (
            mutation(
                2,
                MutationKind::CgroupCpuMax {
                    cgroup: games(),
                    quota: CpuQuota::micros(50_000).expect("valid quota"),
                    period: CpuPeriod::new(100_000).expect("valid period"),
                },
                "cgroup.games",
                TypedValue::CgroupCpuMax {
                    quota: CpuQuota::Max,
                    period: CpuPeriod::new(100_000).expect("valid period"),
                },
            ),
            group_identity,
        ),
        (
            mutation(
                3,
                MutationKind::CgroupCpuset {
                    cgroup: games(),
                    cpus: CpuSet::new(vec![2, 3]).expect("not empty"),
                },
                "cgroup.games",
                TypedValue::CgroupCpuset(CpuSet::new(vec![0, 1]).expect("not empty")),
            ),
            group_identity,
        ),
        (
            mutation(
                4,
                MutationKind::CgroupIoWeight {
                    cgroup: games(),
                    weight: IoWeight::new(500).expect("valid weight"),
                },
                "cgroup.games",
                TypedValue::CgroupIoWeight(IoWeight::new(100).expect("valid weight")),
            ),
            group_identity,
        ),
        (
            mutation(
                5,
                MutationKind::CgroupUclampMin { cgroup: games(), value: UclampValue::Value(512) },
                "cgroup.games",
                TypedValue::CgroupUclamp(UclampValue::Value(0)),
            ),
            group_identity,
        ),
        (
            mutation(
                6,
                MutationKind::CgroupUclampMax { cgroup: games(), value: UclampValue::Value(900) },
                "cgroup.games",
                TypedValue::CgroupUclamp(UclampValue::Max),
            ),
            group_identity,
        ),
        (
            mutation(
                7,
                MutationKind::CgroupWorkload { parent: root(), name: name("boost") },
                "cgroup.root",
                TypedValue::CgroupLifecycle {
                    kind: CgroupGroupKind::Workload,
                    name: name("boost"),
                    present: false,
                },
            ),
            cgroup_identity(&root()),
        ),
        (
            mutation(
                8,
                MutationKind::CgroupBackground { parent: root(), name: name("rest") },
                "cgroup.root",
                TypedValue::CgroupLifecycle {
                    kind: CgroupGroupKind::ConservativeBackground,
                    name: name("rest"),
                    present: false,
                },
            ),
            cgroup_identity(&root()),
        ),
        (
            mutation(
                9,
                MutationKind::ProcessPlacement { process: process(10), cgroup: games() },
                &process_target,
                TypedValue::ProcessPlacement(root()),
            ),
            process_identity(process(10)),
        ),
        (
            mutation(
                10,
                MutationKind::ProcessNice { process: process(10), nice: nice(-5) },
                &process_target,
                TypedValue::Nice(nice(0)),
            ),
            process_identity(process(10)),
        ),
        (
            mutation(
                11,
                MutationKind::ProcessIoPriority { process: process(10), priority: best_effort(0) },
                &process_target,
                TypedValue::IoPriority(best_effort(4)),
            ),
            process_identity(process(10)),
        ),
    ]
}

#[test]
fn every_workload_operation_is_reversible() {
    for (change, identity) in changes() {
        let mut backend = WorkloadBackend::from_fixture(host());
        backend.validate_admission(&change, identity).expect("admitted");
        backend.validate_target(&change, identity).expect("the canonical target");
        let snapshot = backend
            .snapshot_internal(&change, Timestamp::from_unix_millis(1))
            .expect("captured");
        let receipt = backend.apply_internal(&change, &snapshot).expect("applied");
        assert_eq!(backend.read(&change).expect("readable").typed, change.desired);
        assert_eq!(
            backend.verify_internal(&change, identity).expect("readable"),
            receipt.ownership_fingerprint
        );
        let restored = backend
            .restore_internal(&change, &snapshot, receipt.ownership_fingerprint)
            .expect("restored");
        assert!(restored.verified);
        assert_eq!(backend.read(&change).expect("readable").typed, snapshot.original_typed);
    }
}

#[test]
fn a_workload_session_leaves_the_host_as_it_was() {
    let mut backend = WorkloadBackend::from_fixture(host());
    let targets = backend.io().targets().expect("listed");
    let all = changes();
    let snapshots: Vec<Snapshot> = all
        .iter()
        .map(|(change, _)| {
            backend.snapshot_internal(change, Timestamp::from_unix_millis(1)).expect("captured")
        })
        .collect();
    let receipts: Vec<ApplyReceipt> = all
        .iter()
        .zip(&snapshots)
        .map(|((change, _), snapshot)| backend.apply_internal(change, snapshot).expect("applied"))
        .collect();
    assert_eq!(backend.io().targets().expect("listed").len(), targets.len() + 2);
    for i in (0..all.len()).rev() {
        backend
            .restore_internal(&all[i].0, &snapshots[i], receipts[i].ownership_fingerprint)
            .expect("restored");
    }
    assert_eq!(backend.io().targets().expect("listed"), targets);
    for (i, (change, _)) in all.iter().enumerate() {
        assert_eq!(backend.read(change).expect("readable").typed, snapshots[i].original_typed);
    }
}

#[test]
fn changed_groups_are_not_written() {
    let mut backend = WorkloadBackend::from_fixture(host());
    let change = weight_change();
    let snapshot = backend
        .snapshot_internal(&change, Timestamp::from_unix_millis(1))
        .expect("captured");
    backend
        .fixture_mut()
        .external_set_cpu_weight(&group(2, "cgroup.games"), weight(300))
        .expect("someone else");
    let error = backend.apply_internal(&change, &snapshot).expect_err("another value");
    assert_eq!(error.message, "workload target changed before apply");
    assert_eq!(
        backend.read(&change).expect("readable").typed,
        TypedValue::CgroupCpuWeight(weight(300))
    );
}

#[test]
fn foreign_group_values_are_not_overwritten() {
    let mut backend = WorkloadBackend::from_fixture(host());
    let change = weight_change();
    let snapshot = backend
        .snapshot_internal(&change, Timestamp::from_unix_millis(1))
        .expect("captured");
    let receipt = backend.apply_internal(&change, &snapshot).expect("applied");
    backend
        .fixture_mut()
        .external_set_cpu_weight(&group(2, "cgroup.games"), weight(300))
        .expect("someone else");
    let error = backend
        .restore_internal(&change, &snapshot, receipt.ownership_fingerprint)
        .expect_err("someone else owns it");
    assert_eq!(error.code, ErrorCode::RestoreConflict);
    assert_eq!(
        backend.read(&change).expect("readable").typed,
        TypedValue::CgroupCpuWeight(weight(300))
    );
}

#[test]
fn replaced_groups_are_not_found() {
    let mut backend = WorkloadBackend::from_fixture(host());
    backend
        .fixture_mut()
        .replace_identity(&group(2, "cgroup.games"), group(9, "cgroup.games"))
        .expect("there");
    let error = backend.read(&weight_change()).expect_err("another object");
    assert_eq!(error.message, "cgroup target identity does not match discovery");
    let unknown = backend
        .io()
        .read(&group(2, "cgroup.unknown"), WorkloadNode::CpuWeight)
        .expect_err("no such group");
    assert_eq!(unknown.message, "cgroup target was not discovered");
}

#[test]
fn controllers_are_needed_and_delegated() {
    let mut backend = WorkloadBackend::from_fixture(host());
    let games = group(2, "cgroup.games");
    backend.fixture_mut().set_delegation(&games, "cpu", false).expect("there");
    assert_eq!(
        backend.io().read(&games, WorkloadNode::CpuWeight).expect_err("not delegated").code,
        ErrorCode::AuthorizationError
    );
    backend.fixture_mut().set_controller(&games, "cpu", false).expect("there");
    assert_eq!(
        backend.io().read(&games, WorkloadNode::CpuWeight).expect_err("not there").code,
        ErrorCode::Unsupported
    );
    assert_eq!(backend.io().read(&games, WorkloadNode::IoWeight).expect("there"), b"100\n");
    assert_eq!(backend.io().read(&games, WorkloadNode::CpusetCpus).expect("there"), b"0,1\n");
    assert_eq!(
        backend.io().read(&root(), WorkloadNode::CpuMax).expect("there"),
        b"max 100000\n"
    );
}

#[test]
fn groups_that_are_used_are_not_removed() {
    let mut backend = WorkloadBackend::from_fixture(host());
    let (change, _) = changes().remove(6);
    let snapshot = backend
        .snapshot_internal(&change, Timestamp::from_unix_millis(1))
        .expect("captured");
    let receipt = backend.apply_internal(&change, &snapshot).expect("made");
    let made = backend
        .io()
        .targets()
        .expect("listed")
        .into_iter()
        .find(|target| target.relative_path == "boost")
        .expect("made");
    assert_eq!(made.identity, group(3, "cgroup.root.boost"));
    backend
        .fixture_mut()
        .add_process(process(11), &made.identity, nice(0), best_effort(4))
        .expect("there");
    let error = backend
        .restore_internal(&change, &snapshot, receipt.ownership_fingerprint)
        .expect_err("a process is in it");
    assert_eq!(error.message, "managed cgroup is not empty and cannot be removed safely");
    backend.fixture_mut().remove_process(process(11));
    backend
        .restore_internal(&change, &snapshot, receipt.ownership_fingerprint)
        .expect("now it is empty");
}

#[test]
fn child_groups_inherit_from_their_parent() {
    let mut fixture = host();
    let games = group(2, "cgroup.games");
    fixture.set_controller(&games, "io", false).expect("there");
    let refused = fixture
        .add_child_group(&games, &name("one"), group(5, "cgroup.other"))
        .expect_err("another handle");
    assert_eq!(refused.message, "fixture child identity handle is not canonical");
    let child = fixture
        .add_child_group(&games, &name("one"), group(5, "cgroup.games.one"))
        .expect("canonical");
    let backend = WorkloadBackend::from_fixture(fixture);
    assert!(backend.io().read(&child, WorkloadNode::IoWeight).is_err());
    let listed = backend.io().targets().expect("listed");
    assert_eq!(listed[1].relative_path, "games/one");
    assert_eq!(listed[2].relative_path, "");
}

#[test]
fn clamps_do_not_cross() {
    let backend = WorkloadBackend::from_fixture(host());
    let high = mutation(
        1,
        MutationKind::CgroupUclampMin {
            cgroup: group(2, "cgroup.games"),
            value: UclampValue::Max,
        },
        "cgroup.games",
        TypedValue::CgroupUclamp(UclampValue::Value(0)),
    );
    let identity = cgroup_identity(&group(2, "cgroup.games"));
    assert_eq!(
        backend.validate_target(&high, identity).expect_err("no limit below").code,
        ErrorCode::InvalidInput
    );
    let mut fixture = host();
    fixture.add_group(group(2, "cgroup.games"), "games");
    let mut backend = WorkloadBackend::from_fixture(fixture);
    let low = changes().remove(4).0;
    let snapshot = backend
        .snapshot_internal(&low, Timestamp::from_unix_millis(1))
        .expect("captured");
    backend.apply_internal(&low, &snapshot).expect("512 is below the highest");
    let crossed = mutation(
        2,
        MutationKind::CgroupUclampMax {
            cgroup: group(2, "cgroup.games"),
            value: UclampValue::Value(511),
        },
        "cgroup.games",
        TypedValue::CgroupUclamp(UclampValue::Max),
    );
    assert_eq!(
        backend.validate_target(&crossed, identity).expect_err("crossed").message,
        "cgroup uclamp minimum exceeds maximum"
    );
}

#[test]
fn other_capabilities_are_not_owned() {
    let backend = WorkloadBackend::from_fixture(host());
    let mut change = weight_change();
    change.capability = CapabilityId::new("cgroup.cpu.max").expect("valid capability");
    let error = backend
        .validate_admission(&change, cgroup_identity(&group(2, "cgroup.games")))
        .expect_err("another capability");
    assert_eq!(error.message, "workload backend does not own operation/capability");
}

#[test]
fn processes_are_inspected() {
    let backend = WorkloadBackend::from_fixture(host());
    assert_eq!(backend.io().read_nice(process(10)).expect("there"), nice(0));
    assert_eq!(backend.io().read_placement(process(10)).expect("there"), root());
    assert_eq!(backend.io().read_ioprio(process(10)).expect("there"), best_effort(4));
    assert_eq!(
        backend.io().read_nice(process(12)).expect_err("gone").message,
        "fixture process disappeared"
    );
}

#[test]
fn fixture_capabilities_follow_the_hierarchy() {
    let state = |fixture: CgroupFixture, id: &str| {
        WorkloadBackend::from_fixture(fixture)
            .detect(&FixedClock::new(Timestamp::from_unix_millis(3)))
            .expect("described")
            .capabilities
            .iter()
            .find(|capability| capability.id.as_str() == id)
            .expect("described")
            .state
    };
    assert_eq!(state(host(), "cgroup.cpu.weight"), CapabilityState::Available);
    assert_eq!(state(host(), "scheduler.nice"), CapabilityState::Available);
    assert_eq!(state(CgroupFixture::new(), "scheduler.nice"), CapabilityState::Unsupported);
    let mut denied = CgroupFixture::new();
    denied.set_delegation(&root(), "io", false).expect("there");
    assert_eq!(state(denied, "cgroup.io.weight"), CapabilityState::Denied);
    let mut missing = CgroupFixture::new();
    missing.set_controller(&root(), "cpuset", false).expect("there");
    assert_eq!(state(missing, "cgroup.cpuset.cpus"), CapabilityState::Unsupported);
}

#[test]
fn catalogs_are_complete() {
    let workload = workload_operation_catalog();
    assert_eq!(workload.contracts().len(), 11);
    for contract in workload.contracts() {
        contract.validate().expect("valid");
        assert_eq!(contract.backend.as_str(), WORKLOAD_BACKEND_ID);
    }
    let linux = linux_operation_catalog();
    assert_eq!(linux.contracts().len(), 16);
    assert_eq!(linux.contracts()[0].backend.as_str(), CPU_BACKEND_ID);
    assert_eq!(linux.contracts()[15].operation.as_str(), "scheduler.ioprio");
}

#[test]
fn capability_states_are_combined() {
    assert_eq!(capability_state(None), CapabilityState::Available);
    assert_eq!(
        capability_state(Some(ErrorCode::AuthorizationError)),
        CapabilityState::Denied
    );
    assert_eq!(
        combine_capability_states(CapabilityState::Available, CapabilityState::Denied),
        CapabilityState::Denied
    );
    assert_eq!(
        combine_capability_states(CapabilityState::Available, CapabilityState::Available),
        CapabilityState::Available
    );
    assert_eq!(
        probed_state(&vec![Some(ErrorCode::AuthorizationError), Some(ErrorCode::Unsupported)]),
        CapabilityState::Denied
    );
    assert_eq!(
        probed_state(&vec![Some(ErrorCode::Unsupported), None]),
        CapabilityState::Available
    );
    assert_eq!(probed_state(&Vec::new()), CapabilityState::Unsupported);
    let states = HostStates {
        cpu_weight: CapabilityState::Available,
        cpu_max: CapabilityState::Available,
        cpuset: CapabilityState::Denied,
        io_weight: CapabilityState::Unsupported,
        uclamp_min: CapabilityState::Available,
        uclamp_max: CapabilityState::Unsupported,
        controller: CapabilityState::Available,
        placement: CapabilityState::Available,
        nice: CapabilityState::Available,
    };
    let described = host_capabilities(states);
    assert_eq!(described.len(), 10);
    assert_eq!(described[4].state, CapabilityState::Unsupported);
    assert_eq!(described[9].state, CapabilityState::Unsupported);
}

#[test]
fn children_go_to_one_group() {
    let supervisor = ChildProcessSupervisor::new(group(2, "cgroup.games"));
    assert_eq!(supervisor.destination(), &group(2, "cgroup.games"));
    assert_eq!(
        supervisor.on_child_started(process(12)),
        MutationKind::ProcessPlacement { process: process(12), cgroup: group(2, "cgroup.games") }
    );
    supervisor.on_child_exited(process(12));
}

#[test]
fn written_controls_parse_back() {
    let games = || group(2, "cgroup.games");
    for (kind, node, expected) in [
        (
            MutationKind::CgroupCpuWeight { cgroup: games(), weight: weight(250) },
            WorkloadNode::CpuWeight,
            "250",
        ),
        (
            MutationKind::CgroupIoWeight {
                cgroup: games(),
                weight: IoWeight::new(50).expect("valid weight"),
            },
            WorkloadNode::IoWeight,
            "default 50",
        ),
        (
            MutationKind::CgroupCpuset {
                cgroup: games(),
                cpus: CpuSet::new(vec![5, 1]).expect("not empty"),
            },
            WorkloadNode::CpusetCpus,
            "1,5",
        ),
    ] {
        let desired = kind.typed_value();
        match plan_write(&kind, &desired).expect("writable") {
            WorkloadWrite::Control { node: planned, text: value, .. } => {
                assert_eq!(planned, node);
                assert_eq!(value, expected);
                check_workload_value(&value).expect("one short line");
                assert_eq!(
                    parse_workload_node(node, value.as_bytes()).expect("readable"),
                    desired
                );
            }
            other => panic!("not a control: {other:?}"),
        }
    }
}

#[test]
fn process_numbers_are_rendered_for_the_kernel() {
    assert_eq!(render_placement(process(4321)).expect("a number"), "4321\n");
    let zero = ProcessId { pid: 0, start_time_ticks: 1 };
    assert_eq!(
        render_placement(zero).expect_err("no process").message,
        "process PID is invalid"
    );
}

#[test]
fn process_status_is_held_against_the_identity() {
    let stat = b"10 (a b) c) S 1 1 1 0 -1 4194560 1 2 3 4 5 6 7 8 20 0 1 0 77 1 2\n";
    assert_eq!(check_process(process(10), stat).expect("the same start"), process(10));
    let other = ProcessId::new(10, 78).expect("valid process");
    assert!(check_process(other, stat).is_err());
}

#[test]
fn unified_groups_are_found_among_others() {
    assert_eq!(
        parse_group_path(b"4:cpu:/x\n0::/user.slice/app\n").expect("unified"),
        "user.slice/app"
    );
    assert!(parse_group_path(b"4:cpu:/x\n").is_err());
    assert_eq!(parse_group_path(b"0::/\n").expect("the root"), "");
}

#[test]
fn removals_need_an_empty_group() {
    check_removal(b"\n", &vec![Some("cgroup.procs".to_string())]).expect("only own files");
    assert!(check_removal(b"12\n", &Vec::new()).is_err());
}

/// A host that takes every write and forgets it.
struct Forgetful {
    written: Vec<TypedValue>,
}

impl WorkloadControlIo for Forgetful {
    type Model = ();

    fn capabilities(&self) -> Result<Vec<CapabilityDescriptor>, SysboostError> {
        Ok(Vec::new())
    }

    fn targets(&self) -> Result<Vec<WorkloadTarget>, SysboostError> {
        Ok(Vec::new())
    }

    fn read_node(&self, _group: &CgroupId, _node: WorkloadNode) -> Result<Vec<u8>, SysboostError> {
        Ok(b"100\n".to_vec())
    }

    fn read_mutation(&self, _kind: &MutationKind) -> Result<WorkloadObservation, SysboostError> {
        WorkloadObservation::new(
            b"100\n".to_vec(),
            TypedValue::CgroupCpuWeight(weight(100)),
            TargetIdentity::from_bytes([1; 16]),
        )
    }

    fn read_process(&self, kind: &MutationKind) -> Result<WorkloadObservation, SysboostError> {
        self.read_mutation(kind)
    }

    fn validate_desired(
        &self,
        _kind: &MutationKind,
        _value: &TypedValue,
    ) -> Result<(), SysboostError> {
        Ok(())
    }

    fn write_mutation(
        &mut self,
        _kind: &MutationKind,
        value: &TypedValue,
    ) -> Result<(), SysboostError> {
        self.written.push(value.clone());
        Ok(())
    }
}

#[test]
fn forgotten_group_writes_are_noticed() {
    let mut backend = WorkloadBackend::new(Forgetful { written: Vec::new() });
    let change = weight_change();
    let snapshot = backend
        .snapshot_internal(&change, Timestamp::from_unix_millis(1))
        .expect("captured");
    let error = backend.apply_internal(&change, &snapshot).expect_err("nothing was kept");
    assert_eq!(error.code, ErrorCode::VerificationError);
    let receipt = backend
        .restore_internal(
            &change,
            &snapshot,
            fingerprint_for_value(&TypedValue::CgroupCpuWeight(weight(100))),
        )
        .expect("the original is there");
    assert_eq!(
        receipt.restored_fingerprint,
        fingerprint_for_value(&TypedValue::CgroupCpuWeight(weight(100)))
    );
    assert!(receipt.verified);
}
