use sysboost::clock::{FixedClock, Timestamp};
use sysboost::cpu::CpuBackend;
use sysboost::cpu_fixture::CpuFixture;
use sysboost::cpu_node::{CpuBoostInterface, CpuNode};
use sysboost::error::{ErrorCode, Retryability, Stage, SysboostError};
use sysboost::ids::{
    BackendId, CapabilityId, GovernorId, MutationId, PlanId, SessionId, StateFingerprint, TargetId,
    TargetIdentity,
};
use sysboost::mutation::{
    EqualityKind, MutationKind, Plan, PlanAction, PlanItem, PlannedMutation, RestoreReceipt,
};
use sysboost::privilege::{ApprovedPlanCatalog, PrivilegeBroker, PrivilegeService};
use sysboost::process::ProcessIdentity;
use sysboost::protocol::{Request, RequestId, Response, WireCodec};
use sysboost::registry::{BackendRegistry, ReportOnlyBackend};
use sysboost::session::{SessionRecord, SessionState};
use sysboost::state::{ExclusiveSessionLock, SessionIdSource, SessionStateStore};
use sysboost::transaction::{
    accept_restore, combine_failure, decide_restore, RestoreDecision,
    TransactionEngine, TransactionStatus,
};
use sysboost::value::{
    fingerprint_for_value, CgroupId, CpuBoostState, CpuPolicyId, CpuWeight, EnergyPreference,
    FrequencyKHz, IoPriority, IoPriorityClass, NiceValue, ProcessId, TypedValue,
};
use sysboost::workload::WorkloadBackend;
use sysboost::workload_fixture::CgroupFixture;
use sysboost::workload_node::{cgroup_identity, process_identity};

struct MemoryStore {
    records: Vec<SessionRecord>,
    broken: bool,
}

fn missing() -> SysboostError {
    SysboostError::new(ErrorCode::DurabilityError, "no such record")
}

impl SessionStateStore for MemoryStore {
    fn create(&mut self, record: &SessionRecord) -> Result<(), SysboostError> {
        if self.broken {
            return Err(missing());
        }
        if self.records.iter().any(|known| known.session_id == record.session_id) {
            return Err(SysboostError::new(ErrorCode::InvariantViolation, "known session"));
        }
        self.records.push(record.clone());
        Ok(())
    }

    fn replace(&mut self, record: &SessionRecord) -> Result<(), SysboostError> {
        if self.broken {
            return Err(missing());
        }
        for known in self.records.iter_mut() {
            if known.session_id == record.session_id {
                *known = record.clone();
                return Ok(());
            }
        }
        Err(missing())
    }

    fn load(&self, session_id: SessionId) -> Result<SessionRecord, SysboostError> {
        self.records
            .iter()
            .find(|known| known.session_id == session_id)
            .cloned()
            .ok_or_else(missing)
    }

    fn load_unfinished(&self) -> Result<Vec<SessionRecord>, SysboostError> {
        Ok(self
            .records
            .iter()
            .filter(|known| known.state != SessionState::Restored)
            .cloned()
            .collect())
    }

    fn remove(&mut self, session_id: SessionId) -> Result<(), SysboostError> {
        self.records.retain(|known| known.session_id != session_id);
        Ok(())
    }
}

struct OpenLock;

impl ExclusiveSessionLock for OpenLock {
    type Guard = ();

    fn acquire(&mut self) -> Result<(), SysboostError> {
        Ok(())
    }
}

struct CountingIds {
    next: u8,
}

impl SessionIdSource for CountingIds {
    fn next_id(&mut self) -> Result<SessionId, SysboostError> {
        self.next += 1;
        Ok(SessionId::from_bytes([self.next; 16]))
    }
}

type Engine = TransactionEngine<CpuBackend<CpuFixture>, MemoryStore, OpenLock, CountingIds, FixedClock>;

fn identity(value: u8) -> TargetIdentity {
    TargetIdentity::from_bytes([value; 16])
}

fn governor(value: &str) -> GovernorId {
    GovernorId::new(value).expect("valid governor")
}

fn frequency(value: u64) -> FrequencyKHz {
    FrequencyKHz::new(value).expect("valid frequency")
}

fn host() -> CpuFixture {
    let mut fixture = CpuFixture::new();
    fixture.add_policy(
        CpuPolicyId::new(0),
        identity(1),
        governor("schedutil"),
        vec![governor("schedutil"), governor("performance")],
        EnergyPreference::BalancePerformance,
        vec![EnergyPreference::BalancePerformance, EnergyPreference::Performance],
        frequency(800_000),
        frequency(3_600_000),
        frequency(400_000),
        frequency(4_000_000),
    );
    fixture.set_boost(identity(3), CpuBoostInterface::Boost, CpuBoostState::Enabled);
    fixture
}

fn engine_over(records: Vec<SessionRecord>, fixture: CpuFixture) -> Engine {
    TransactionEngine::new(
        CpuBackend::from_fixture(fixture),
        MemoryStore { records, broken: false },
        OpenLock,
        CountingIds { next: 0 },
        FixedClock::new(Timestamp::from_unix_millis(5)),
    )
}

fn mutation(
    id: u32,
    capability: &str,
    target: &str,
    kind: MutationKind,
    original: TypedValue,
) -> PlannedMutation {
    let desired = kind.typed_value();
    PlannedMutation::new(
        MutationId::new(id),
        CapabilityId::new(capability).expect("valid capability"),
        TargetId::new(target).expect("valid target"),
        kind,
        desired,
        fingerprint_for_value(&original),
        EqualityKind::ScalarExact,
        Vec::new(),
    )
    .expect("valid mutation")
}

fn governor_change() -> PlannedMutation {
    mutation(
        1,
        "cpu.policy.governor",
        "cpu.policy.0",
        MutationKind::CpuGovernor { policy: CpuPolicyId::new(0), governor: governor("performance") },
        TypedValue::Governor(governor("schedutil")),
    )
}

fn boost_change() -> PlannedMutation {
    mutation(
        2,
        "cpu.policy.boost",
        "system.cpu.boost",
        MutationKind::CpuBoost { state: CpuBoostState::Disabled },
        TypedValue::CpuBoost(CpuBoostState::Enabled),
    )
}

fn plan() -> Plan {
    let item = |mutation: PlannedMutation, target: TargetIdentity| PlanItem {
        action: PlanAction::Mutation,
        mutation: Some(mutation),
        backend: Some(BackendId::new("linux.cpu").expect("valid backend")),
        target_identity: Some(target),
    };
    Plan {
        id: PlanId::from_bytes([4; 16]),
        plan_digest: [6; 32],
        mutations: vec![governor_change(), boost_change()],
        items: vec![
            item(governor_change(), identity(1)),
            item(boost_change(), identity(3)),
        ],
    }
}

fn held(engine: &Engine) -> (TypedValue, TypedValue) {
    let io = engine.backend().io();
    (
        io.read(CpuNode::Governor(CpuPolicyId::new(0))).expect("readable").typed,
        io.read(CpuNode::Boost(None)).expect("readable").typed,
    )
}

fn untouched() -> (TypedValue, TypedValue) {
    (
        TypedValue::Governor(governor("schedutil")),
        TypedValue::CpuBoost(CpuBoostState::Enabled),
    )
}

#[test]
fn status_type_keeps_session_identity_and_state_together() {
    let status = TransactionStatus {
        session_id: SessionId::from_bytes([1; 16]),
        state: SessionState::IntentDurable,
    };
    assert_eq!(status.session_id, SessionId::from_bytes([1; 16]));
    assert_eq!(status.state, SessionState::IntentDurable);
}

#[test]
fn a_session_leaves_the_host_as_it_was() {
    let mut engine = engine_over(Vec::new(), host());
    let session = engine.prepare(&plan()).expect("prepared");
    assert_eq!(held(&engine), untouched());
    assert_eq!(
        engine.status(session).expect("durable").state,
        SessionState::IntentDurable
    );
    assert_eq!(engine.apply(session).expect("applied"), SessionState::Active);
    assert_eq!(
        held(&engine),
        (
            TypedValue::Governor(governor("performance")),
            TypedValue::CpuBoost(CpuBoostState::Disabled),
        )
    );
    assert_eq!(engine.apply(session).expect("again"), SessionState::Active);
    assert_eq!(engine.restore(session).expect("restored"), SessionState::Restored);
    assert_eq!(held(&engine), untouched());
    assert_eq!(engine.restore(session).expect("again"), SessionState::Restored);
    engine.prepare(&plan()).expect("the lease was given back");
}

#[test]
fn a_failed_apply_is_rolled_back() {
    let mut engine = engine_over(Vec::new(), host());
    let session = engine.prepare(&plan()).expect("prepared");
    engine
        .backend_mut()
        .fixture_mut()
        .fail_writes_for(CpuNode::Boost(Some(CpuBoostInterface::Boost)));
    let error = engine.apply(session).expect_err("the second write fails");
    assert_eq!(error.code, ErrorCode::ApplyError);
    assert_eq!(error.stage, Some(Stage::Apply));
    assert_eq!(error.session, Some(session));
    assert_eq!(error.mutation, Some(MutationId::new(2)));
    assert_eq!(held(&engine), untouched());
    assert_eq!(engine.status(session).expect("durable").state, SessionState::Restored);
}

#[test]
fn foreign_values_are_kept_and_reported() {
    let mut engine = engine_over(Vec::new(), host());
    let session = engine.prepare(&plan()).expect("prepared");
    engine.apply(session).expect("applied");
    engine
        .backend_mut()
        .fixture_mut()
        .replace_policy_identity(CpuPolicyId::new(0), identity(8));
    let error = engine.restore(session).expect_err("the policy is another object");
    assert_eq!(error.code, ErrorCode::TargetError);
    assert_eq!(engine.status(session).expect("durable").state, SessionState::Degraded);
    assert_eq!(
        held(&engine),
        (
            TypedValue::Governor(governor("performance")),
            TypedValue::CpuBoost(CpuBoostState::Enabled),
        )
    );
    engine
        .backend_mut()
        .fixture_mut()
        .replace_policy_identity(CpuPolicyId::new(0), identity(1));
    assert_eq!(engine.restore(session).expect("the object is back"), SessionState::Restored);
    assert_eq!(held(&engine), untouched());
}

#[test]
fn unfinished_sessions_are_recovered_first() {
    let mut first = engine_over(Vec::new(), host());
    let session = first.prepare(&plan()).expect("prepared");
    first.apply(session).expect("applied");
    let records = vec![first.state_store().load(session).expect("durable")];
    let mut fixture = host();
    fixture.set_boost(identity(3), CpuBoostInterface::Boost, CpuBoostState::Disabled);
    fixture.add_policy(
        CpuPolicyId::new(0),
        identity(1),
        governor("performance"),
        vec![governor("schedutil"), governor("performance")],
        EnergyPreference::BalancePerformance,
        vec![EnergyPreference::BalancePerformance],
        frequency(800_000),
        frequency(3_600_000),
        frequency(400_000),
        frequency(4_000_000),
    );

    let mut second = engine_over(records, fixture);
    let error = second.prepare(&plan()).expect_err("recovery comes first");
    assert_eq!(error.code, ErrorCode::AuthorizationError);
    assert_eq!(error.retryability, Retryability::AfterRecovery);
    let statuses = second.recover_unfinished().expect("recovered");
    assert_eq!(statuses.len(), 1);
    assert_eq!(statuses[0].session_id, session);
    assert_eq!(statuses[0].state, SessionState::Restored);
    assert_eq!(held(&second), untouched());
}

#[test]
fn nothing_is_applied_without_a_durable_intent() {
    let mut engine = engine_over(Vec::new(), host());
    engine.state_store_mut().broken = true;
    let error = engine.prepare(&plan()).expect_err("the intent is not durable");
    assert_eq!(error.code, ErrorCode::DurabilityError);
    assert_eq!(error.stage, Some(Stage::DurableIntent));
    assert_eq!(held(&engine), untouched());
    let unknown = engine.apply(SessionId::from_bytes([1; 16])).expect_err("no lease");
    assert_eq!(unknown.code, ErrorCode::AuthorizationError);
}

#[test]
fn prepared_sessions_can_be_aborted() {
    let mut engine = engine_over(Vec::new(), host());
    let session = engine.prepare(&plan()).expect("prepared");
    engine.abort_prepared(session).expect("nothing was applied");
    assert!(engine.status(session).is_err());
    let session = engine.prepare(&plan()).expect("prepared again");
    engine.apply(session).expect("applied");
    assert!(engine.abort_prepared(session).is_err());
}

#[test]
fn identities_that_are_taken_are_not_used_again() {
    let mut engine = engine_over(Vec::new(), host());
    let first = engine.prepare(&plan()).expect("prepared");
    engine.apply(first).expect("applied");
    engine.restore(first).expect("restored");
    let mut records = vec![engine.state_store().load(first).expect("durable")];
    records[0].state = SessionState::Restored;
    let mut other = engine_over(records, host());
    let second = other.prepare(&plan()).expect("another identity");
    assert_ne!(first, second);
}

#[test]
fn empty_plans_do_not_enter_the_engine() {
    let mut engine = engine_over(Vec::new(), host());
    let empty = Plan {
        id: PlanId::from_bytes([4; 16]),
        plan_digest: [6; 32],
        mutations: Vec::new(),
        items: Vec::new(),
    };
    let error = engine.prepare(&empty).expect_err("nothing to do");
    assert_eq!(error.code, ErrorCode::AuthorizationError);
    assert_eq!(error.stage, Some(Stage::Plan));
}

#[test]
fn restore_decisions() {
    let print = |n: u8| StateFingerprint::from_bytes([n; 32]);
    assert_eq!(
        decide_restore(print(1), print(1), print(2)),
        RestoreDecision::AlreadyOriginal
    );
    assert_eq!(decide_restore(print(2), print(1), print(2)), RestoreDecision::Write);
    assert_eq!(decide_restore(print(3), print(1), print(2)), RestoreDecision::Conflict);
}

#[test]
fn failures_of_a_rollback_are_combined() {
    let session = SessionId::from_bytes([7; 16]);
    let error = combine_failure(
        SysboostError::new(ErrorCode::ApplyError, "first"),
        SysboostError::new(ErrorCode::RestoreConflict, "second"),
        session,
    );
    assert_eq!(error.code, ErrorCode::RestoreConflict);
    assert_eq!(
        error.message,
        "transaction failed with ApplyError; rollback also failed with RestoreConflict"
    );
    assert_eq!(error.retryability, Retryability::AfterRecovery);
    assert_eq!(error.session, Some(session));
}

fn peer() -> ProcessIdentity {
    ProcessIdentity::with_boot_id(10, 20, [9; 16]).expect("strong identity")
}

fn service() -> PrivilegeService<CpuBackend<CpuFixture>, MemoryStore, OpenLock, CountingIds, FixedClock>
{
    let mut service =
        PrivilegeService::new(engine_over(Vec::new(), host()), peer()).expect("nothing to recover");
    service.register_plan(plan()).expect("approved");
    service
}

fn number(value: u64) -> RequestId {
    RequestId::new(value).expect("not zero")
}

#[test]
fn approved_plans_are_run_for_the_peer() {
    let mut service = service();
    let frame = Request::Prepare {
        request_id: number(1),
        plan_id: PlanId::from_bytes([4; 16]),
        plan_digest: [6; 32],
    }
    .encode()
    .expect("bounded");
    let answer = service.handle_frame(Some(peer()), &frame).expect("answered");
    let session_id = match Response::decode(&answer).expect("a response") {
        Response::Accepted { session_id, .. } => session_id,
        other => panic!("not accepted: {other:?}"),
    };
    for (n, request, state) in [
        (2, Request::Apply { request_id: number(2), session_id }, SessionState::Active),
        (3, Request::Status { request_id: number(3), session_id }, SessionState::Active),
        (4, Request::Restore { request_id: number(4), session_id }, SessionState::Restored),
    ] {
        let frame = request.encode().expect("bounded");
        let answer = service.handle_frame(Some(peer()), &frame).expect("answered");
        assert_eq!(
            Response::decode(&answer).expect("a response"),
            Response::Status { request_id: number(n), session_id, state }
        );
    }
}

#[test]
fn requests_are_answered_once_and_only_to_the_peer() {
    let mut service = service();
    let frame = Request::Status {
        request_id: number(3),
        session_id: SessionId::from_bytes([1; 16]),
    }
    .encode()
    .expect("bounded");
    let stranger = ProcessIdentity::with_boot_id(11, 20, [9; 16]).expect("strong identity");
    assert_eq!(
        service.handle_frame(Some(stranger), &frame).expect_err("a stranger").code,
        ErrorCode::AuthorizationError
    );
    assert!(service.handle_frame(None, &frame).is_err());
    let answer = service.handle_frame(Some(peer()), &frame).expect("answered");
    assert_eq!(
        Response::decode(&answer).expect("a response"),
        Response::Rejected { request_id: number(3), code: ErrorCode::AuthorizationError }
    );
    assert!(service.handle_frame(Some(peer()), &frame).is_err());
}

#[test]
fn plans_that_were_not_approved_are_refused() {
    let mut service = service();
    let mut other = plan();
    other.plan_digest = [7; 32];
    let error = service.prepare_for_peer(peer(), &other).expect_err("another digest");
    assert_eq!(error.code, ErrorCode::AuthorizationError);
    let mut wrong = service.prepare_for_peer(peer(), &plan()).expect("approved");
    wrong.plan_digest = [7; 32];
    assert_eq!(
        service.apply_for_peer(peer(), wrong).expect_err("a made-up handle").code,
        ErrorCode::AuthorizationError
    );
}

#[test]
fn plans_are_approved_once() {
    let mut catalog = ApprovedPlanCatalog::new();
    catalog.register(plan()).expect("new");
    assert!(catalog.get(PlanId::from_bytes([4; 16]), [6; 32]).is_some());
    assert!(catalog.get(PlanId::from_bytes([4; 16]), [7; 32]).is_none());
    let mut changed = plan();
    changed.plan_digest = [7; 32];
    assert!(catalog.register(changed).is_err());
}

#[test]
fn receipts_prove_a_restoration() {
    let engine = engine_over(Vec::new(), host());
    let change = governor_change();
    let snapshot = engine
        .backend()
        .snapshot_internal(&change, Timestamp::from_unix_millis(1))
        .expect("captured");
    let good = RestoreReceipt {
        mutation_id: MutationId::new(1),
        restored_fingerprint: snapshot.original_fingerprint,
        verified: true,
    };
    assert!(accept_restore(&change, &snapshot, &good));
    assert!(!accept_restore(&change, &snapshot, &RestoreReceipt { verified: false, ..good }));
}

fn with_another(first: PlannedMutation) -> Plan {
    let mut plan = plan();
    plan.items.insert(
        0,
        PlanItem {
            action: PlanAction::Mutation,
            mutation: Some(first.clone()),
            backend: Some(BackendId::new("linux.cpu").expect("valid backend")),
            target_identity: Some(identity(1)),
        },
    );
    plan.mutations.insert(0, first);
    plan
}

#[test]
fn changes_that_change_nothing_are_not_prepared() {
    let same = mutation(
        3,
        "cpu.policy.governor",
        "cpu.policy.0",
        MutationKind::CpuGovernor { policy: CpuPolicyId::new(0), governor: governor("schedutil") },
        TypedValue::Governor(governor("schedutil")),
    );
    let mut engine = engine_over(Vec::new(), host());
    let error = engine.prepare(&with_another(same)).expect_err("nothing to change");
    assert_eq!(error.code, ErrorCode::InvariantViolation);
    assert_eq!(held(&engine), untouched());
}

#[test]
fn two_changes_of_one_control_are_rolled_back() {
    let earlier = mutation(
        3,
        "cpu.policy.governor",
        "cpu.policy.0",
        MutationKind::CpuGovernor { policy: CpuPolicyId::new(0), governor: governor("performance") },
        TypedValue::Governor(governor("schedutil")),
    );
    let mut engine = engine_over(Vec::new(), host());
    let session = engine.prepare(&with_another(earlier)).expect("prepared");
    assert!(engine.apply(session).is_err());
    assert_eq!(held(&engine), untouched());
}

#[test]
fn a_session_leaves_the_groups_as_they_were() {
    let games = || CgroupId::new(1, 2, TargetId::new("cgroup.games").expect("valid target"));
    let player = ProcessId::new(10, 77).expect("valid process");
    let ordinary = NiceValue::new(0).expect("valid nice value");
    let mut fixture = CgroupFixture::new();
    let root = fixture.root_id();
    fixture.add_group(games(), "games");
    fixture
        .add_process(
            player,
            &root,
            ordinary,
            IoPriority::new(IoPriorityClass::BestEffort, 4).expect("valid priority"),
        )
        .expect("the root is there");
    let changes = vec![
        (
            mutation(
                1,
                "cgroup.cpu.weight",
                "cgroup.games",
                MutationKind::CgroupCpuWeight {
                    cgroup: games(),
                    weight: CpuWeight::new(900).expect("valid weight"),
                },
                TypedValue::CgroupCpuWeight(CpuWeight::new(100).expect("valid weight")),
            ),
            cgroup_identity(&games()),
        ),
        (
            mutation(
                2,
                "process.placement",
                player.target_id().as_str(),
                MutationKind::ProcessPlacement { process: player, cgroup: games() },
                TypedValue::ProcessPlacement(root),
            ),
            process_identity(player),
        ),
        (
            mutation(
                3,
                "process.nice",
                player.target_id().as_str(),
                MutationKind::ProcessNice {
                    process: player,
                    nice: NiceValue::new(-5).expect("valid nice value"),
                },
                TypedValue::Nice(ordinary),
            ),
            process_identity(player),
        ),
    ];
    let plan = Plan {
        id: PlanId::from_bytes([4; 16]),
        plan_digest: [6; 32],
        mutations: changes.iter().map(|(change, _)| change.clone()).collect(),
        items: changes
            .iter()
            .map(|(change, target)| PlanItem {
                action: PlanAction::Mutation,
                mutation: Some(change.clone()),
                backend: Some(BackendId::new("linux.workload").expect("valid backend")),
                target_identity: Some(*target),
            })
            .collect(),
    };
    let mut engine = TransactionEngine::new(
        WorkloadBackend::from_fixture(fixture),
        MemoryStore { records: Vec::new(), broken: false },
        OpenLock,
        CountingIds { next: 0 },
        FixedClock::new(Timestamp::from_unix_millis(5)),
    );
    let session = engine.prepare(&plan).expect("prepared");
    let read = |backend: &WorkloadBackend<CgroupFixture>| -> Vec<TypedValue> {
        changes.iter().map(|(change, _)| backend.read(change).expect("readable").typed).collect()
    };
    let before = read(engine.backend());
    assert_eq!(engine.apply(session).expect("applied"), SessionState::Active);
    let during = read(engine.backend());
    for ((change, _), value) in changes.iter().zip(&during) {
        assert_eq!(*value, change.desired);
    }
    assert_eq!(engine.restore(session).expect("restored"), SessionState::Restored);
    assert_eq!(read(engine.backend()), before);
}

#[test]
fn prepared_sessions_can_be_restored() {
    let mut engine = engine_over(Vec::new(), host());
    let session = engine.prepare(&plan()).expect("prepared");
    assert_eq!(engine.restore(session).expect("nothing to restore"), SessionState::Restored);
    assert_eq!(held(&engine), untouched());
}

#[test]
fn restores_that_failed_can_be_tried_again() {
    let mut engine = engine_over(Vec::new(), host());
    let session = engine.prepare(&plan()).expect("prepared");
    engine.apply(session).expect("applied");
    engine
        .backend_mut()
        .fixture_mut()
        .fail_writes_for(CpuNode::Governor(CpuPolicyId::new(0)));
    let error = engine.restore(session).expect_err("a write fails");
    assert_eq!(error.code, ErrorCode::ApplyError);
    assert_ne!(engine.status(session).expect("durable").state, SessionState::Restored);
    assert_eq!(
        held(&engine),
        (
            TypedValue::Governor(governor("performance")),
            TypedValue::CpuBoost(CpuBoostState::Enabled),
        )
    );
    assert_eq!(engine.restore(session).expect("restored"), SessionState::Restored);
    assert_eq!(held(&engine), untouched());
}

#[test]
fn sessions_are_recovered_by_another_engine() {
    let mut first = engine_over(Vec::new(), host());
    let session = first.prepare(&plan()).expect("prepared");
    first.apply(session).expect("applied");
    let records = vec![first.state_store().load(session).expect("durable")];
    let mut second = engine_over(records, first.backend_mut().fixture_mut().clone());
    assert_ne!(held(&second), untouched());
    let statuses = second.recover_unfinished().expect("recovered");
    assert_eq!(statuses.len(), 1);
    assert_eq!(statuses[0].session_id, session);
    assert_eq!(statuses[0].state, SessionState::Restored);
    assert_eq!(held(&second), untouched());
}

#[test]
fn placements_that_read_back_otherwise_are_not_given_back() {
    let named = || TargetId::new("cgroup.games").expect("valid target");
    let player = ProcessId::new(10, 77).expect("valid process");
    let mut fixture = CgroupFixture::new();
    let root = fixture.root_id();
    fixture.add_group(CgroupId::new(1, 2, named()), "games");
    fixture
        .add_process(
            player,
            &root,
            NiceValue::new(0).expect("valid nice value"),
            IoPriority::new(IoPriorityClass::BestEffort, 4).expect("valid priority"),
        )
        .expect("the root is there");
    let change = mutation(
        1,
        "process.placement",
        player.target_id().as_str(),
        MutationKind::ProcessPlacement { process: player, cgroup: CgroupId::new(0, 0, named()) },
        TypedValue::ProcessPlacement(root),
    );
    let plan = Plan {
        id: PlanId::from_bytes([4; 16]),
        plan_digest: [6; 32],
        mutations: vec![change.clone()],
        items: vec![PlanItem {
            action: PlanAction::Mutation,
            mutation: Some(change.clone()),
            backend: Some(BackendId::new("linux.workload").expect("valid backend")),
            target_identity: Some(process_identity(player)),
        }],
    };
    let mut engine = TransactionEngine::new(
        WorkloadBackend::from_fixture(fixture),
        MemoryStore { records: Vec::new(), broken: false },
        OpenLock,
        CountingIds { next: 0 },
        FixedClock::new(Timestamp::from_unix_millis(5)),
    );
    let session = engine.prepare(&plan).expect("prepared");
    let error = engine.apply(session).expect_err("the group is read back with its numbers");
    assert_eq!(error.code, ErrorCode::VerificationError);
    assert_eq!(
        engine.backend().read(&change).expect("readable").typed,
        TypedValue::ProcessPlacement(CgroupId::new(1, 2, named()))
    );
}

#[test]
fn sessions_of_the_broker_can_be_taken_up_again() {
    let mut service =
        PrivilegeService::new(engine_over(Vec::new(), host()), peer()).expect("nothing to recover");
    let first = service.prepare(&plan()).expect("prepared");
    assert_eq!(first.owner, peer());
    assert_eq!(service.apply(first).expect("applied"), SessionState::Active);
    assert_eq!(PrivilegeBroker::status(&service, first).expect("known"), SessionState::Active);
    assert_eq!(service.restore(first).expect("restored"), SessionState::Restored);
    let second = service.prepare(&plan()).expect("the targets hold what was planned for");
    assert_ne!(second.session_id, first.session_id);
    assert_eq!(PrivilegeBroker::status(&service, first).expect("known"), SessionState::Restored);
    assert_eq!(service.restore(second).expect("restored"), SessionState::Restored);
    let mut other = plan();
    other.plan_digest = [7; 32];
    assert_eq!(
        service.prepare(&other).expect_err("the identity is bound").code,
        ErrorCode::AuthorizationError
    );
}

#[test]
fn sessions_over_several_backends_are_restored() {
    let games = || CgroupId::new(1, 2, TargetId::new("cgroup.games").expect("valid target"));
    let mut groups = CgroupFixture::new();
    groups.add_group(games(), "games");
    let mut registry = BackendRegistry::new();
    registry.register(Box::new(ReportOnlyBackend::new())).expect("unique backend");
    registry.register(Box::new(CpuBackend::from_fixture(host()))).expect("unique backend");
    registry.register(Box::new(WorkloadBackend::from_fixture(groups))).expect("unique backend");
    let weight = mutation(
        3,
        "cgroup.cpu.weight",
        "cgroup.games",
        MutationKind::CgroupCpuWeight {
            cgroup: games(),
            weight: CpuWeight::new(900).expect("valid weight"),
        },
        TypedValue::CgroupCpuWeight(CpuWeight::new(100).expect("valid weight")),
    );
    let mut plan = plan();
    plan.items.push(PlanItem {
        action: PlanAction::Mutation,
        mutation: Some(weight.clone()),
        backend: Some(BackendId::new("linux.workload").expect("valid backend")),
        target_identity: Some(cgroup_identity(&games())),
    });
    plan.mutations.push(weight);
    let mut engine = TransactionEngine::new(
        registry,
        MemoryStore { records: Vec::new(), broken: false },
        OpenLock,
        CountingIds { next: 0 },
        FixedClock::new(Timestamp::from_unix_millis(5)),
    );
    let first = engine.prepare(&plan).expect("prepared");
    assert_eq!(engine.apply(first).expect("applied"), SessionState::Active);
    assert_eq!(engine.restore(first).expect("restored"), SessionState::Restored);
    let second = engine.prepare(&plan).expect("the targets hold what was planned for");
    assert_eq!(engine.restore(second).expect("restored"), SessionState::Restored);
    assert_eq!(engine.backend().len(), 3);
}
