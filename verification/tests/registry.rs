use sysboost::backend::{BackendDescriptor, BackendExecutionToken, MutationBackend};
use sysboost::capability::CapabilityInventory;
use sysboost::clock::{Clock, FixedClock, Timestamp};
use sysboost::cpu::CpuBackend;
use sysboost::cpu_fixture::CpuFixture;
use sysboost::cpu_node::CpuBoostInterface;
use sysboost::error::{ErrorCode, SysboostError};
use sysboost::ids::{
    BackendId, CapabilityId, MutationId, OperationId, StateFingerprint, TargetId, TargetIdentity,
};
use sysboost::mutation::{
    ApplyReceipt, EqualityKind, MutationKind, PlannedMutation, RestoreReceipt, Snapshot,
};
use sysboost::registry::{BackendRegistry, ReportOnlyBackend};
use sysboost::value::{fingerprint_for_value, CpuBoostState, TypedValue};

struct StubBackend {
    descriptor: BackendDescriptor,
}

fn refused() -> SysboostError {
    SysboostError::new(ErrorCode::Unsupported, "registry test backend does nothing")
}

impl MutationBackend for StubBackend {
    fn descriptor(&self) -> &BackendDescriptor {
        &self.descriptor
    }

    fn detect(&self, _clock: &dyn Clock) -> Result<CapabilityInventory, SysboostError> {
        Err(refused())
    }

    fn snapshot(
        &self,
        _execution: &BackendExecutionToken,
        _mutation: &PlannedMutation,
        _now: Timestamp,
    ) -> Result<Snapshot, SysboostError> {
        Err(refused())
    }

    fn apply(
        &mut self,
        _execution: &BackendExecutionToken,
        _mutation: &PlannedMutation,
        _snapshot: &Snapshot,
    ) -> Result<ApplyReceipt, SysboostError> {
        Err(refused())
    }

    fn verify(
        &self,
        _execution: &BackendExecutionToken,
        _mutation: &PlannedMutation,
        _expected: StateFingerprint,
        _expected_target_identity: TargetIdentity,
    ) -> Result<StateFingerprint, SysboostError> {
        Err(refused())
    }

    fn restore(
        &mut self,
        _execution: &BackendExecutionToken,
        _mutation: &PlannedMutation,
        _snapshot: &Snapshot,
        _expected_ownership: StateFingerprint,
    ) -> Result<RestoreReceipt, SysboostError> {
        Err(refused())
    }
}

fn stub_backend(name: &str, capability: &str, operation: &str) -> StubBackend {
    StubBackend {
        descriptor: BackendDescriptor {
            id: BackendId::new(name).expect("valid backend ID"),
            version: "test".to_string(),
            capabilities: vec![CapabilityId::new(capability).expect("valid capability ID")],
            operations: vec![OperationId::new(operation).expect("valid operation ID")],
        },
    }
}

#[test]
fn registry_rejects_duplicate_capability_ownership() {
    let mut registry = BackendRegistry::new();
    registry
        .register(Box::new(stub_backend(
            "test.first",
            "shared.capability",
            "first.operation",
        )))
        .expect("first backend is unique");

    let error = registry
        .register(Box::new(stub_backend(
            "test.second",
            "shared.capability",
            "second.operation",
        )))
        .expect_err("capability ownership must be unique");
    assert_eq!(error.code, ErrorCode::InvariantViolation);
}

#[test]
fn registry_rejects_duplicate_operation_ownership() {
    let mut registry = BackendRegistry::new();
    registry
        .register(Box::new(stub_backend(
            "test.first",
            "first.capability",
            "shared.operation",
        )))
        .expect("first backend is unique");

    let error = registry
        .register(Box::new(stub_backend(
            "test.second",
            "second.capability",
            "shared.operation",
        )))
        .expect_err("operation ownership must be unique");
    assert_eq!(error.code, ErrorCode::InvariantViolation);
}

#[test]
fn report_only_backend_registers_without_mutation_operations() {
    let backend = ReportOnlyBackend::new();
    let mut registry = BackendRegistry::new();
    registry.register(Box::new(backend)).expect("unique backend");
    assert_eq!(registry.len(), 1);
    let inventory = registry
        .iter()
        .iter()
        .next()
        .expect("registered backend")
        .detect(&FixedClock::new(Timestamp::from_unix_millis(1)))
        .expect("report-only detection");
    assert!(inventory.capabilities.is_empty());
}

fn named(value: &str) -> BackendId {
    BackendId::new(value).expect("valid backend ID")
}

fn boost_change() -> PlannedMutation {
    let kind = MutationKind::CpuBoost { state: CpuBoostState::Disabled };
    let desired = kind.typed_value();
    PlannedMutation::new(
        MutationId::new(1),
        CapabilityId::new("cpu.policy.boost").expect("valid capability"),
        TargetId::new("system.cpu.boost").expect("valid target"),
        kind,
        desired,
        fingerprint_for_value(&TypedValue::CpuBoost(CpuBoostState::Enabled)),
        EqualityKind::ScalarExact,
        Vec::new(),
    )
    .expect("valid mutation")
}

fn boosted() -> CpuFixture {
    let mut fixture = CpuFixture::new();
    fixture.set_boost(
        TargetIdentity::from_bytes([3; 16]),
        CpuBoostInterface::Boost,
        CpuBoostState::Enabled,
    );
    fixture
}

#[test]
fn backends_own_their_own_name() {
    let stub = stub_backend("test.first", "first.capability", "first.operation");
    assert!(stub.owns_backend(&named("test.first")));
    assert!(!stub.owns_backend(&named("test.second")));
}

#[test]
fn registries_own_what_their_parts_own() {
    let mut registry = BackendRegistry::new();
    assert!(!registry.owns_backend(&named("test.first")));
    registry
        .register(Box::new(stub_backend("test.first", "first.capability", "first.operation")))
        .expect("unique backend");
    registry
        .register(Box::new(CpuBackend::from_fixture(boosted())))
        .expect("unique backend");
    assert_eq!(registry.len(), 2);
    assert_eq!(registry.iter()[1].descriptor().id, named("linux.cpu"));
    assert!(registry.owns_backend(&named("test.first")));
    assert!(registry.owns_backend(&named("linux.cpu")));
    assert!(!registry.owns_backend(&named("test.third")));
}

#[test]
fn admission_is_left_to_the_part_that_owns_the_capability() {
    let mutation = boost_change();
    let empty = BackendRegistry::new();
    assert!(empty
        .validate_admission(&mutation, TargetIdentity::from_bytes([3; 16]))
        .is_err());
    let mut registry = BackendRegistry::new();
    registry
        .register(Box::new(stub_backend("test.first", "first.capability", "first.operation")))
        .expect("unique backend");
    registry
        .register(Box::new(CpuBackend::from_fixture(boosted())))
        .expect("unique backend");
    registry
        .validate_admission(&mutation, TargetIdentity::from_bytes([3; 16]))
        .expect("the CPU backend owns the capability");
    assert!(registry
        .validate_admission(&mutation, TargetIdentity::from_bytes([4; 16]))
        .is_err());
    let stub = stub_backend("test.first", "first.capability", "first.operation");
    assert!(stub
        .validate_target(&mutation, TargetIdentity::from_bytes([3; 16]))
        .is_err());
}

struct StoppedClock;

impl Clock for StoppedClock {
    fn now(&self) -> Result<Timestamp, SysboostError> {
        Err(refused())
    }
}

#[test]
fn what_is_found_is_dated_by_the_clock() {
    let moment = Timestamp::from_unix_millis(9);
    let empty = BackendRegistry::new();
    let found = empty.detect(&FixedClock::new(moment)).expect("nothing to ask");
    assert!(found.capabilities.is_empty());
    assert_eq!(found.observed_at, moment);
    let undated = empty.detect(&StoppedClock).expect("nothing to ask");
    assert_eq!(undated.observed_at, Timestamp::from_unix_millis(0));
    let mut registry = BackendRegistry::new();
    registry.register(Box::new(ReportOnlyBackend::new())).expect("unique backend");
    let found = registry.detect(&FixedClock::new(moment)).expect("nothing to read");
    assert_eq!(found.observed_at, moment);
    assert!(registry.detect(&StoppedClock).is_err());
    registry
        .register(Box::new(stub_backend("test.first", "first.capability", "first.operation")))
        .expect("unique backend");
    assert_eq!(
        registry.detect(&FixedClock::new(moment)).expect_err("the stub finds nothing").code,
        ErrorCode::Unsupported
    );
}
