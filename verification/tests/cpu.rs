use sysboost::backend::MutationBackend;
use sysboost::capability::CapabilityState;
use sysboost::clock::{FixedClock, Timestamp};
use sysboost::cpu::{cpu_operation_catalog, CpuBackend, CpuControlIo, CPU_BACKEND_ID};
use sysboost::cpu_fixture::CpuFixture;
use sysboost::cpu_node::{
    check_frequency_bounds, check_frequency_request, check_kernel_value, list_policies,
    parse_choices, parse_node, plan_limit_writes, render_write, select_boost, CpuBoostInterface,
    CpuNode, CpuNodeState, Found, FrequencyLimit, PolicyEntry,
};
use sysboost::error::{ErrorCode, Retryability, SysboostError};
use sysboost::filesystem::EntryKind;
use sysboost::ids::{
    CapabilityId, GovernorId, MutationId, PlatformProfileId, TargetId, TargetIdentity,
};
use sysboost::mutation::{EqualityKind, MutationKind, PlannedMutation};
use sysboost::value::{
    fingerprint_for_value, CpuBoostState, CpuPolicyId, EnergyPreference, FrequencyKHz, TypedValue,
};

fn identity(value: u8) -> TargetIdentity {
    TargetIdentity::from_bytes([value; 16])
}

fn governor(value: &str) -> GovernorId {
    GovernorId::new(value).expect("fixture governor is valid")
}

fn frequency(value: u64) -> FrequencyKHz {
    FrequencyKHz::new(value).expect("fixture frequency is valid")
}

fn profile(value: &str) -> PlatformProfileId {
    PlatformProfileId::new(value).expect("valid profile")
}

fn range(min: u64, max: u64) -> TypedValue {
    TypedValue::CpuFrequency { min_khz: Some(frequency(min)), max_khz: Some(frequency(max)) }
}

fn policy_fixture() -> CpuFixture {
    let mut fixture = CpuFixture::new();
    fixture.add_policy(
        CpuPolicyId::new(0),
        identity(1),
        governor("schedutil"),
        vec![governor("schedutil"), governor("performance")],
        EnergyPreference::BalancePerformance,
        vec![EnergyPreference::BalancePerformance, EnergyPreference::Performance],
        frequency(800_000),
        frequency(3_600_000),
        frequency(400_000),
        frequency(4_000_000),
    );
    fixture
}

fn typed_mutation(
    mutation_id: u32,
    capability: &str,
    target: &str,
    kind: MutationKind,
    original: TypedValue,
) -> PlannedMutation {
    let desired = kind.typed_value();
    PlannedMutation::new(
        MutationId::new(mutation_id),
        CapabilityId::new(capability).expect("valid capability"),
        TargetId::new(target).expect("typed CPU target is valid"),
        kind,
        desired,
        fingerprint_for_value(&original),
        EqualityKind::ScalarExact,
        Vec::new(),
    )
    .expect("typed CPU mutation is valid")
}

fn governor_mutation(
    mutation_id: u32,
    policy: CpuPolicyId,
    original: &str,
    desired: &str,
) -> PlannedMutation {
    typed_mutation(
        mutation_id,
        "cpu.policy.governor",
        &format!("cpu.policy.{}", policy.get()),
        MutationKind::CpuGovernor { policy, governor: governor(desired) },
        TypedValue::Governor(governor(original)),
    )
}

fn held_governor(backend: &CpuBackend<CpuFixture>) -> TypedValue {
    backend
        .io()
        .read(CpuNode::Governor(CpuPolicyId::new(0)))
        .expect("fixture read succeeds")
        .typed
}

fn held_range(backend: &CpuBackend<CpuFixture>) -> TypedValue {
    backend
        .io()
        .read(CpuNode::Frequency(CpuPolicyId::new(0)))
        .expect("frequency policy remains readable")
        .typed
}

#[test]
fn fixture_supports_multiple_policies_and_partial_global_capabilities() {
    let mut fixture = policy_fixture();
    fixture.add_policy(
        CpuPolicyId::new(4),
        identity(4),
        governor("powersave"),
        vec![governor("powersave"), governor("performance")],
        EnergyPreference::Power,
        vec![EnergyPreference::Power, EnergyPreference::Performance],
        frequency(600_000),
        frequency(2_400_000),
        frequency(400_000),
        frequency(3_000_000),
    );

    let backend = CpuBackend::new(fixture);
    let inventory = backend
        .detect(&FixedClock::new(Timestamp::from_unix_millis(1)))
        .expect("CPU fixture detection succeeds");
    assert_eq!(inventory.capabilities.len(), 6);
    assert!(
        inventory
            .capabilities
            .iter()
            .filter(|capability| capability.state == CapabilityState::Available)
            .count()
            >= 4
    );
    assert_eq!(
        inventory
            .capabilities
            .iter()
            .find(|capability| capability.id.as_str() == "cpu.policy.boost")
            .expect("boost capability is described")
            .state,
        CapabilityState::Unsupported
    );
    assert_eq!(
        inventory
            .capabilities
            .iter()
            .find(|capability| capability.id.as_str() == "platform.profile")
            .expect("platform capability is described")
            .state,
        CapabilityState::Unsupported
    );
}

#[test]
fn backend_inspection_and_fixture_reads_are_read_only() {
    let fixture = policy_fixture();
    assert_eq!(
        fixture
            .read(CpuNode::Governor(CpuPolicyId::new(0)))
            .expect("fixture exposes read-only state inspection")
            .typed,
        TypedValue::Governor(governor("schedutil"))
    );
    let mut backend = CpuBackend::from_fixture(fixture);
    let inspection = backend.io();

    assert_eq!(
        inspection.list_policies().expect("inspection enumerates fixture policies"),
        vec![CpuPolicyId::new(0)]
    );
    assert_eq!(
        inspection
            .read(CpuNode::Governor(CpuPolicyId::new(0)))
            .expect("inspection reads the fixture governor")
            .typed,
        TypedValue::Governor(governor("schedutil"))
    );
    assert_eq!(
        backend
            .fixture_mut()
            .read(CpuNode::Governor(CpuPolicyId::new(0)))
            .expect("fixture exposes read-only state inspection")
            .typed,
        TypedValue::Governor(governor("schedutil"))
    );
}

#[test]
fn typed_cpu_apply_verify_and_restore_use_the_captured_original() {
    let mut backend = CpuBackend::new(policy_fixture());
    let mutation = governor_mutation(1, CpuPolicyId::new(0), "schedutil", "performance");

    backend
        .validate_admission(&mutation, identity(1))
        .expect("typed CPU target is admitted");
    let snapshot = backend
        .snapshot_internal(&mutation, Timestamp::from_unix_millis(2))
        .expect("original governor is snapshotted");
    assert_eq!(snapshot.original_typed, TypedValue::Governor(governor("schedutil")));
    let receipt = backend
        .apply_internal(&mutation, &snapshot)
        .expect("typed CPU governor applies");
    assert_eq!(held_governor(&backend), TypedValue::Governor(governor("performance")));
    assert_eq!(
        backend
            .verify_internal(&mutation, identity(1))
            .expect("apply readback succeeds"),
        receipt.ownership_fingerprint
    );
    backend
        .restore_internal(&mutation, &snapshot, receipt.ownership_fingerprint)
        .expect("captured original restores exactly");
    assert_eq!(held_governor(&backend), snapshot.original_typed);
}

#[test]
fn partial_frequency_policy_updates_verify_and_restore_the_full_range() {
    let mut backend = CpuBackend::new(policy_fixture());
    for (mutation_id, min_khz, max_khz, expected_min, expected_max) in [
        (10, Some(frequency(1_000_000)), None, 1_000_000, 3_600_000),
        (11, None, Some(frequency(3_000_000)), 800_000, 3_000_000),
    ] {
        let mutation = typed_mutation(
            mutation_id,
            "cpu.policy.frequency.max",
            "cpu.policy.0",
            MutationKind::CpuFrequency { policy: CpuPolicyId::new(0), min_khz, max_khz },
            range(800_000, 3_600_000),
        );
        backend
            .validate_admission(&mutation, identity(1))
            .expect("partial frequency operation is admitted");
        let snapshot = backend
            .snapshot_internal(&mutation, Timestamp::from_unix_millis(3))
            .expect("full original frequency range is captured");
        let receipt = backend
            .apply_internal(&mutation, &snapshot)
            .expect("partial frequency operation applies");
        assert_eq!(held_range(&backend), range(expected_min, expected_max));
        assert_eq!(
            backend
                .verify_internal(&mutation, identity(1))
                .expect("partial frequency readback succeeds"),
            receipt.ownership_fingerprint
        );
        backend
            .restore_internal(&mutation, &snapshot, receipt.ownership_fingerprint)
            .expect("full original frequency range restores");
        assert_eq!(held_range(&backend), range(800_000, 3_600_000));
    }
}

#[test]
fn frequency_boost_and_platform_profile_are_typed_reversible_operations() {
    let mut fixture = policy_fixture();
    fixture.set_boost(identity(3), CpuBoostInterface::Boost, CpuBoostState::Enabled);
    fixture.set_platform_profile(
        identity(4),
        profile("balanced"),
        vec![profile("balanced"), profile("performance")],
    );
    let mut backend = CpuBackend::new(fixture);
    let mutations = vec![
        (
            typed_mutation(
                1,
                "cpu.policy.frequency.max",
                "cpu.policy.0",
                MutationKind::CpuFrequency {
                    policy: CpuPolicyId::new(0),
                    min_khz: Some(frequency(1_000_000)),
                    max_khz: Some(frequency(3_000_000)),
                },
                range(800_000, 3_600_000),
            ),
            identity(1),
        ),
        (
            typed_mutation(
                2,
                "cpu.policy.boost",
                "system.cpu.boost",
                MutationKind::CpuBoost { state: CpuBoostState::Disabled },
                TypedValue::CpuBoost(CpuBoostState::Enabled),
            ),
            identity(3),
        ),
        (
            typed_mutation(
                3,
                "platform.profile",
                "system.platform.profile",
                MutationKind::PlatformProfile { profile: profile("performance") },
                TypedValue::PlatformProfile(profile("balanced")),
            ),
            identity(4),
        ),
    ];

    for (mutation, target_identity) in mutations {
        backend
            .validate_admission(&mutation, target_identity)
            .expect("typed CPU operation is admitted");
        let snapshot = backend
            .snapshot_internal(&mutation, Timestamp::from_unix_millis(4))
            .expect("typed original is captured");
        let receipt = backend
            .apply_internal(&mutation, &snapshot)
            .expect("typed operation applies");
        assert_eq!(
            backend
                .verify_internal(&mutation, target_identity)
                .expect("typed apply is verified"),
            receipt.ownership_fingerprint
        );
        backend
            .restore_internal(&mutation, &snapshot, receipt.ownership_fingerprint)
            .expect("typed original is restored");
    }
}

#[test]
fn cpu_operation_catalog_declares_complete_backend_contracts() {
    let catalog = cpu_operation_catalog();
    assert_eq!(catalog.contracts().len(), 5);
    for contract in catalog.contracts() {
        contract.validate().expect("CPU contract is internally valid");
        assert_eq!(contract.backend.as_str(), CPU_BACKEND_ID);
        assert!(contract.snapshot.is_complete());
        assert!(contract.snapshot.raw_preimage);
        assert!(contract.restore.is_complete());
        assert!(contract.verification.is_complete());
    }
}

#[test]
fn identity_change_or_disappearance_fails_closed_before_write() {
    let mut backend = CpuBackend::new(policy_fixture());
    let mutation = governor_mutation(1, CpuPolicyId::new(0), "schedutil", "performance");

    backend.fixture_mut().replace_policy_identity(CpuPolicyId::new(0), identity(9));
    let error = backend
        .validate_admission(&mutation, identity(1))
        .expect_err("replaced policy identity is not admitted");
    assert_eq!(error.code, ErrorCode::TargetError);
    assert_eq!(held_governor(&backend), TypedValue::Governor(governor("schedutil")));

    backend.fixture_mut().remove_policy(CpuPolicyId::new(0));
    assert!(
        backend.validate_admission(&mutation, identity(9)).is_err(),
        "a disappeared policy is never substituted"
    );
}

#[test]
fn operation_and_capability_ownership_are_pairwise_closed() {
    let backend = CpuBackend::new(policy_fixture());
    let mut mutation = governor_mutation(1, CpuPolicyId::new(0), "schedutil", "performance");
    mutation.capability = CapabilityId::new("cpu.policy.energy_preference").expect("valid");
    let error = backend
        .validate_admission(&mutation, identity(1))
        .expect_err("governor operation cannot claim EPP ownership");
    assert_eq!(error.code, ErrorCode::Unsupported);
}

#[test]
fn changed_cpu_targets_are_not_written() {
    let mut backend = CpuBackend::new(policy_fixture());
    let mutation = governor_mutation(1, CpuPolicyId::new(0), "schedutil", "performance");
    let snapshot = backend
        .snapshot_internal(&mutation, Timestamp::from_unix_millis(1))
        .expect("captured");
    backend.fixture_mut().replace_policy_identity(CpuPolicyId::new(0), identity(2));
    let error = backend.apply_internal(&mutation, &snapshot).expect_err("another object");
    assert_eq!(error.code, ErrorCode::TargetError);
    assert_eq!(error.message, "CPU target changed before apply");
    assert_eq!(held_governor(&backend), TypedValue::Governor(governor("schedutil")));
}

#[test]
fn foreign_cpu_values_are_not_overwritten() {
    let mut backend = CpuBackend::new(policy_fixture());
    let mutation = governor_mutation(1, CpuPolicyId::new(0), "schedutil", "performance");
    let snapshot = backend
        .snapshot_internal(&mutation, Timestamp::from_unix_millis(1))
        .expect("captured");
    let error = backend
        .restore_internal(
            &mutation,
            &snapshot,
            fingerprint_for_value(&TypedValue::Governor(governor("performance"))),
        )
        .expect_err("the session does not own the value");
    assert_eq!(error.code, ErrorCode::RestoreConflict);
    assert_eq!(held_governor(&backend), TypedValue::Governor(governor("schedutil")));
}

#[test]
fn failed_writes_are_backed_out_and_can_be_tried_again() {
    let mut backend = CpuBackend::new(policy_fixture());
    let node = CpuNode::Governor(CpuPolicyId::new(0));
    backend.fixture_mut().fail_writes_for(node);
    let mutation = governor_mutation(1, CpuPolicyId::new(0), "schedutil", "performance");
    let snapshot = backend
        .snapshot_internal(&mutation, Timestamp::from_unix_millis(1))
        .expect("captured");
    let error = backend.apply_internal(&mutation, &snapshot).expect_err("the write fails once");
    assert_eq!(error.code, ErrorCode::ApplyError);
    assert_eq!(error.retryability, Retryability::Retry);
    assert_eq!(held_governor(&backend), TypedValue::Governor(governor("schedutil")));
    backend.apply_internal(&mutation, &snapshot).expect("the second write works");
    assert_eq!(held_governor(&backend), TypedValue::Governor(governor("performance")));
}

#[test]
fn mutations_that_change_nothing_are_not_snapshotted() {
    let backend = CpuBackend::new(policy_fixture());
    let mutation = governor_mutation(1, CpuPolicyId::new(0), "schedutil", "schedutil");
    let error = backend
        .snapshot_internal(&mutation, Timestamp::from_unix_millis(1))
        .expect_err("nothing to change");
    assert_eq!(error.code, ErrorCode::InvariantViolation);
}

#[test]
fn unlisted_values_are_refused() {
    let mut backend = CpuBackend::new(policy_fixture());
    let mutation = governor_mutation(1, CpuPolicyId::new(0), "schedutil", "ondemand");
    let snapshot = backend
        .snapshot_internal(&mutation, Timestamp::from_unix_millis(1))
        .expect("captured");
    let error = backend.apply_internal(&mutation, &snapshot).expect_err("not advertised");
    assert_eq!(error.code, ErrorCode::Unsupported);
    assert_eq!(error.message, "CPU fixture desired value is not advertised");
}

#[test]
fn a_session_restores_every_control() {
    let mut fixture = policy_fixture();
    fixture.set_boost(identity(3), CpuBoostInterface::NoTurbo, CpuBoostState::Enabled);
    let mut backend = CpuBackend::new(fixture);
    let mutations = vec![
        governor_mutation(1, CpuPolicyId::new(0), "schedutil", "performance"),
        typed_mutation(
            2,
            "cpu.policy.energy_preference",
            "cpu.policy.0",
            MutationKind::CpuEnergyPreference {
                policy: CpuPolicyId::new(0),
                preference: EnergyPreference::Performance,
            },
            TypedValue::EnergyPreference(EnergyPreference::BalancePerformance),
        ),
        typed_mutation(
            3,
            "cpu.policy.boost",
            "system.cpu.boost",
            MutationKind::CpuBoost { state: CpuBoostState::Disabled },
            TypedValue::CpuBoost(CpuBoostState::Enabled),
        ),
    ];
    let snapshots: Vec<_> = mutations
        .iter()
        .map(|m| {
            backend.snapshot_internal(m, Timestamp::from_unix_millis(1)).expect("captured")
        })
        .collect();
    let receipts: Vec<_> = mutations
        .iter()
        .zip(&snapshots)
        .map(|(m, s)| backend.apply_internal(m, s).expect("applied"))
        .collect();
    let boost = backend.io().read(CpuNode::Boost(None)).expect("readable");
    assert_eq!(boost.typed, TypedValue::CpuBoost(CpuBoostState::Disabled));
    for i in (0..mutations.len()).rev() {
        let receipt = backend
            .restore_internal(&mutations[i], &snapshots[i], receipts[i].ownership_fingerprint)
            .expect("restored");
        assert!(receipt.verified);
    }
    assert_eq!(held_governor(&backend), TypedValue::Governor(governor("schedutil")));
    let preference = backend
        .io()
        .read(CpuNode::EnergyPreference(CpuPolicyId::new(0)))
        .expect("readable");
    assert_eq!(
        preference.typed,
        TypedValue::EnergyPreference(EnergyPreference::BalancePerformance)
    );
    let boost = backend.io().read(CpuNode::Boost(None)).expect("readable");
    assert_eq!(boost.typed, TypedValue::CpuBoost(CpuBoostState::Enabled));
}

#[test]
fn limits_are_written_so_that_they_never_cross() {
    let raised = plan_limit_writes(&range(2_000_000, 3_000_000), &range(800_000, 1_000_000))
        .expect("both limits are known");
    assert_eq!(raised.len(), 2);
    assert_eq!(raised[0].limit, FrequencyLimit::Max);
    assert_eq!(raised[0].frequency, frequency(3_000_000));
    assert_eq!(raised[1].limit, FrequencyLimit::Min);
    assert_eq!(raised[1].frequency, frequency(2_000_000));
    let lowered = plan_limit_writes(&range(800_000, 1_000_000), &range(2_000_000, 3_000_000))
        .expect("both limits are known");
    assert_eq!(lowered[0].limit, FrequencyLimit::Min);
    assert_eq!(lowered[0].frequency, frequency(800_000));
    assert_eq!(lowered[1].limit, FrequencyLimit::Max);
    assert_eq!(lowered[1].frequency, frequency(1_000_000));
    let same = plan_limit_writes(&range(1, 2), &range(1, 2)).expect("both limits are known");
    assert!(same.is_empty());
}

#[test]
fn frequency_requests_are_held_against_the_hardware() {
    let crossed = check_frequency_request(&range(3_000_000, 800_000)).expect_err("crossed");
    assert_eq!(crossed.message, "CPU desired minimum exceeds maximum");
    let current = range(800_000, 3_600_000);
    check_frequency_bounds(
        &range(400_000, 4_000_000),
        &current,
        Some(frequency(400_000)),
        Some(frequency(4_000_000)),
    )
    .expect("at the bounds");
    let beyond = check_frequency_bounds(
        &range(400_000, 4_000_001),
        &current,
        Some(frequency(400_000)),
        Some(frequency(4_000_000)),
    )
    .expect_err("beyond the bounds");
    assert_eq!(beyond.message, "CPU desired frequency is outside kernel bounds");
}

#[test]
fn written_values_read_back() {
    let policy = CpuPolicyId::new(0);
    for (node, interface, value, text) in [
        (
            CpuNode::Governor(policy),
            None,
            TypedValue::Governor(governor("performance")),
            "performance",
        ),
        (
            CpuNode::EnergyPreference(policy),
            None,
            TypedValue::EnergyPreference(EnergyPreference::BalancePower),
            "balance_power",
        ),
        (
            CpuNode::Boost(Some(CpuBoostInterface::NoTurbo)),
            Some(CpuBoostInterface::NoTurbo),
            TypedValue::CpuBoost(CpuBoostState::Enabled),
            "0",
        ),
    ] {
        let written = render_write(node, &value).expect("writable");
        assert_eq!(written, text);
        assert_eq!(parse_node(node, interface, written.as_bytes()).expect("readable"), value);
    }
}

#[test]
fn policy_directories_are_listed_in_order() {
    fn entry(name: &str, kind: EntryKind) -> PolicyEntry {
        PolicyEntry { name: Some(name.to_string()), kind: Some(kind) }
    }
    let found = list_policies(&vec![
        entry("policy10", EntryKind::Directory),
        entry("boost", EntryKind::File),
        entry("policy2", EntryKind::Directory),
        PolicyEntry { name: None, kind: None },
    ])
    .expect("plain directories");
    assert_eq!(found, vec![CpuPolicyId::new(2), CpuPolicyId::new(10)]);
    let link = list_policies(&vec![entry("policy0", EntryKind::Symlink)]).expect_err("a link");
    assert_eq!(link.message, "CPU policy directory is not a real directory");
    let odd = list_policies(&vec![entry("policyX", EntryKind::Directory)]).expect_err("a name");
    assert_eq!(odd.message, "CPU policy directory name is malformed");
}

#[test]
fn boost_files_are_chosen_by_what_is_there() {
    let file = Found::Object(EntryKind::File);
    assert_eq!(
        select_boost(None, Found::Nothing, file).expect("only one is there"),
        CpuBoostInterface::NoTurbo
    );
    let link = select_boost(None, Found::Object(EntryKind::Symlink), Found::Nothing)
        .expect_err("links are not followed");
    assert_eq!(link.message, "CPU boost node is a symlink");
    assert_eq!(
        select_boost(None, Found::Nothing, Found::Nothing).expect_err("none").code,
        ErrorCode::Unsupported
    );
}

#[test]
fn choices_are_words() {
    let found = parse_choices(
        CpuNode::Governor(CpuPolicyId::new(0)),
        b"schedutil performance\n",
    )
    .expect("two words");
    assert_eq!(
        found,
        vec![
            TypedValue::Governor(governor("schedutil")),
            TypedValue::Governor(governor("performance")),
        ]
    );
    assert!(parse_choices(CpuNode::Governor(CpuPolicyId::new(0)), b"\xff").is_err());
}

#[test]
fn kernel_values_are_single_short_lines() {
    check_kernel_value("performance").expect("plain value");
    assert!(check_kernel_value("").is_err());
    assert!(check_kernel_value("two\nlines").is_err());
    assert!(check_kernel_value(&"x".repeat(4096)).is_err());
}

#[test]
fn boost_files_differ_in_what_their_digits_mean() {
    let on = parse_node(
        CpuNode::Boost(Some(CpuBoostInterface::Boost)),
        Some(CpuBoostInterface::Boost),
        b"1\n",
    )
    .expect("readable");
    assert_eq!(on, TypedValue::CpuBoost(CpuBoostState::Enabled));
    let off = parse_node(
        CpuNode::Boost(Some(CpuBoostInterface::NoTurbo)),
        Some(CpuBoostInterface::NoTurbo),
        b"1\n",
    )
    .expect("readable");
    assert_eq!(off, TypedValue::CpuBoost(CpuBoostState::Disabled));
}

/// A host that takes every write and forgets it.
struct Forgetful {
    identities: Vec<u8>,
    written: Vec<TypedValue>,
}

impl CpuControlIo for Forgetful {
    type Model = ();

    fn list_policies(&self) -> Result<Vec<CpuPolicyId>, SysboostError> {
        Ok(vec![CpuPolicyId::new(0)])
    }

    fn read(&self, _node: CpuNode) -> Result<CpuNodeState, SysboostError> {
        let value = self.identities[self.written.len().min(self.identities.len() - 1)];
        CpuNodeState::observe(
            TypedValue::Governor(governor("schedutil")),
            b"schedutil\n".to_vec(),
            identity(value),
            None,
        )
    }

    fn choices(&self, _node: CpuNode) -> Result<Vec<TypedValue>, SysboostError> {
        Ok(vec![TypedValue::Governor(governor("performance"))])
    }

    fn validate_desired(&self, _node: CpuNode, _value: &TypedValue) -> Result<(), SysboostError> {
        Ok(())
    }

    fn write(&mut self, _node: CpuNode, value: &TypedValue) -> Result<(), SysboostError> {
        self.written.push(value.clone());
        Ok(())
    }
}

fn forgetful(identities: Vec<u8>) -> (CpuBackend<Forgetful>, PlannedMutation) {
    (
        CpuBackend::new(Forgetful { identities, written: Vec::new() }),
        governor_mutation(1, CpuPolicyId::new(0), "schedutil", "performance"),
    )
}

#[test]
fn forgotten_writes_are_noticed_and_backed_out() {
    let (mut backend, mutation) = forgetful(vec![1]);
    let snapshot = backend
        .snapshot_internal(&mutation, Timestamp::from_unix_millis(1))
        .expect("captured");
    let error = backend.apply_internal(&mutation, &snapshot).expect_err("nothing was kept");
    assert_eq!(error.code, ErrorCode::VerificationError);
    assert_eq!(error.message, "CPU apply readback did not prove the desired typed value");
    assert_eq!(error.retryability, Retryability::Retry);
}

#[test]
fn replaced_objects_are_not_backed_out() {
    let (mut backend, mutation) = forgetful(vec![1, 2]);
    let snapshot = backend
        .snapshot_internal(&mutation, Timestamp::from_unix_millis(1))
        .expect("captured");
    let error = backend.apply_internal(&mutation, &snapshot).expect_err("another object");
    assert_eq!(error.code, ErrorCode::VerificationError);
    assert_eq!(error.retryability, Retryability::Unknown);
    assert_eq!(
        backend.verify_internal(&mutation, identity(1)).expect_err("another object").message,
        "CPU target identity changed during verification"
    );
}
