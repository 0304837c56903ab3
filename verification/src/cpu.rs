//! The backend for the CPU controls of a host.
//!
//! Nothing else can be written: every request names one of the closed controls
//! and a typed value, and every write stands between two reads.

use vstd::prelude::*;

use crate::backend;
use crate::backend::{
    BackendDescriptor, BackendExecutionToken, BackendView, Conduct, MutationBackend, Shown,
};
use crate::capability;
use crate::capability::{
    CapabilityDescriptor, CapabilityInventory, CapabilityState, CapabilityView, EvidenceSource,
    FeatureClass, RiskClass, TargetKind,
};
use crate::catalog;
use crate::catalog::{ContractView, ControlId, OperationCatalog, OperationContract};
use crate::clock::{Clock, Timestamp};
use crate::cpu_node;
use crate::cpu_node::{CpuNode, CpuNodeState, NodeView};
use crate::error::{ErrorCode, ErrorView, Retryability, Stage, SysboostError};
use crate::ids::{CapabilityId, OperationId, StateFingerprint, TargetId, TargetIdentity};
use crate::mutation;
use crate::mutation::{
    ApplyReceipt, EqualityKind, KindView, MutationKind, MutationView, PlannedMutation,
    RestoreReceipt, Snapshot, SnapshotView,
};
use crate::process;
use crate::text;
use crate::value;
use crate::value::{CpuPolicyId, FrequencyKHz, TypedValue, ValueView};

verus! {

/// The identity of the backend.
pub const CPU_BACKEND_ID: &'static str = "linux.cpu";

/// The target of the boost of a host.
pub const CPU_BOOST_TARGET: &'static str = "system.cpu.boost";

/// The target of the platform profile of a host.
pub const PLATFORM_PROFILE_TARGET: &'static str = "system.platform.profile";

/// Policies, as plain values.
pub open spec fn policies_reply(r: Result<Vec<CpuPolicyId>, SysboostError>) -> Result<
    Seq<CpuPolicyId>,
    ErrorView,
> {
    match r {
        Ok(policies) => Ok(policies@),
        Err(e) => Err(e@),
    }
}

/// Why something failed, if it did.
pub open spec fn failure(r: Result<(), SysboostError>) -> Option<ErrorView> {
    match r {
        Ok(_) => None,
        Err(e) => Some(e@),
    }
}

/// Why something was refused, if it was.
pub open spec fn refusal(reply: Result<(), ErrorView>) -> Option<ErrorView> {
    match reply {
        Ok(_) => None,
        Err(e) => Some(e),
    }
}

/// Access to the CPU controls of a host. It takes neither paths nor bytes.
///
/// A settled host is one whose controls hold what its model says, and change
/// only by writes.
pub trait CpuControlIo {
    /// What a settled host holds.
    type Model;

    /// Whether the host is settled. One that does not say is not.
    open spec fn settled(&self) -> bool {
        false
    }

    /// What the host holds.
    open spec fn model(&self) -> Self::Model {
        arbitrary()
    }

    /// What the host shows of itself.
    open spec fn shown(&self) -> Shown {
        Shown::Nothing
    }

    /// The policies.
    open spec fn policies_of(model: Self::Model) -> Result<Seq<CpuPolicyId>, ErrorView> {
        arbitrary()
    }

    /// What a control holds.
    open spec fn node_of(model: Self::Model, node: CpuNode) -> Result<NodeView, ErrorView> {
        arbitrary()
    }

    /// The values that a control lists.
    open spec fn choices_of(model: Self::Model, node: CpuNode) -> Result<
        Seq<ValueView>,
        ErrorView,
    > {
        arbitrary()
    }

    /// Why a control does not take a value, if it does not.
    open spec fn objection(model: Self::Model, node: CpuNode, desired: ValueView) -> Option<
        ErrorView,
    > {
        arbitrary()
    }

    /// What the host holds after a write, and why the write failed if it did.
    open spec fn after_write(model: Self::Model, node: CpuNode, desired: ValueView) -> (
        Self::Model,
        Option<ErrorView>,
    ) {
        arbitrary()
    }

    /// Whether the host may list these policies. A host that does not say may
    /// answer anything, here and below.
    open spec fn may_list(&self, reply: Result<Seq<CpuPolicyId>, ErrorView>) -> bool {
        true
    }

    /// Whether the host may answer a read of a control so.
    open spec fn may_read(&self, node: CpuNode, reply: Result<NodeView, ErrorView>) -> bool {
        true
    }

    /// Whether the host may list these values of a control.
    open spec fn may_offer(&self, node: CpuNode, reply: Result<Seq<ValueView>, ErrorView>) -> bool {
        true
    }

    /// Whether the host may object so to a value for a control.
    open spec fn may_object(
        &self,
        node: CpuNode,
        desired: ValueView,
        reply: Option<ErrorView>,
    ) -> bool {
        true
    }

    /// Whether a write may leave the host like this, and fail so if it fails.
    open spec fn may_write(
        &self,
        after: &Self,
        node: CpuNode,
        desired: ValueView,
        reply: Option<ErrorView>,
    ) -> bool {
        true
    }

    /// The policies of the host.
    fn list_policies(&self) -> (r: Result<Vec<CpuPolicyId>, SysboostError>)
        ensures
            self.may_list(policies_reply(r)),
            self.settled() ==> policies_reply(r) == Self::policies_of(self.model()),
    ;

    /// Reads a control.
    fn read(&self, node: CpuNode) -> (r: Result<CpuNodeState, SysboostError>)
        ensures
            self.may_read(node, crate::error::viewed(r)),
            self.settled() ==> crate::error::viewed(r) == Self::node_of(self.model(), node),
    ;

    /// The values that a control lists.
    fn choices(&self, node: CpuNode) -> (r: Result<Vec<TypedValue>, SysboostError>)
        ensures
            self.may_offer(node, cpu_node::choices_reply(r)),
            self.settled() ==> cpu_node::choices_reply(r) == Self::choices_of(self.model(), node),
    ;

    /// Whether a control takes a value.
    fn validate_desired(&self, node: CpuNode, desired: &TypedValue) -> (r: Result<
        (),
        SysboostError,
    >)
        ensures
            self.may_object(node, desired@, failure(r)),
            self.settled() ==> failure(r) == Self::objection(self.model(), node, desired@),
    ;

    /// Writes a control.
    fn write(&mut self, node: CpuNode, desired: &TypedValue) -> (r: Result<(), SysboostError>)
        ensures
            old(self).may_write(final(self), node, desired@, failure(r)),
            final(self).settled() == old(self).settled(),
            old(self).settled() ==> (final(self).model(), failure(r)) == Self::after_write(
                old(self).model(),
                node,
                desired@,
            ),
    ;
}

/// Whether a host answers a request for its policies so.
pub open spec fn lists<I: CpuControlIo>(
    host: I,
    reply: Result<Seq<CpuPolicyId>, ErrorView>,
) -> bool {
    &&& host.may_list(reply)
    &&& host.settled() ==> reply == I::policies_of(host.model())
}

/// Whether a host answers a read of a control so.
pub open spec fn reads<I: CpuControlIo>(
    host: I,
    node: CpuNode,
    reply: Result<NodeView, ErrorView>,
) -> bool {
    &&& host.may_read(node, reply)
    &&& host.settled() ==> reply == I::node_of(host.model(), node)
}

/// Whether a host lists these values of a control.
pub open spec fn offers<I: CpuControlIo>(
    host: I,
    node: CpuNode,
    reply: Result<Seq<ValueView>, ErrorView>,
) -> bool {
    &&& host.may_offer(node, reply)
    &&& host.settled() ==> reply == I::choices_of(host.model(), node)
}

/// Whether a host objects so to a value for a control.
pub open spec fn objects<I: CpuControlIo>(
    host: I,
    node: CpuNode,
    desired: ValueView,
    reply: Option<ErrorView>,
) -> bool {
    &&& host.may_object(node, desired, reply)
    &&& host.settled() ==> reply == I::objection(host.model(), node, desired)
}

/// Whether a write leaves a host like this, and fails so if it fails.
pub open spec fn writes<I: CpuControlIo>(
    host: I,
    after: I,
    node: CpuNode,
    desired: ValueView,
    reply: Option<ErrorView>,
) -> bool {
    &&& host.may_write(&after, node, desired, reply)
    &&& after.settled() == host.settled()
    &&& host.settled() ==> (after.model(), reply) == I::after_write(host.model(), node, desired)
}

pub open spec fn not_owned() -> ErrorView {
    cpu_node::unsupported_fault("CPU backend does not own this typed operation"@)
}

/// The control that a mutation is about.
pub open spec fn node_for(kind: KindView) -> Option<CpuNode> {
    match kind {
        KindView::CpuFrequency { policy, .. } => Some(CpuNode::Frequency(policy)),
        KindView::CpuGovernor { policy, .. } => Some(CpuNode::Governor(policy)),
        KindView::CpuEnergyPreference { policy, .. } => Some(CpuNode::EnergyPreference(policy)),
        KindView::CpuBoost { .. } => Some(CpuNode::Boost(None)),
        KindView::PlatformProfile { .. } => Some(CpuNode::PlatformProfile),
        _ => None,
    }
}

/// The control that a mutation is about.
pub fn node_for_mutation(mutation: &PlannedMutation) -> (r: Result<CpuNode, SysboostError>)
    ensures
        match r {
            Ok(node) => node_for(mutation@.kind) == Some(node),
            Err(e) => node_for(mutation@.kind) is None && e@ == not_owned(),
        },
{
    match &mutation.kind {
        MutationKind::CpuFrequency { policy, .. } => Ok(CpuNode::Frequency(*policy)),
        MutationKind::CpuGovernor { policy, .. } => Ok(CpuNode::Governor(*policy)),
        MutationKind::CpuEnergyPreference { policy, .. } => Ok(CpuNode::EnergyPreference(*policy)),
        MutationKind::CpuBoost { .. } => Ok(CpuNode::Boost(None)),
        MutationKind::PlatformProfile { .. } => Ok(CpuNode::PlatformProfile),
        _ => Err(cpu_node::unsupported("CPU backend does not own this typed operation")),
    }
}

/// The target of a policy.
pub open spec fn policy_target(policy: CpuPolicyId) -> Seq<char> {
    "cpu.policy."@ + text::decimal_spec(policy.value as nat)
}

/// The target that a mutation has to name.
pub open spec fn target_for(kind: KindView) -> Option<Seq<char>> {
    match kind {
        KindView::CpuFrequency { policy, .. } => Some(policy_target(policy)),
        KindView::CpuGovernor { policy, .. } => Some(policy_target(policy)),
        KindView::CpuEnergyPreference { policy, .. } => Some(policy_target(policy)),
        KindView::CpuBoost { .. } => Some(CPU_BOOST_TARGET@),
        KindView::PlatformProfile { .. } => Some(PLATFORM_PROFILE_TARGET@),
        _ => None,
    }
}

fn target_named(name: &str) -> (r: TargetId)
    requires
        name@.len() > 0,
    ensures
        r@ == name@,
{
    match TargetId::new(name) {
        Ok(target) => target,
        Err(_) => {
            assert(false);
            vstd::pervasive::unreached()
        },
    }
}

fn target_of_policy(policy: CpuPolicyId) -> (r: TargetId)
    ensures
        r@ == policy_target(policy),
{
    let number = text::decimal(policy.get() as u128);
    let name = text::join("cpu.policy.", number.as_str());
    proof {
        reveal_strlit("cpu.policy.");
    }
    target_named(name.as_str())
}

/// The target that a mutation has to name.
pub fn expected_target(mutation: &PlannedMutation) -> (r: Result<TargetId, SysboostError>)
    ensures
        match r {
            Ok(target) => target_for(mutation@.kind) == Some(target@),
            Err(e) => target_for(mutation@.kind) is None && e@ == not_owned(),
        },
{
    proof {
        reveal_strlit("system.cpu.boost");
        reveal_strlit("system.platform.profile");
    }
    match &mutation.kind {
        MutationKind::CpuFrequency { policy, .. } => Ok(target_of_policy(*policy)),
        MutationKind::CpuGovernor { policy, .. } => Ok(target_of_policy(*policy)),
        MutationKind::CpuEnergyPreference { policy, .. } => Ok(target_of_policy(*policy)),
        MutationKind::CpuBoost { .. } => Ok(target_named(CPU_BOOST_TARGET)),
        MutationKind::PlatformProfile { .. } => Ok(target_named(PLATFORM_PROFILE_TARGET)),
        _ => Err(cpu_node::unsupported("CPU backend does not own this typed operation")),
    }
}

/// Whether a value is of the shape that a mutation changes.
pub open spec fn shape_fits(kind: KindView, value: ValueView) -> bool {
    match kind {
        KindView::CpuFrequency { .. } => value is CpuFrequency,
        KindView::CpuGovernor { .. } => value is Governor,
        KindView::CpuEnergyPreference { .. } => value is EnergyPreference,
        KindView::CpuBoost { .. } => value is CpuBoost,
        KindView::PlatformProfile { .. } => value is PlatformProfile,
        _ => false,
    }
}

fn fits_shape(kind: &MutationKind, value: &TypedValue) -> (r: bool)
    ensures
        r == shape_fits(kind@, value@),
{
    match (kind, value) {
        (MutationKind::CpuFrequency { .. }, TypedValue::CpuFrequency { .. }) => true,
        (MutationKind::CpuGovernor { .. }, TypedValue::Governor(_)) => true,
        (MutationKind::CpuEnergyPreference { .. }, TypedValue::EnergyPreference(_)) => true,
        (MutationKind::CpuBoost { .. }, TypedValue::CpuBoost(_)) => true,
        (MutationKind::PlatformProfile { .. }, TypedValue::PlatformProfile(_)) => true,
        _ => false,
    }
}

/// A limit that is asked for, or else the one that holds.
pub open spec fn first_of(a: Option<FrequencyKHz>, b: Option<FrequencyKHz>) -> Option<FrequencyKHz> {
    match a {
        Some(_) => a,
        None => b,
    }
}

/// What a target holds once a mutation is applied: a limit that is not asked for
/// stays as it is.
pub open spec fn effective(mutation: MutationView, current: ValueView) -> Result<
    ValueView,
    ErrorView,
> {
    match (mutation.kind, mutation.desired, current) {
        (
            KindView::CpuFrequency { .. },
            ValueView::CpuFrequency { min_khz: asked_min, max_khz: asked_max },
            ValueView::CpuFrequency { min_khz, max_khz },
        ) => if first_of(asked_min, min_khz) is None || first_of(asked_max, max_khz) is None {
            Err(
                cpu_node::target_fault(
                    "CPU frequency state is incomplete for a reversible mutation"@,
                ),
            )
        } else {
            Ok(
                ValueView::CpuFrequency {
                    min_khz: first_of(asked_min, min_khz),
                    max_khz: first_of(asked_max, max_khz),
                },
            )
        },
        (_, desired, _) => Ok(desired),
    }
}

fn either(a: &Option<FrequencyKHz>, b: &Option<FrequencyKHz>) -> (r: Option<FrequencyKHz>)
    ensures
        r == first_of(*a, *b),
{
    match a {
        Some(limit) => Some(*limit),
        None => *b,
    }
}

/// What a target holds once a mutation is applied.
pub fn effective_desired(mutation: &PlannedMutation, current: &TypedValue) -> (r: Result<
    TypedValue,
    SysboostError,
>)
    ensures
        crate::error::viewed(r) == effective(mutation@, current@),
{
    match (&mutation.kind, &mutation.desired, current) {
        (
            MutationKind::CpuFrequency { .. },
            TypedValue::CpuFrequency { min_khz: asked_min, max_khz: asked_max },
            TypedValue::CpuFrequency { min_khz: current_min, max_khz: current_max },
        ) => {
            let min_khz = either(asked_min, current_min);
            let max_khz = either(asked_max, current_max);
            if min_khz.is_none() || max_khz.is_none() {
                return Err(
                    cpu_node::target_error(
                        "CPU frequency state is incomplete for a reversible mutation",
                    ),
                );
            }
            Ok(TypedValue::CpuFrequency { min_khz, max_khz })
        },
        _ => Ok(mutation.desired.clone()),
    }
}

/// An error about one mutation, in a given step.
pub open spec fn mutation_fault(
    mutation: MutationView,
    code: ErrorCode,
    message: Seq<char>,
    stage: Stage,
) -> ErrorView {
    ErrorView {
        mutation: Some(mutation.mutation_id),
        ..crate::error::staged(code, message, stage)
    }
}

fn mutation_error(mutation: &PlannedMutation, code: ErrorCode, message: &str, stage: Stage) -> (r:
    SysboostError)
    ensures
        r@ == mutation_fault(mutation@, code, message@, stage),
{
    SysboostError::new(code, message).with_stage(stage).with_mutation(mutation.mutation_id)
}

/// Whether both limits are there and in order.
pub open spec fn whole_range(value: ValueView) -> bool {
    value matches ValueView::CpuFrequency { min_khz: Some(min), max_khz: Some(max) } && min.value
        <= max.value
}

/// Why a control cannot be snapshotted for a mutation, if it cannot.
pub open spec fn state_refusal(mutation: MutationView, state: NodeView) -> Option<ErrorView> {
    if process::all_zero(state.target_identity.bytes@) || state.fingerprint
        != value::fingerprint_of(state.typed) {
        Some(
            mutation_fault(
                mutation,
                ErrorCode::TargetError,
                "CPU adapter returned invalid target identity or value fingerprint"@,
                Stage::Snapshot,
            ),
        )
    } else if !shape_fits(mutation.kind, state.typed) || state.fingerprint
        != mutation.precondition {
        Some(
            mutation_fault(
                mutation,
                ErrorCode::TargetError,
                "CPU target changed or its typed state does not match the plan precondition"@,
                Stage::Snapshot,
            ),
        )
    } else if mutation.kind is CpuFrequency && !whole_range(state.typed) {
        Some(
            mutation_fault(
                mutation,
                ErrorCode::TargetError,
                "CPU frequency snapshot does not contain a complete valid range"@,
                Stage::Snapshot,
            ),
        )
    } else {
        match effective(mutation, state.typed) {
            Err(e) => Some(e),
            Ok(desired) => if desired == state.typed {
                Some(
                    mutation_fault(
                        mutation,
                        ErrorCode::InvariantViolation,
                        "CPU mutation is already equal to its current typed state"@,
                        Stage::Plan,
                    ),
                )
            } else {
                None
            },
        }
    }
}

/// Whether a control can be snapshotted for a mutation.
pub fn validate_state(mutation: &PlannedMutation, state: &CpuNodeState) -> (r: Result<
    (),
    SysboostError,
>)
    ensures
        failure(r) == state_refusal(mutation@, state@),
{
    let fingerprint = value::fingerprint_for_value(&state.typed);
    if process::is_zero(&state.target_identity.bytes) || !state.fingerprint.same(&fingerprint) {
        return Err(
            mutation_error(
                mutation,
                ErrorCode::TargetError,
                "CPU adapter returned invalid target identity or value fingerprint",
                Stage::Snapshot,
            ),
        );
    }
    if !fits_shape(&mutation.kind, &state.typed) || !state.fingerprint.same(
        &mutation.precondition,
    ) {
        return Err(
            mutation_error(
                mutation,
                ErrorCode::TargetError,
                "CPU target changed or its typed state does not match the plan precondition",
                Stage::Snapshot,
            ),
        );
    }
    let whole = match &state.typed {
        TypedValue::CpuFrequency { min_khz: Some(min), max_khz: Some(max) } => min.value
            <= max.value,
        _ => false,
    };
    let frequency = match &mutation.kind {
        MutationKind::CpuFrequency { .. } => true,
        _ => false,
    };
    if frequency && !whole {
        return Err(
            mutation_error(
                mutation,
                ErrorCode::TargetError,
                "CPU frequency snapshot does not contain a complete valid range",
                Stage::Snapshot,
            ),
        );
    }
    match effective_desired(mutation, &state.typed) {
        Err(e) => Err(e),
        Ok(desired) => if desired.same(&state.typed) {
            Err(
                mutation_error(
                    mutation,
                    ErrorCode::InvariantViolation,
                    "CPU mutation is already equal to its current typed state",
                    Stage::Plan,
                ),
            )
        } else {
            Ok(())
        },
    }
}

/// The control with the boost file that was found.
pub open spec fn resolved(node: CpuNode, state: NodeView) -> CpuNode {
    match node {
        CpuNode::Boost(None) => CpuNode::Boost(state.boost_interface),
        _ => node,
    }
}

/// The control with the boost file that was found.
pub fn resolved_node(node: CpuNode, state: &CpuNodeState) -> (r: CpuNode)
    ensures
        r == resolved(node, state@),
{
    match node {
        CpuNode::Boost(None) => CpuNode::Boost(state.boost_interface),
        _ => node,
    }
}

/// What snapshotting a mutation gives, by what was read.
pub open spec fn snapshot_of(
    mutation: MutationView,
    now: Timestamp,
    seen: Result<NodeView, ErrorView>,
) -> Result<SnapshotView, ErrorView> {
    match seen {
        Err(e) => Err(e),
        Ok(state) => match state_refusal(mutation, state) {
            Some(e) => Err(e),
            None => Ok(
                SnapshotView {
                    mutation_id: mutation.mutation_id,
                    target: mutation.target,
                    original_raw: state.raw,
                    original_typed: state.typed,
                    original_fingerprint: state.fingerprint,
                    equality: EqualityKind::ScalarExact,
                    target_identity: state.target_identity,
                    captured_at: now,
                },
            ),
        },
    }
}

/// What snapshotting a mutation gives on a settled host.
pub open spec fn snapshot_spec<I: CpuControlIo>(
    model: I::Model,
    mutation: MutationView,
    now: Timestamp,
) -> Result<SnapshotView, ErrorView> {
    match node_for(mutation.kind) {
        None => Err(not_owned()),
        Some(node) => snapshot_of(mutation, now, I::node_of(model, node)),
    }
}

/// Whether snapshotting a mutation answers so: the control is read once.
pub open spec fn snapshots<I: CpuControlIo>(
    host: I,
    mutation: MutationView,
    now: Timestamp,
    answer: Result<SnapshotView, ErrorView>,
) -> bool {
    match node_for(mutation.kind) {
        None => answer == Err::<SnapshotView, ErrorView>(not_owned()),
        Some(node) => exists|seen: Result<NodeView, ErrorView>| #[trigger]
            reads(host, node, seen) && answer == snapshot_of(mutation, now, seen),
    }
}

/// Whether a control is proved to hold a value again.
pub open spec fn proves(
    state: NodeView,
    identity: TargetIdentity,
    fingerprint: StateFingerprint,
) -> bool {
    state.target_identity == identity && state.fingerprint == fingerprint
}

pub fn is_proved(state: &CpuNodeState, identity: &TargetIdentity, fingerprint: &StateFingerprint)
    -> (r: bool)
    ensures
        r == proves(state@, *identity, *fingerprint),
{
    state.target_identity.same(identity) && state.fingerprint.same(fingerprint)
}

/// Why a readback does not prove that the original is back, if it does not.
pub open spec fn undo_doubt(snapshot: SnapshotView, seen: Result<NodeView, ErrorView>) -> Option<
    ErrorView,
> {
    match seen {
        Err(e) => Some(e),
        Ok(state) => if proves(state, snapshot.target_identity, snapshot.original_fingerprint) {
            None
        } else {
            Some(
                crate::error::error_view(
                    ErrorCode::RestoreError,
                    "CPU backend could not prove its internal failed-apply restore"@,
                ),
            )
        },
    }
}

pub open spec fn changed_in_failed_apply() -> ErrorView {
    cpu_node::target_fault("CPU target identity changed during failed apply"@)
}

/// What giving back the original after a failed apply leaves on a settled host,
/// and why it failed if it did.
pub open spec fn undone<I: CpuControlIo>(
    model: I::Model,
    node: CpuNode,
    snapshot: SnapshotView,
) -> (I::Model, Option<ErrorView>) {
    match I::node_of(model, node) {
        Err(e) => (model, Some(e)),
        Ok(current) => if current.target_identity != snapshot.target_identity {
            (model, Some(changed_in_failed_apply()))
        } else {
            let place = resolved(node, current);
            let (after, failed) = I::after_write(model, place, snapshot.original_typed);
            match failed {
                Some(e) => (after, Some(e)),
                None => (after, undo_doubt(snapshot, I::node_of(after, place))),
            }
        },
    }
}

/// Whether giving back the original after a failed apply leaves a host like this,
/// and fails so if it fails. Only an object that is still the same is written.
pub open spec fn undoes<I: CpuControlIo>(
    host: I,
    after: I,
    node: CpuNode,
    snapshot: SnapshotView,
    answer: Option<ErrorView>,
) -> bool {
    exists|seen: Result<NodeView, ErrorView>| #[trigger]
        reads(host, node, seen) && match seen {
            Err(e) => after == host && answer == Some(e),
            Ok(current) => if current.target_identity != snapshot.target_identity {
                after == host && answer == Some(changed_in_failed_apply())
            } else {
                let place = resolved(node, current);
                exists|failed: Option<ErrorView>| #[trigger]
                    writes(host, after, place, snapshot.original_typed, failed) && match failed {
                        Some(e) => answer == Some(e),
                        None => exists|again: Result<NodeView, ErrorView>| #[trigger]
                            reads(after, place, again) && answer == undo_doubt(snapshot, again),
                    }
            },
        }
}

/// The error of a failed apply, which says whether the original is back.
pub open spec fn marked(error: ErrorView, failed: Option<ErrorView>) -> ErrorView {
    ErrorView {
        retryability: if failed is None {
            Retryability::Retry
        } else {
            Retryability::Unknown
        },
        ..error
    }
}

/// What a failed apply leaves and answers on a settled host: the original is given
/// back, and the error says whether that worked.
pub open spec fn backed_out<I: CpuControlIo>(
    model: I::Model,
    node: CpuNode,
    snapshot: SnapshotView,
    error: ErrorView,
) -> (I::Model, Result<ApplyReceipt, ErrorView>) {
    let (after, failed) = undone::<I>(model, node, snapshot);
    (after, Err(marked(error, failed)))
}

/// Whether a failed apply leaves a host like this and answers so: the original is
/// given back, and the error says whether that worked.
pub open spec fn backs_out<I: CpuControlIo>(
    host: I,
    after: I,
    node: CpuNode,
    snapshot: SnapshotView,
    error: ErrorView,
    answer: Result<ApplyReceipt, ErrorView>,
) -> bool {
    exists|failed: Option<ErrorView>| #[trigger]
        undoes(host, after, node, snapshot, failed) && answer == Err::<ApplyReceipt, ErrorView>(
            marked(error, failed),
        )
}

pub open spec fn changed_before_apply() -> ErrorView {
    cpu_node::target_fault("CPU target changed before apply"@)
}

pub open spec fn apply_unproven() -> ErrorView {
    crate::error::error_view(
        ErrorCode::VerificationError,
        "CPU apply readback did not prove the desired typed value"@,
    )
}

/// What a readback after a write proves.
pub open spec fn apply_proof(
    mutation: MutationView,
    snapshot: SnapshotView,
    current: NodeView,
    wanted: ValueView,
    seen: Result<NodeView, ErrorView>,
) -> Result<ApplyReceipt, ErrorView> {
    match seen {
        Err(e) => Err(e),
        Ok(state) => if proves(state, snapshot.target_identity, value::fingerprint_of(wanted)) {
            Ok(
                ApplyReceipt {
                    mutation_id: mutation.mutation_id,
                    observed_precondition: current.fingerprint,
                    observed_postcondition: state.fingerprint,
                    ownership_fingerprint: state.fingerprint,
                },
            )
        } else {
            Err(apply_unproven())
        },
    }
}

/// What applying a mutation leaves and answers on a settled host.
pub open spec fn apply_spec<I: CpuControlIo>(
    model: I::Model,
    mutation: MutationView,
    snapshot: SnapshotView,
) -> (I::Model, Result<ApplyReceipt, ErrorView>) {
    match node_for(mutation.kind) {
        None => (model, Err(not_owned())),
        Some(node) => match I::node_of(model, node) {
            Err(e) => (model, Err(e)),
            Ok(current) => if !proves(current, snapshot.target_identity, mutation.precondition) {
                (model, Err(changed_before_apply()))
            } else {
                match I::objection(model, node, mutation.desired) {
                    Some(e) => (model, Err(e)),
                    None => match effective(mutation, current.typed) {
                        Err(e) => (model, Err(e)),
                        Ok(wanted) => {
                            let place = resolved(node, current);
                            let (after, failed) = I::after_write(model, place, mutation.desired);
                            match failed {
                                Some(e) => backed_out::<I>(after, node, snapshot, e),
                                None => match apply_proof(
                                    mutation,
                                    snapshot,
                                    current,
                                    wanted,
                                    I::node_of(after, place),
                                ) {
                                    Err(e) => backed_out::<I>(after, node, snapshot, e),
                                    Ok(receipt) => (after, Ok(receipt)),
                                },
                            }
                        },
                    },
                }
            },
        },
    }
}

/// Whether applying a mutation, once the control may be written, leaves a host
/// like this and answers so.
pub open spec fn applies_checked<I: CpuControlIo>(
    host: I,
    after: I,
    mutation: MutationView,
    snapshot: SnapshotView,
    node: CpuNode,
    current: NodeView,
    wanted: ValueView,
    answer: Result<ApplyReceipt, ErrorView>,
) -> bool {
    let place = resolved(node, current);
    exists|written: I, failed: Option<ErrorView>| #[trigger]
        writes(host, written, place, mutation.desired, failed) && match failed {
            Some(e) => backs_out(written, after, node, snapshot, e, answer),
            None => exists|again: Result<NodeView, ErrorView>| #[trigger]
                reads(written, place, again) && match apply_proof(
                    mutation,
                    snapshot,
                    current,
                    wanted,
                    again,
                ) {
                    Err(e) => backs_out(written, after, node, snapshot, e, answer),
                    Ok(receipt) => after == written && answer == Ok::<ApplyReceipt, ErrorView>(
                        receipt,
                    ),
                },
        }
}

/// Whether applying a mutation leaves a host like this and answers so. A host that
/// comes back as it was has not been written.
pub open spec fn applies<I: CpuControlIo>(
    host: I,
    after: I,
    mutation: MutationView,
    snapshot: SnapshotView,
    answer: Result<ApplyReceipt, ErrorView>,
) -> bool {
    match node_for(mutation.kind) {
        None => after == host && answer == Err::<ApplyReceipt, ErrorView>(not_owned()),
        Some(node) => exists|seen: Result<NodeView, ErrorView>| #[trigger]
            reads(host, node, seen) && match seen {
                Err(e) => after == host && answer == Err::<ApplyReceipt, ErrorView>(e),
                Ok(current) => if !proves(
                    current,
                    snapshot.target_identity,
                    mutation.precondition,
                ) {
                    after == host && answer == Err::<ApplyReceipt, ErrorView>(
                        changed_before_apply(),
                    )
                } else {
                    exists|objected: Option<ErrorView>| #[trigger]
                        objects(host, node, mutation.desired, objected) && match (
                            objected,
                            effective(mutation, current.typed),
                        ) {
                            (Some(e), _) => after == host && answer == Err::<
                                ApplyReceipt,
                                ErrorView,
                            >(e),
                            (None, Err(e)) => after == host && answer == Err::<
                                ApplyReceipt,
                                ErrorView,
                            >(e),
                            (None, Ok(wanted)) => applies_checked(
                                host,
                                after,
                                mutation,
                                snapshot,
                                node,
                                current,
                                wanted,
                                answer,
                            ),
                        }
                },
            },
    }
}

/// What a target is found to hold, by what was read.
pub open spec fn verified(identity: TargetIdentity, seen: Result<NodeView, ErrorView>) -> Result<
    StateFingerprint,
    ErrorView,
> {
    match seen {
        Err(e) => Err(e),
        Ok(state) => if state.target_identity != identity {
            Err(cpu_node::target_fault("CPU target identity changed during verification"@))
        } else {
            Ok(state.fingerprint)
        },
    }
}

/// What reading back a mutation answers on a settled host.
pub open spec fn verify_spec<I: CpuControlIo>(
    model: I::Model,
    mutation: MutationView,
    identity: TargetIdentity,
) -> Result<StateFingerprint, ErrorView> {
    match node_for(mutation.kind) {
        None => Err(not_owned()),
        Some(node) => verified(identity, I::node_of(model, node)),
    }
}

/// Whether reading back a mutation answers so: the control is read once.
pub open spec fn verifies<I: CpuControlIo>(
    host: I,
    mutation: MutationView,
    identity: TargetIdentity,
    answer: Result<StateFingerprint, ErrorView>,
) -> bool {
    match node_for(mutation.kind) {
        None => answer == Err::<StateFingerprint, ErrorView>(not_owned()),
        Some(node) => exists|seen: Result<NodeView, ErrorView>| #[trigger]
            reads(host, node, seen) && answer == verified(identity, seen),
    }
}

pub open spec fn foreign_value() -> ErrorView {
    crate::error::error_view(
        ErrorCode::RestoreConflict,
        "CPU target changed outside this session; restore refused"@,
    )
}

/// What a readback after giving back the original proves.
pub open spec fn restore_proof(
    mutation: MutationView,
    snapshot: SnapshotView,
    seen: Result<NodeView, ErrorView>,
) -> Result<RestoreReceipt, ErrorView> {
    match seen {
        Err(e) => Err(e),
        Ok(state) => if proves(state, snapshot.target_identity, snapshot.original_fingerprint) {
            Ok(
                RestoreReceipt {
                    mutation_id: mutation.mutation_id,
                    restored_fingerprint: state.fingerprint,
                    verified: true,
                },
            )
        } else {
            Err(
                crate::error::error_view(
                    ErrorCode::RestoreError,
                    "CPU restore readback did not prove the captured original"@,
                ),
            )
        },
    }
}

pub open spec fn changed_before_restore() -> ErrorView {
    cpu_node::target_fault("CPU target identity changed before restore"@)
}

/// What restoring a mutation leaves and answers on a settled host.
pub open spec fn restore_spec<I: CpuControlIo>(
    model: I::Model,
    mutation: MutationView,
    snapshot: SnapshotView,
    ownership: StateFingerprint,
) -> (I::Model, Result<RestoreReceipt, ErrorView>) {
    match node_for(mutation.kind) {
        None => (model, Err(not_owned())),
        Some(node) => match I::node_of(model, node) {
            Err(e) => (model, Err(e)),
            Ok(current) => if current.target_identity != snapshot.target_identity {
                (model, Err(changed_before_restore()))
            } else if current.fingerprint != ownership {
                (model, Err(foreign_value()))
            } else {
                let place = resolved(node, current);
                let (after, failed) = I::after_write(model, place, snapshot.original_typed);
                match failed {
                    Some(e) => (after, Err(e)),
                    None => (
                        after,
                        restore_proof(mutation, snapshot, I::node_of(after, place)),
                    ),
                }
            },
        },
    }
}

/// Whether restoring a mutation leaves a host like this and answers so. A host
/// that comes back as it was has not been written.
pub open spec fn restores<I: CpuControlIo>(
    host: I,
    after: I,
    mutation: MutationView,
    snapshot: SnapshotView,
    ownership: StateFingerprint,
    answer: Result<RestoreReceipt, ErrorView>,
) -> bool {
    match node_for(mutation.kind) {
        None => after == host && answer == Err::<RestoreReceipt, ErrorView>(not_owned()),
        Some(node) => exists|seen: Result<NodeView, ErrorView>| #[trigger]
            reads(host, node, seen) && match seen {
                Err(e) => after == host && answer == Err::<RestoreReceipt, ErrorView>(e),
                Ok(current) => if current.target_identity != snapshot.target_identity {
                    after == host && answer == Err::<RestoreReceipt, ErrorView>(
                        changed_before_restore(),
                    )
                } else if current.fingerprint != ownership {
                    after == host && answer == Err::<RestoreReceipt, ErrorView>(foreign_value())
                } else {
                    let place = resolved(node, current);
                    exists|failed: Option<ErrorView>| #[trigger]
                        writes(host, after, place, snapshot.original_typed, failed) && match failed {
                            Some(e) => answer == Err::<RestoreReceipt, ErrorView>(e),
                            None => exists|again: Result<NodeView, ErrorView>| #[trigger]
                                reads(after, place, again) && answer == restore_proof(
                                    mutation,
                                    snapshot,
                                    again,
                                ),
                        }
                },
            },
    }
}

/// What a backend does on a settled host goes by what the host holds, and by nothing
/// else.
pub proof fn settled_hosts_go_by_their_model<I: CpuControlIo>(
    host: I,
    after: I,
    mutation: MutationView,
    snapshot: SnapshotView,
)
    requires
        host.settled(),
    ensures
        forall|now: Timestamp, reply: Result<SnapshotView, ErrorView>| #[trigger]
            snapshots(host, mutation, now, reply) ==> reply == snapshot_spec::<I>(
                host.model(),
                mutation,
                now,
            ),
        forall|identity: TargetIdentity, reply: Result<StateFingerprint, ErrorView>| #[trigger]
            verifies(host, mutation, identity, reply) ==> reply == verify_spec::<I>(
                host.model(),
                mutation,
                identity,
            ),
        forall|reply: Result<ApplyReceipt, ErrorView>| #[trigger]
            applies(host, after, mutation, snapshot, reply) ==> (after.model(), reply)
                == apply_spec::<I>(host.model(), mutation, snapshot),
        forall|ownership: StateFingerprint, reply: Result<RestoreReceipt, ErrorView>| #[trigger]
            restores(host, after, mutation, snapshot, ownership, reply) ==> (after.model(), reply)
                == restore_spec::<I>(host.model(), mutation, snapshot, ownership),
{
}

/// Where every answer to the first read shows another object or another value than
/// was planned on, an apply writes nothing, whatever the host is.
pub proof fn no_host_is_changed_by_surprise<I: CpuControlIo>(
    host: I,
    after: I,
    mutation: MutationView,
    snapshot: SnapshotView,
    node: CpuNode,
    answer: Result<ApplyReceipt, ErrorView>,
)
    requires
        applies(host, after, mutation, snapshot, answer),
        node_for(mutation.kind) == Some(node),
        forall|seen: Result<NodeView, ErrorView>| #[trigger]
            reads(host, node, seen) ==> seen is Ok && !proves(
                seen->Ok_0,
                snapshot.target_identity,
                mutation.precondition,
            ),
    ensures
        after == host,
        answer == Err::<ApplyReceipt, ErrorView>(changed_before_apply()),
{
}

/// Where every answer to the first read shows what somebody else wrote, a restore
/// writes nothing, whatever the host is.
pub proof fn no_host_loses_foreign_values<I: CpuControlIo>(
    host: I,
    after: I,
    mutation: MutationView,
    snapshot: SnapshotView,
    ownership: StateFingerprint,
    node: CpuNode,
    answer: Result<RestoreReceipt, ErrorView>,
)
    requires
        restores(host, after, mutation, snapshot, ownership, answer),
        node_for(mutation.kind) == Some(node),
        forall|seen: Result<NodeView, ErrorView>| #[trigger]
            reads(host, node, seen) ==> seen is Ok && seen->Ok_0.target_identity
                == snapshot.target_identity && seen->Ok_0.fingerprint != ownership,
    ensures
        after == host,
        answer == Err::<RestoreReceipt, ErrorView>(foreign_value()),
{
}

/// An apply or a restore that succeeds ends with a read that proves it, whatever
/// the host is: the host that is left gave the answer.
pub proof fn success_is_read_back<I: CpuControlIo>(
    host: I,
    after: I,
    mutation: MutationView,
    snapshot: SnapshotView,
    ownership: StateFingerprint,
    applied: Result<ApplyReceipt, ErrorView>,
    restored: Result<RestoreReceipt, ErrorView>,
)
    ensures
        applies(host, after, mutation, snapshot, applied) && applied is Ok ==> exists|
            place: CpuNode,
            state: NodeView,
        | #[trigger]
            reads(after, place, Ok::<NodeView, ErrorView>(state)) && state.target_identity
                == snapshot.target_identity && state.fingerprint
                == applied->Ok_0.ownership_fingerprint,
        restores(host, after, mutation, snapshot, ownership, restored) && restored is Ok
            ==> exists|place: CpuNode, state: NodeView| #[trigger]
            reads(after, place, Ok::<NodeView, ErrorView>(state)) && proves(
                state,
                snapshot.target_identity,
                snapshot.original_fingerprint,
            ),
{
}

/// A change that is not the one that was planned is not made: where the target
/// is another object or holds another value, nothing is written.
pub proof fn changed_targets_are_not_written<I: CpuControlIo>(
    model: I::Model,
    mutation: MutationView,
    snapshot: SnapshotView,
    node: CpuNode,
    current: NodeView,
)
    requires
        node_for(mutation.kind) == Some(node),
        I::node_of(model, node) == Ok::<NodeView, ErrorView>(current),
        current.target_identity != snapshot.target_identity || current.fingerprint
            != mutation.precondition,
    ensures
        apply_spec::<I>(model, mutation, snapshot) == (
            model,
            Err::<ApplyReceipt, ErrorView>(changed_before_apply()),
        ),
{
}

/// What others wrote is left alone: where the target does not hold what the
/// session left there, restoring writes nothing and says so.
pub proof fn foreign_values_are_not_overwritten<I: CpuControlIo>(
    model: I::Model,
    mutation: MutationView,
    snapshot: SnapshotView,
    ownership: StateFingerprint,
    node: CpuNode,
    current: NodeView,
)
    requires
        node_for(mutation.kind) == Some(node),
        I::node_of(model, node) == Ok::<NodeView, ErrorView>(current),
        current.fingerprint != ownership,
    ensures
        ({
            let (after, answer) = restore_spec::<I>(model, mutation, snapshot, ownership);
            &&& after == model
            &&& answer is Err
            &&& current.target_identity == snapshot.target_identity ==> answer->Err_0
                == foreign_value()
        }),
{
}

/// An apply that succeeds is proved by a readback: the target then holds the
/// value that was asked for.
pub proof fn applied_values_are_read_back<I: CpuControlIo>(
    model: I::Model,
    mutation: MutationView,
    snapshot: SnapshotView,
)
    requires
        apply_spec::<I>(model, mutation, snapshot).1 is Ok,
    ensures
        ({
            let (after, answer) = apply_spec::<I>(model, mutation, snapshot);
            let node = node_for(mutation.kind)->0;
            let current = I::node_of(model, node)->Ok_0;
            let state = I::node_of(after, resolved(node, current))->Ok_0;
            &&& node_for(mutation.kind) is Some
            &&& I::node_of(model, node) is Ok
            &&& I::node_of(after, resolved(node, current)) is Ok
            &&& state.target_identity == snapshot.target_identity
            &&& state.fingerprint == value::fingerprint_of(
                effective(mutation, current.typed)->Ok_0,
            )
            &&& answer->Ok_0.ownership_fingerprint == state.fingerprint
            &&& answer->Ok_0.observed_precondition == mutation.precondition
        }),
{
}

/// A restore that succeeds is proved by a readback: the target then holds what
/// was captured.
pub proof fn restored_values_are_read_back<I: CpuControlIo>(
    model: I::Model,
    mutation: MutationView,
    snapshot: SnapshotView,
    ownership: StateFingerprint,
)
    requires
        restore_spec::<I>(model, mutation, snapshot, ownership).1 is Ok,
    ensures
        ({
            let (after, answer) = restore_spec::<I>(model, mutation, snapshot, ownership);
            let node = node_for(mutation.kind)->0;
            let current = I::node_of(model, node)->Ok_0;
            let state = I::node_of(after, resolved(node, current))->Ok_0;
            &&& node_for(mutation.kind) is Some
            &&& I::node_of(model, node) is Ok
            &&& current.fingerprint == ownership
            &&& I::node_of(after, resolved(node, current)) is Ok
            &&& state.target_identity == snapshot.target_identity
            &&& state.fingerprint == snapshot.original_fingerprint
            &&& answer->Ok_0.restored_fingerprint == snapshot.original_fingerprint
            &&& answer->Ok_0.verified
        }),
{
}

pub open spec fn wrong_target(mutation: MutationView) -> ErrorView {
    ErrorView {
        mutation: Some(mutation.mutation_id),
        ..cpu_node::target_fault("CPU mutation target is not the canonical backend target"@)
    }
}

pub open spec fn changed_since_planning(mutation: MutationView) -> ErrorView {
    ErrorView {
        mutation: Some(mutation.mutation_id),
        target: Some(mutation.target),
        ..cpu_node::target_fault("CPU target identity changed since planning"@)
    }
}

/// What checking the target of a mutation finds on a settled host.
pub open spec fn target_state_spec<I: CpuControlIo>(
    model: I::Model,
    mutation: MutationView,
    identity: TargetIdentity,
) -> Result<NodeView, ErrorView> {
    match (target_for(mutation.kind), node_for(mutation.kind)) {
        (Some(target), Some(node)) => if mutation.target != target {
            Err(wrong_target(mutation))
        } else {
            match I::node_of(model, node) {
                Err(e) => Err(e),
                Ok(state) => if state.target_identity != identity {
                    Err(changed_since_planning(mutation))
                } else {
                    match I::objection(model, node, mutation.desired) {
                        Some(e) => Err(ErrorView { mutation: Some(mutation.mutation_id), ..e }),
                        None => Ok(state),
                    }
                },
            }
        },
        _ => Err(not_owned()),
    }
}

/// Whether checking the target of a mutation finds this: the control is read once,
/// and then asked whether it takes the value.
pub open spec fn finds_target<I: CpuControlIo>(
    host: I,
    mutation: MutationView,
    identity: TargetIdentity,
    answer: Result<NodeView, ErrorView>,
) -> bool {
    match (target_for(mutation.kind), node_for(mutation.kind)) {
        (Some(target), Some(node)) => if mutation.target != target {
            answer == Err::<NodeView, ErrorView>(wrong_target(mutation))
        } else {
            exists|seen: Result<NodeView, ErrorView>| #[trigger]
                reads(host, node, seen) && match seen {
                    Err(e) => answer == Err::<NodeView, ErrorView>(e),
                    Ok(state) => if state.target_identity != identity {
                        answer == Err::<NodeView, ErrorView>(changed_since_planning(mutation))
                    } else {
                        exists|objected: Option<ErrorView>| #[trigger]
                            objects(host, node, mutation.desired, objected) && match objected {
                                Some(e) => answer == Err::<NodeView, ErrorView>(
                                    ErrorView { mutation: Some(mutation.mutation_id), ..e },
                                ),
                                None => answer == seen,
                            }
                    },
                }
        },
        _ => answer == Err::<NodeView, ErrorView>(not_owned()),
    }
}

/// Why a target that was found is not what planning saw, if it is not.
pub open spec fn found_refusal(mutation: MutationView, found: Result<NodeView, ErrorView>) -> Option<
    ErrorView,
> {
    match found {
        Err(e) => Some(e),
        Ok(state) => if state.fingerprint == mutation.precondition {
            None
        } else {
            Some(cpu_node::target_fault("CPU target value changed since planning"@))
        },
    }
}

/// Why the target of a mutation on a settled host is not what planning saw, if it
/// is not.
pub open spec fn target_refusal<I: CpuControlIo>(
    model: I::Model,
    mutation: MutationView,
    identity: TargetIdentity,
) -> Option<ErrorView> {
    found_refusal(mutation, target_state_spec::<I>(model, mutation, identity))
}

/// Whether the target of a mutation is refused so.
pub open spec fn refuses_target<I: CpuControlIo>(
    host: I,
    mutation: MutationView,
    identity: TargetIdentity,
    answer: Option<ErrorView>,
) -> bool {
    exists|found: Result<NodeView, ErrorView>| #[trigger]
        finds_target(host, mutation, identity, found) && answer == found_refusal(mutation, found)
}

/// Whether a capability goes with a mutation.
pub open spec fn capability_fits(kind: KindView, capability: Seq<char>) -> bool {
    match kind {
        KindView::CpuFrequency { .. } => capability == "cpu.policy.frequency.min"@ || capability
            == "cpu.policy.frequency.max"@,
        KindView::CpuGovernor { .. } => capability == "cpu.policy.governor"@,
        KindView::CpuEnergyPreference { .. } => capability == "cpu.policy.energy_preference"@,
        KindView::CpuBoost { .. } => capability == "cpu.policy.boost"@,
        KindView::PlatformProfile { .. } => capability == "platform.profile"@,
        _ => false,
    }
}

fn fits_capability(kind: &MutationKind, capability: &CapabilityId) -> (r: bool)
    ensures
        r == capability_fits(kind@, capability@),
{
    let name = capability.as_str();
    match kind {
        MutationKind::CpuFrequency { .. } => text::same(name, "cpu.policy.frequency.min")
            || text::same(name, "cpu.policy.frequency.max"),
        MutationKind::CpuGovernor { .. } => text::same(name, "cpu.policy.governor"),
        MutationKind::CpuEnergyPreference { .. } => text::same(name, "cpu.policy.energy_preference"),
        MutationKind::CpuBoost { .. } => text::same(name, "cpu.policy.boost"),
        MutationKind::PlatformProfile { .. } => text::same(name, "platform.profile"),
        _ => false,
    }
}

/// Why a mutation is not admitted, if it is not.
pub open spec fn admission_refusal<I: CpuControlIo>(
    described: BackendView,
    model: I::Model,
    mutation: MutationView,
    identity: TargetIdentity,
) -> Option<ErrorView> {
    match ownership_mismatch(described, mutation) {
        Some(e) => Some(e),
        None => target_refusal::<I>(model, mutation, identity),
    }
}

/// Why the backend does not own a mutation, if it does not.
pub open spec fn ownership_mismatch(described: BackendView, mutation: MutationView) -> Option<
    ErrorView,
> {
    if node_for(mutation.kind) is None {
        Some(ErrorView { mutation: Some(mutation.mutation_id), ..not_owned() })
    } else if !described.operations.contains(mutation.kind.operation()) || !capability_fits(
        mutation.kind,
        mutation.capability,
    ) {
        Some(
            ErrorView {
                capability: Some(mutation.capability),
                mutation: Some(mutation.mutation_id),
                ..cpu_node::unsupported_fault(
                    "CPU operation and capability ownership do not match"@,
                )
            },
        )
    } else {
        None
    }
}

/// What the backend is and owns.
pub open spec fn cpu_described() -> BackendView {
    BackendView {
        id: CPU_BACKEND_ID@,
        version: "0.1.0-cpu"@,
        capabilities: seq![
            "cpu.policy.frequency.min"@,
            "cpu.policy.frequency.max"@,
            "cpu.policy.governor"@,
            "cpu.policy.energy_preference"@,
            "cpu.policy.boost"@,
            "platform.profile"@,
        ],
        operations: seq![
            "cpu.frequency"@,
            "cpu.governor"@,
            "cpu.energy_preference"@,
            "cpu.boost"@,
            "platform.profile"@,
        ],
    }
}

/// The backend owns exactly the mutations that are about CPU controls.
pub proof fn cpu_mutations_are_owned(mutation: MutationView)
    ensures
        node_for(mutation.kind) is Some ==> cpu_described().operations.contains(
            mutation.kind.operation(),
        ),
        node_for(mutation.kind) is Some <==> target_for(mutation.kind) is Some,
        capability_fits(mutation.kind, mutation.capability) ==> node_for(mutation.kind) is Some
            && cpu_described().capabilities.contains(mutation.capability),
{
    let operations = cpu_described().operations;
    let capabilities = cpu_described().capabilities;
    assert(operations[0] == "cpu.frequency"@);
    assert(operations[1] == "cpu.governor"@);
    assert(operations[2] == "cpu.energy_preference"@);
    assert(operations[3] == "cpu.boost"@);
    assert(operations[4] == "platform.profile"@);
    assert(capabilities[0] == "cpu.policy.frequency.min"@);
    assert(capabilities[1] == "cpu.policy.frequency.max"@);
    assert(capabilities[2] == "cpu.policy.governor"@);
    assert(capabilities[3] == "cpu.policy.energy_preference"@);
    assert(capabilities[4] == "cpu.policy.boost"@);
    assert(capabilities[5] == "platform.profile"@);
}

proof fn lemma_names()
    ensures
        CPU_BACKEND_ID@.len() > 0,
        "cpu.policy.frequency.min"@.len() > 0,
        "cpu.policy.frequency.max"@.len() > 0,
        "cpu.policy.governor"@.len() > 0,
        "cpu.policy.energy_preference"@.len() > 0,
        "cpu.policy.boost"@.len() > 0,
        "platform.profile"@.len() > 0,
        "cpu.frequency"@.len() > 0,
        "cpu.governor"@.len() > 0,
        "cpu.energy_preference"@.len() > 0,
        "cpu.boost"@.len() > 0,
{
    reveal_strlit("linux.cpu");
    reveal_strlit("cpu.policy.frequency.min");
    reveal_strlit("cpu.policy.frequency.max");
    reveal_strlit("cpu.policy.governor");
    reveal_strlit("cpu.policy.energy_preference");
    reveal_strlit("cpu.policy.boost");
    reveal_strlit("platform.profile");
    reveal_strlit("cpu.frequency");
    reveal_strlit("cpu.governor");
    reveal_strlit("cpu.energy_preference");
    reveal_strlit("cpu.boost");
}

fn describe_backend() -> (r: BackendDescriptor)
    ensures
        r@ == cpu_described(),
{
    proof {
        lemma_names();
    }
    let mut capabilities: Vec<CapabilityId> = Vec::new();
    capabilities.push(capability::capability_named("cpu.policy.frequency.min"));
    capabilities.push(capability::capability_named("cpu.policy.frequency.max"));
    capabilities.push(capability::capability_named("cpu.policy.governor"));
    capabilities.push(capability::capability_named("cpu.policy.energy_preference"));
    capabilities.push(capability::capability_named("cpu.policy.boost"));
    capabilities.push(capability::capability_named("platform.profile"));
    let mut operations: Vec<OperationId> = Vec::new();
    operations.push(mutation::operation_named("cpu.frequency"));
    operations.push(mutation::operation_named("cpu.governor"));
    operations.push(mutation::operation_named("cpu.energy_preference"));
    operations.push(mutation::operation_named("cpu.boost"));
    operations.push(mutation::operation_named("platform.profile"));
    let r = BackendDescriptor {
        id: capability::backend_named(CPU_BACKEND_ID),
        version: "0.1.0-cpu".to_string(),
        capabilities,
        operations,
    };
    assert(r@.capabilities =~= cpu_described().capabilities);
    assert(r@.operations =~= cpu_described().operations);
    r
}

/// A capability of the backend.
pub open spec fn cpu_capability(
    capability: Seq<char>,
    operation: Seq<char>,
    target_kind: TargetKind,
    available: bool,
    classification: FeatureClass,
) -> CapabilityView {
    capability::single_capability(
        capability,
        CPU_BACKEND_ID@,
        operation,
        target_kind,
        EqualityKind::ScalarExact,
        if available {
            CapabilityState::Available
        } else {
            CapabilityState::Unsupported
        },
        if classification == FeatureClass::Conditional {
            RiskClass::Medium
        } else {
            RiskClass::Low
        },
        classification,
        EvidenceSource::Sysfs,
        "reviewed typed CPU backend"@,
    )
}

fn describe_cpu_capability(
    capability: &str,
    operation: &str,
    target_kind: TargetKind,
    available: bool,
    classification: FeatureClass,
) -> (r: CapabilityDescriptor)
    requires
        capability@.len() > 0,
        operation@.len() > 0,
    ensures
        r@ == cpu_capability(capability@, operation@, target_kind, available, classification),
{
    proof {
        lemma_names();
    }
    capability::describe_capability(
        capability,
        CPU_BACKEND_ID,
        operation,
        target_kind,
        EqualityKind::ScalarExact,
        if available {
            CapabilityState::Available
        } else {
            CapabilityState::Unsupported
        },
        if classification == FeatureClass::Conditional {
            RiskClass::Medium
        } else {
            RiskClass::Low
        },
        classification,
        EvidenceSource::Sysfs,
        "reviewed typed CPU backend",
    )
}

/// The controls that every policy has.
#[derive(Clone, Copy, Debug, PartialEq, Eq, Structural)]
pub enum PolicyControl {
    Governor,
    EnergyPreference,
    Frequency,
}

/// A control of a policy.
pub open spec fn policy_node(control: PolicyControl, policy: CpuPolicyId) -> CpuNode {
    match control {
        PolicyControl::Governor => CpuNode::Governor(policy),
        PolicyControl::EnergyPreference => CpuNode::EnergyPreference(policy),
        PolicyControl::Frequency => CpuNode::Frequency(policy),
    }
}

fn node_of_policy(control: PolicyControl, policy: CpuPolicyId) -> (r: CpuNode)
    ensures
        r == policy_node(control, policy),
{
    match control {
        PolicyControl::Governor => CpuNode::Governor(policy),
        PolicyControl::EnergyPreference => CpuNode::EnergyPreference(policy),
        PolicyControl::Frequency => CpuNode::Frequency(policy),
    }
}

/// Whether a control can be used: it can be read and, but for frequencies and
/// the boost, lists values.
pub open spec fn usable<I: CpuControlIo>(model: I::Model, node: CpuNode) -> bool {
    I::node_of(model, node) is Ok && match node {
        CpuNode::Frequency(_) => true,
        CpuNode::Boost(_) => true,
        _ => I::choices_of(model, node) matches Ok(choices) && choices.len() > 0,
    }
}

/// Whether a control is found usable, or is not: it is read once, and but for
/// frequencies and the boost its values are listed once.
pub open spec fn finds_usable<I: CpuControlIo>(host: I, node: CpuNode, answer: bool) -> bool {
    exists|seen: Result<NodeView, ErrorView>| #[trigger]
        reads(host, node, seen) && if seen is Err {
            !answer
        } else {
            match node {
                CpuNode::Frequency(_) => answer,
                CpuNode::Boost(_) => answer,
                _ => exists|listed: Result<Seq<ValueView>, ErrorView>| #[trigger]
                    offers(host, node, listed) && answer == (listed matches Ok(choices)
                        && choices.len() > 0),
            }
        }
}

/// Whether a control is found usable in some policy, or in none.
pub open spec fn finds_usable_somewhere<I: CpuControlIo>(
    host: I,
    policies: Seq<CpuPolicyId>,
    control: PolicyControl,
    answer: bool,
) -> bool {
    if answer {
        exists|i: int|
            0 <= i < policies.len() && finds_usable(
                host,
                policy_node(control, #[trigger] policies[i]),
                true,
            )
    } else {
        forall|i: int|
            0 <= i < policies.len() ==> finds_usable(
                host,
                policy_node(control, #[trigger] policies[i]),
                false,
            )
    }
}

/// Whether a control can be used in some policy.
pub open spec fn usable_somewhere<I: CpuControlIo>(
    model: I::Model,
    policies: Seq<CpuPolicyId>,
    control: PolicyControl,
) -> bool {
    exists|i: int|
        0 <= i < policies.len() && usable::<I>(model, policy_node(control, #[trigger] policies[i]))
}

/// The policies that were listed, where having none of the interface means having
/// none.
pub open spec fn policies_known(listed: Result<Seq<CpuPolicyId>, ErrorView>) -> Result<
    Seq<CpuPolicyId>,
    ErrorView,
> {
    match listed {
        Ok(policies) => Ok(policies),
        Err(e) => if e.code == ErrorCode::Unsupported {
            Ok(Seq::empty())
        } else {
            Err(e)
        },
    }
}

/// The policies of a settled host.
pub open spec fn known_policies<I: CpuControlIo>(model: I::Model) -> Result<
    Seq<CpuPolicyId>,
    ErrorView,
> {
    policies_known(I::policies_of(model))
}

/// The capabilities, by which controls can be used.
pub open spec fn capabilities_by(
    frequency: bool,
    governor: bool,
    energy: bool,
    boost: bool,
    profile: bool,
) -> Seq<CapabilityView> {
    seq![
        cpu_capability(
            "cpu.policy.frequency.min"@,
            "cpu.frequency"@,
            TargetKind::CpuPolicy,
            frequency,
            FeatureClass::RuntimeMutable,
        ),
        cpu_capability(
            "cpu.policy.frequency.max"@,
            "cpu.frequency"@,
            TargetKind::CpuPolicy,
            frequency,
            FeatureClass::RuntimeMutable,
        ),
        cpu_capability(
            "cpu.policy.governor"@,
            "cpu.governor"@,
            TargetKind::CpuPolicy,
            governor,
            FeatureClass::RuntimeMutable,
        ),
        cpu_capability(
            "cpu.policy.energy_preference"@,
            "cpu.energy_preference"@,
            TargetKind::CpuPolicy,
            energy,
            FeatureClass::RuntimeMutable,
        ),
        cpu_capability(
            "cpu.policy.boost"@,
            "cpu.boost"@,
            TargetKind::CpuSystem,
            boost,
            FeatureClass::RuntimeMutable,
        ),
        cpu_capability(
            "platform.profile"@,
            "platform.profile"@,
            TargetKind::CpuSystem,
            profile,
            FeatureClass::Conditional,
        ),
    ]
}

/// The capabilities of a settled host.
pub open spec fn capabilities_spec<I: CpuControlIo>(
    model: I::Model,
    policies: Seq<CpuPolicyId>,
) -> Seq<CapabilityView> {
    capabilities_by(
        usable_somewhere::<I>(model, policies, PolicyControl::Frequency),
        usable_somewhere::<I>(model, policies, PolicyControl::Governor),
        usable_somewhere::<I>(model, policies, PolicyControl::EnergyPreference),
        usable::<I>(model, CpuNode::Boost(None)),
        usable::<I>(model, CpuNode::PlatformProfile),
    )
}

/// Whether these capabilities are found, by which controls are found usable.
pub open spec fn finds_capabilities<I: CpuControlIo>(
    host: I,
    policies: Seq<CpuPolicyId>,
    answer: Seq<CapabilityView>,
) -> bool {
    exists|frequency: bool, governor: bool, energy: bool, boost: bool, profile: bool|
        {
            &&& answer == #[trigger] capabilities_by(frequency, governor, energy, boost, profile)
            &&& finds_usable_somewhere(host, policies, PolicyControl::Frequency, frequency)
            &&& finds_usable_somewhere(host, policies, PolicyControl::Governor, governor)
            &&& finds_usable_somewhere(host, policies, PolicyControl::EnergyPreference, energy)
            &&& finds_usable(host, CpuNode::Boost(None), boost)
            &&& finds_usable(host, CpuNode::PlatformProfile, profile)
        }
}

/// Whether looking for capabilities answers so: the policies are listed once.
pub open spec fn detects<I: CpuControlIo>(
    host: I,
    answer: Result<Seq<CapabilityView>, ErrorView>,
) -> bool {
    exists|listed: Result<Seq<CpuPolicyId>, ErrorView>| #[trigger]
        lists(host, listed) && match (policies_known(listed), answer) {
            (Ok(policies), Ok(found)) => finds_capabilities(host, policies, found),
            (Err(e), Err(f)) => f == e,
            _ => false,
        }
}

/// The backend for the CPU controls.
pub struct CpuBackend<I> {
    io: I,
    descriptor: BackendDescriptor,
}

/// Reads of the CPU controls. Nothing can be written through it.
pub struct CpuInspection<'a, I> {
    io: &'a I,
}

impl<'a, I: CpuControlIo> CpuInspection<'a, I> {
    /// The host that is read.
    pub closed spec fn host(&self) -> I {
        *self.io
    }

    /// The policies of the host.
    pub fn list_policies(&self) -> (r: Result<Vec<CpuPolicyId>, SysboostError>)
        ensures
            lists(self.host(), policies_reply(r)),
    {
        self.io.list_policies()
    }

    /// Reads a control.
    pub fn read(&self, node: CpuNode) -> (r: Result<CpuNodeState, SysboostError>)
        ensures
            reads(self.host(), node, crate::error::viewed(r)),
    {
        self.io.read(node)
    }

    /// The values that a control lists.
    pub fn choices(&self, node: CpuNode) -> (r: Result<Vec<TypedValue>, SysboostError>)
        ensures
            offers(self.host(), node, cpu_node::choices_reply(r)),
    {
        self.io.choices(node)
    }
}

impl<I: CpuControlIo> CpuBackend<I> {
    /// The host that the backend works on.
    pub closed spec fn host(&self) -> I {
        self.io
    }

    /// A backend over a host.
    pub fn new(io: I) -> (r: CpuBackend<I>)
        ensures
            r.host() == io,
            r.described() == cpu_described(),
    {
        CpuBackend { io, descriptor: describe_backend() }
    }

    /// Reads of the host.
    pub fn io(&self) -> (r: CpuInspection<'_, I>)
        ensures
            r.host() == self.host(),
    {
        CpuInspection { io: &self.io }
    }

    pub(crate) fn io_mut(&mut self) -> (r: &mut I)
        ensures
            *r == old(self).host(),
            final(self).host() == *final(r),
            final(self).described() == old(self).described(),
    {
        &mut self.io
    }

    fn look(&self, node: CpuNode) -> (r: Result<CpuNodeState, SysboostError>)
        ensures
            reads(self.host(), node, crate::error::viewed(r)),
    {
        self.io.read(node)
    }

    fn check_desired(&self, node: CpuNode, desired: &TypedValue) -> (r: Result<(), SysboostError>)
        ensures
            objects(self.host(), node, desired@, failure(r)),
    {
        self.io.validate_desired(node, desired)
    }

    fn change(&mut self, node: CpuNode, desired: &TypedValue) -> (r: Result<(), SysboostError>)
        ensures
            final(self).described() == old(self).described(),
            writes(old(self).host(), final(self).host(), node, desired@, failure(r)),
    {
        self.io.write(node, desired)
    }

    fn is_usable(&self, node: CpuNode) -> (r: bool)
        ensures
            finds_usable(self.host(), node, r),
            self.host().settled() ==> r == usable::<I>(self.host().model(), node),
    {
        if self.look(node).is_err() {
            return false;
        }
        match node {
            CpuNode::Frequency(_) => true,
            CpuNode::Boost(_) => true,
            _ => match self.io().choices(node) {
                Ok(choices) => choices.len() > 0,
                Err(_) => false,
            },
        }
    }

    fn is_usable_somewhere(&self, policies: &Vec<CpuPolicyId>, control: PolicyControl) -> (r: bool)
        ensures
            finds_usable_somewhere(self.host(), policies@, control, r),
            self.host().settled() ==> r == usable_somewhere::<I>(
                self.host().model(),
                policies@,
                control,
            ),
    {
        let mut i: usize = 0;
        while i < policies.len()
            invariant
                i <= policies@.len(),
                forall|j: int|
                    0 <= j < i ==> finds_usable(
                        self.host(),
                        policy_node(control, #[trigger] policies@[j]),
                        false,
                    ),
                self.host().settled() ==> forall|j: int|
                    0 <= j < i ==> !usable::<I>(
                        self.host().model(),
                        policy_node(control, #[trigger] policies@[j]),
                    ),
            decreases policies@.len() - i,
        {
            if self.is_usable(node_of_policy(control, policies[i])) {
                assert(policies@[i as int] == policies[i as int]);
                return true;
            }
            i = i + 1;
        }
        false
    }

    /// The capabilities of the host, found by reading alone.
    pub fn capabilities(&self) -> (r: Result<Vec<CapabilityDescriptor>, SysboostError>)
        ensures
            detects(self.host(), capability::capabilities_reply(r)),
            self.host().settled() ==> match (r, known_policies::<I>(self.host().model())) {
                (Ok(found), Ok(policies)) => capability::capabilities_view(found@)
                    == capabilities_spec::<I>(self.host().model(), policies),
                (Err(e), Err(expected)) => e@ == expected,
                _ => false,
            },
    {
        proof {
            lemma_names();
        }
        let policies = match self.io().list_policies() {
            Ok(policies) => policies,
            Err(e) => if e.code == ErrorCode::Unsupported {
                Vec::new()
            } else {
                return Err(e);
            },
        };
        let governor = self.is_usable_somewhere(&policies, PolicyControl::Governor);
        let energy = self.is_usable_somewhere(&policies, PolicyControl::EnergyPreference);
        let frequency = self.is_usable_somewhere(&policies, PolicyControl::Frequency);
        let boost = self.is_usable(CpuNode::Boost(None));
        let profile = self.is_usable(CpuNode::PlatformProfile);
        let mut found: Vec<CapabilityDescriptor> = Vec::new();
        found.push(
            describe_cpu_capability(
                "cpu.policy.frequency.min",
                "cpu.frequency",
                TargetKind::CpuPolicy,
                frequency,
                FeatureClass::RuntimeMutable,
            ),
        );
        found.push(
            describe_cpu_capability(
                "cpu.policy.frequency.max",
                "cpu.frequency",
                TargetKind::CpuPolicy,
                frequency,
                FeatureClass::RuntimeMutable,
            ),
        );
        found.push(
            describe_cpu_capability(
                "cpu.policy.governor",
                "cpu.governor",
                TargetKind::CpuPolicy,
                governor,
                FeatureClass::RuntimeMutable,
            ),
        );
        found.push(
            describe_cpu_capability(
                "cpu.policy.energy_preference",
                "cpu.energy_preference",
                TargetKind::CpuPolicy,
                energy,
                FeatureClass::RuntimeMutable,
            ),
        );
        found.push(
            describe_cpu_capability(
                "cpu.policy.boost",
                "cpu.boost",
                TargetKind::CpuSystem,
                boost,
                FeatureClass::RuntimeMutable,
            ),
        );
        found.push(
            describe_cpu_capability(
                "platform.profile",
                "platform.profile",
                TargetKind::CpuSystem,
                profile,
                FeatureClass::Conditional,
            ),
        );
        assert(capability::capabilities_view(found@) =~= capabilities_by(
            frequency,
            governor,
            energy,
            boost,
            profile,
        ));
        assert(finds_capabilities(self.host(), policies@, capability::capabilities_view(found@)));
        Ok(found)
    }

    /// Checks that the target of a mutation is what planning saw, and reads it.
    pub fn validate_target_state(
        &self,
        mutation: &PlannedMutation,
        expected_target_identity: TargetIdentity,
    ) -> (r: Result<CpuNodeState, SysboostError>)
        ensures
            finds_target(
                self.host(),
                mutation@,
                expected_target_identity,
                crate::error::viewed(r),
            ),
            self.host().settled() ==> crate::error::viewed(r) == target_state_spec::<I>(
                self.host().model(),
                mutation@,
                expected_target_identity,
            ),
    {
        proof {
            cpu_mutations_are_owned(mutation@);
        }
        let target = match expected_target(mutation) {
            Ok(target) => target,
            Err(e) => {
                return Err(e);
            },
        };
        if !mutation.target.same(&target) {
            return Err(
                cpu_node::target_error(
                    "CPU mutation target is not the canonical backend target",
                ).with_mutation(mutation.mutation_id),
            );
        }
        let node = match node_for_mutation(mutation) {
            Ok(node) => node,
            Err(e) => {
                return Err(e);
            },
        };
        let state = match self.look(node) {
            Ok(state) => state,
            Err(e) => {
                return Err(e);
            },
        };
        if !state.target_identity.same(&expected_target_identity) {
            return Err(
                cpu_node::target_error("CPU target identity changed since planning").with_mutation(
                    mutation.mutation_id,
                ).with_target(mutation.target.clone()),
            );
        }
        match self.check_desired(node, &mutation.desired) {
            Ok(_) => Ok(state),
            Err(e) => Err(e.with_mutation(mutation.mutation_id)),
        }
    }

    /// Captures what a target holds before it is changed.
    pub fn snapshot_internal(&self, mutation: &PlannedMutation, now: Timestamp) -> (r: Result<
        Snapshot,
        SysboostError,
    >)
        ensures
            snapshots(self.host(), mutation@, now, crate::error::viewed(r)),
            self.host().settled() ==> crate::error::viewed(r) == snapshot_spec::<I>(
                self.host().model(),
                mutation@,
                now,
            ),
    {
        let node = match node_for_mutation(mutation) {
            Ok(node) => node,
            Err(e) => {
                return Err(e);
            },
        };
        let state = match self.look(node) {
            Ok(state) => state,
            Err(e) => {
                return Err(e);
            },
        };
        if let Err(e) = validate_state(mutation, &state) {
            return Err(e);
        }
        Ok(
            Snapshot {
                mutation_id: mutation.mutation_id,
                target: mutation.target.clone(),
                original_raw: state.raw,
                original_typed: state.typed,
                original_fingerprint: state.fingerprint,
                equality: EqualityKind::ScalarExact,
                target_identity: state.target_identity,
                captured_at: now,
            },
        )
    }

    fn restore_after_failed_apply(&mut self, node: CpuNode, snapshot: &Snapshot) -> (r: Result<
        (),
        SysboostError,
    >)
        ensures
            final(self).described() == old(self).described(),
            undoes(old(self).host(), final(self).host(), node, snapshot@, failure(r)),
            final(self).host().settled() == old(self).host().settled(),
            old(self).host().settled() ==> (final(self).host().model(), failure(r)) == undone::<I>(
                old(self).host().model(),
                node,
                snapshot@,
            ),
    {
        let current = match self.look(node) {
            Ok(state) => state,
            Err(e) => {
                return Err(e);
            },
        };
        if !current.target_identity.same(&snapshot.target_identity) {
            return Err(cpu_node::target_error("CPU target identity changed during failed apply"));
        }
        let place = resolved_node(node, &current);
        if let Err(e) = self.change(place, &snapshot.original_typed) {
            return Err(e);
        }
        let restored = match self.look(place) {
            Ok(state) => state,
            Err(e) => {
                return Err(e);
            },
        };
        if is_proved(&restored, &snapshot.target_identity, &snapshot.original_fingerprint) {
            Ok(())
        } else {
            Err(
                SysboostError::new(
                    ErrorCode::RestoreError,
                    "CPU backend could not prove its internal failed-apply restore",
                ),
            )
        }
    }

    fn back_out(&mut self, node: CpuNode, snapshot: &Snapshot, error: SysboostError) -> (r: Result<
        ApplyReceipt,
        SysboostError,
    >)
        ensures
            r is Err,
            final(self).described() == old(self).described(),
            backs_out(
                old(self).host(),
                final(self).host(),
                node,
                snapshot@,
                error@,
                crate::error::plain(r),
            ),
            final(self).host().settled() == old(self).host().settled(),
            old(self).host().settled() ==> (final(self).host().model(), crate::error::plain(r))
                == backed_out::<I>(old(self).host().model(), node, snapshot@, error@),
    {
        match self.restore_after_failed_apply(node, snapshot) {
            Ok(_) => Err(error.retryable(Retryability::Retry)),
            Err(_) => Err(error.retryable(Retryability::Unknown)),
        }
    }

    /// Changes a target. Where that fails the original is given back, and the
    /// error says whether that worked.
    pub fn apply_internal(&mut self, mutation: &PlannedMutation, snapshot: &Snapshot) -> (r: Result<
        ApplyReceipt,
        SysboostError,
    >)
        ensures
            final(self).described() == old(self).described(),
            applies(
                old(self).host(),
                final(self).host(),
                mutation@,
                snapshot@,
                crate::error::plain(r),
            ),
            final(self).host().settled() == old(self).host().settled(),
            old(self).host().settled() ==> (final(self).host().model(), crate::error::plain(r))
                == apply_spec::<I>(old(self).host().model(), mutation@, snapshot@),
            r matches Ok(receipt) ==> receipt.mutation_id == mutation.mutation_id
                && receipt.observed_precondition == mutation.precondition
                && receipt.ownership_fingerprint == receipt.observed_postcondition,
    {
        let node = match node_for_mutation(mutation) {
            Ok(node) => node,
            Err(e) => {
                return Err(e);
            },
        };
        let current = match self.look(node) {
            Ok(state) => state,
            Err(e) => {
                return Err(e);
            },
        };
        if !is_proved(&current, &snapshot.target_identity, &mutation.precondition) {
            return Err(cpu_node::target_error("CPU target changed before apply"));
        }
        if let Err(e) = self.check_desired(node, &mutation.desired) {
            return Err(e);
        }
        let wanted = match effective_desired(mutation, &current.typed) {
            Ok(wanted) => wanted,
            Err(e) => {
                return Err(e);
            },
        };
        let place = resolved_node(node, &current);
        if let Err(e) = self.change(place, &mutation.desired) {
            return self.back_out(node, snapshot, e);
        }
        let after = match self.look(place) {
            Ok(state) => state,
            Err(e) => {
                return self.back_out(node, snapshot, e);
            },
        };
        let fingerprint = value::fingerprint_for_value(&wanted);
        if !is_proved(&after, &snapshot.target_identity, &fingerprint) {
            let error = SysboostError::new(
                ErrorCode::VerificationError,
                "CPU apply readback did not prove the desired typed value",
            );
            return self.back_out(node, snapshot, error);
        }
        Ok(
            ApplyReceipt {
                mutation_id: mutation.mutation_id,
                observed_precondition: current.fingerprint,
                observed_postcondition: after.fingerprint,
                ownership_fingerprint: after.fingerprint,
            },
        )
    }

    /// The fingerprint of what a target holds now.
    pub fn verify_internal(
        &self,
        mutation: &PlannedMutation,
        expected_target_identity: TargetIdentity,
    ) -> (r: Result<StateFingerprint, SysboostError>)
        ensures
            verifies(self.host(), mutation@, expected_target_identity, crate::error::plain(r)),
            self.host().settled() ==> crate::error::plain(r) == verify_spec::<I>(
                self.host().model(),
                mutation@,
                expected_target_identity,
            ),
    {
        let node = match node_for_mutation(mutation) {
            Ok(node) => node,
            Err(e) => {
                return Err(e);
            },
        };
        let state = match self.look(node) {
            Ok(state) => state,
            Err(e) => {
                return Err(e);
            },
        };
        if !state.target_identity.same(&expected_target_identity) {
            return Err(cpu_node::target_error("CPU target identity changed during verification"));
        }
        Ok(state.fingerprint)
    }

    /// Gives a target back what it held. What others wrote is left alone.
    pub fn restore_internal(
        &mut self,
        mutation: &PlannedMutation,
        snapshot: &Snapshot,
        expected_ownership: StateFingerprint,
    ) -> (r: Result<RestoreReceipt, SysboostError>)
        ensures
            final(self).described() == old(self).described(),
            restores(
                old(self).host(),
                final(self).host(),
                mutation@,
                snapshot@,
                expected_ownership,
                crate::error::plain(r),
            ),
            final(self).host().settled() == old(self).host().settled(),
            old(self).host().settled() ==> (final(self).host().model(), crate::error::plain(r))
                == restore_spec::<I>(
                old(self).host().model(),
                mutation@,
                snapshot@,
                expected_ownership,
            ),
            r matches Ok(receipt) ==> receipt == (RestoreReceipt {
                mutation_id: mutation.mutation_id,
                restored_fingerprint: snapshot.original_fingerprint,
                verified: true,
            }),
    {
        let node = match node_for_mutation(mutation) {
            Ok(node) => node,
            Err(e) => {
                return Err(e);
            },
        };
        let current = match self.look(node) {
            Ok(state) => state,
            Err(e) => {
                return Err(e);
            },
        };
        if !current.target_identity.same(&snapshot.target_identity) {
            return Err(cpu_node::target_error("CPU target identity changed before restore"));
        }
        if !current.fingerprint.same(&expected_ownership) {
            return Err(
                SysboostError::new(
                    ErrorCode::RestoreConflict,
                    "CPU target changed outside this session; restore refused",
                ),
            );
        }
        let place = resolved_node(node, &current);
        if let Err(e) = self.change(place, &snapshot.original_typed) {
            return Err(e);
        }
        let restored = match self.look(place) {
            Ok(state) => state,
            Err(e) => {
                return Err(e);
            },
        };
        if !is_proved(&restored, &snapshot.target_identity, &snapshot.original_fingerprint) {
            return Err(
                SysboostError::new(
                    ErrorCode::RestoreError,
                    "CPU restore readback did not prove the captured original",
                ),
            );
        }
        Ok(
            RestoreReceipt {
                mutation_id: mutation.mutation_id,
                restored_fingerprint: restored.fingerprint,
                verified: true,
            },
        )
    }
}

/// How a CPU backend acts on its host.
pub open spec fn cpu_conduct<I: CpuControlIo>() -> Conduct {
    Conduct {
        members: Seq::empty(),
        described: Seq::empty(),
        parts: Seq::empty(),
        snapshots: |
            shown: Shown,
            mutation: MutationView,
            now: Timestamp,
            reply: Result<SnapshotView, ErrorView>,
        |
            exists|host: I| #[trigger]
                snapshots(host, mutation, now, reply) && host.shown() == shown,
        applies: |
            shown: Shown,
            after: Shown,
            mutation: MutationView,
            snapshot: SnapshotView,
            reply: Result<ApplyReceipt, ErrorView>,
        |
            exists|host: I, left: I| #[trigger]
                applies(host, left, mutation, snapshot, reply) && host.shown() == shown
                    && left.shown() == after,
        verifies: |
            shown: Shown,
            mutation: MutationView,
            identity: TargetIdentity,
            reply: Result<StateFingerprint, ErrorView>,
        |
            exists|host: I| #[trigger]
                verifies(host, mutation, identity, reply) && host.shown() == shown,
        restores: |
            shown: Shown,
            after: Shown,
            mutation: MutationView,
            snapshot: SnapshotView,
            ownership: StateFingerprint,
            reply: Result<RestoreReceipt, ErrorView>,
        |
            exists|host: I, left: I| #[trigger]
                restores(host, left, mutation, snapshot, ownership, reply) && host.shown()
                    == shown && left.shown() == after,
    }
}

impl<I: CpuControlIo> MutationBackend for CpuBackend<I> {
    closed spec fn described(&self) -> BackendView {
        self.descriptor@
    }

    open spec fn may_detect(
        &self,
        told: Set<Result<Timestamp, ErrorView>>,
        reply: Result<CapabilityInventory, ErrorView>,
    ) -> bool {
        exists|found: Result<Seq<CapabilityView>, ErrorView>| #[trigger]
            detects(self.host(), found) && match found {
                Err(e) => reply == Err::<CapabilityInventory, ErrorView>(e),
                Ok(capabilities) => capability::dated(capabilities, told, reply),
            }
    }

    open spec fn may_snapshot(
        &self,
        mutation: MutationView,
        now: Timestamp,
        reply: Result<SnapshotView, ErrorView>,
    ) -> bool {
        snapshots(self.host(), mutation, now, reply)
    }

    open spec fn shown(&self) -> Shown {
        self.host().shown()
    }

    open spec fn conduct(&self) -> Conduct {
        cpu_conduct::<I>()
    }

    open spec fn may_apply(
        &self,
        after: Shown,
        mutation: MutationView,
        snapshot: SnapshotView,
        reply: Result<ApplyReceipt, ErrorView>,
    ) -> bool {
        exists|left: I| #[trigger]
            applies(self.host(), left, mutation, snapshot, reply) && after == left.shown()
    }

    open spec fn may_verify(
        &self,
        mutation: MutationView,
        expected: StateFingerprint,
        identity: TargetIdentity,
        reply: Result<StateFingerprint, ErrorView>,
    ) -> bool {
        verifies(self.host(), mutation, identity, reply)
    }

    open spec fn may_restore(
        &self,
        after: Shown,
        mutation: MutationView,
        snapshot: SnapshotView,
        ownership: StateFingerprint,
        reply: Result<RestoreReceipt, ErrorView>,
    ) -> bool {
        exists|left: I| #[trigger]
            restores(self.host(), left, mutation, snapshot, ownership, reply) && after
                == left.shown()
    }

    open spec fn may_own(&self, backend: Seq<char>, reply: bool) -> bool {
        reply == (self.described().id == backend)
    }

    open spec fn may_admit(
        &self,
        mutation: MutationView,
        identity: TargetIdentity,
        reply: Result<(), ErrorView>,
    ) -> bool {
        match ownership_mismatch(self.described(), mutation) {
            Some(e) => reply == Err::<(), ErrorView>(e),
            None => refuses_target(self.host(), mutation, identity, refusal(reply)),
        }
    }

    open spec fn may_target(
        &self,
        mutation: MutationView,
        identity: TargetIdentity,
        reply: Result<(), ErrorView>,
    ) -> bool {
        refuses_target(self.host(), mutation, identity, refusal(reply))
    }

    fn descriptor(&self) -> (r: &BackendDescriptor) {
        &self.descriptor
    }

    fn detect(&self, clock: &dyn Clock) -> (r: Result<CapabilityInventory, SysboostError>)
        ensures
            self.host().settled() ==> match known_policies::<I>(self.host().model()) {
                Err(e) => crate::error::plain(r) == Err::<CapabilityInventory, ErrorView>(e),
                Ok(policies) => capability::dated(
                    capabilities_spec::<I>(self.host().model(), policies),
                    crate::clock::times(clock),
                    crate::error::plain(r),
                ),
            },
    {
        proof {
            crate::clock::lemma_times(clock);
        }
        let capabilities = match self.capabilities() {
            Ok(capabilities) => capabilities,
            Err(e) => {
                return Err(e);
            },
        };
        let told = clock.now();
        assert(crate::clock::times(clock).contains(crate::error::plain(told)));
        match told {
            Ok(observed_at) => Ok(CapabilityInventory { observed_at, capabilities }),
            Err(e) => Err(e),
        }
    }

    fn snapshot(
        &self,
        execution: &BackendExecutionToken,
        mutation: &PlannedMutation,
        now: Timestamp,
    ) -> (r: Result<Snapshot, SysboostError>)
        ensures
            snapshots(self.host(), mutation@, now, crate::error::viewed(r)),
            self.host().settled() ==> crate::error::viewed(r) == snapshot_spec::<I>(
                self.host().model(),
                mutation@,
                now,
            ),
    {
        self.snapshot_internal(mutation, now)
    }

    fn apply(
        &mut self,
        execution: &BackendExecutionToken,
        mutation: &PlannedMutation,
        snapshot: &Snapshot,
    ) -> (r: Result<ApplyReceipt, SysboostError>)
        ensures
            applies(
                old(self).host(),
                final(self).host(),
                mutation@,
                snapshot@,
                crate::error::plain(r),
            ),
            old(self).host().settled() ==> (final(self).host().model(), crate::error::plain(r))
                == apply_spec::<I>(old(self).host().model(), mutation@, snapshot@),
    {
        self.apply_internal(mutation, snapshot)
    }

    fn verify(
        &self,
        execution: &BackendExecutionToken,
        mutation: &PlannedMutation,
        expected: StateFingerprint,
        expected_target_identity: TargetIdentity,
    ) -> (r: Result<StateFingerprint, SysboostError>)
        ensures
            verifies(self.host(), mutation@, expected_target_identity, crate::error::plain(r)),
            self.host().settled() ==> crate::error::plain(r) == verify_spec::<I>(
                self.host().model(),
                mutation@,
                expected_target_identity,
            ),
    {
        self.verify_internal(mutation, expected_target_identity)
    }

    fn restore(
        &mut self,
        execution: &BackendExecutionToken,
        mutation: &PlannedMutation,
        snapshot: &Snapshot,
        expected_ownership: StateFingerprint,
    ) -> (r: Result<RestoreReceipt, SysboostError>)
        ensures
            restores(
                old(self).host(),
                final(self).host(),
                mutation@,
                snapshot@,
                expected_ownership,
                crate::error::plain(r),
            ),
            old(self).host().settled() ==> (final(self).host().model(), crate::error::plain(r))
                == restore_spec::<I>(
                old(self).host().model(),
                mutation@,
                snapshot@,
                expected_ownership,
            ),
    {
        self.restore_internal(mutation, snapshot, expected_ownership)
    }

    fn validate_admission(
        &self,
        mutation: &PlannedMutation,
        expected_target_identity: TargetIdentity,
    ) -> (r: Result<(), SysboostError>)
        ensures
            ownership_mismatch(self.described(), mutation@) is Some ==> failure(r)
                == ownership_mismatch(self.described(), mutation@),
            ownership_mismatch(self.described(), mutation@) is None ==> refuses_target(
                self.host(),
                mutation@,
                expected_target_identity,
                failure(r),
            ),
            self.host().settled() ==> failure(r) == admission_refusal::<I>(
                self.described(),
                self.host().model(),
                mutation@,
                expected_target_identity,
            ),
    {
        if let Err(e) = node_for_mutation(mutation) {
            return Err(e.with_mutation(mutation.mutation_id));
        }
        if !self.descriptor.owns_operation(mutation.kind.operation_name()) || !fits_capability(
            &mutation.kind,
            &mutation.capability,
        ) {
            return Err(
                cpu_node::unsupported(
                    "CPU operation and capability ownership do not match",
                ).with_capability(mutation.capability.clone()).with_mutation(mutation.mutation_id),
            );
        }
        self.validate_target(mutation, expected_target_identity)
    }

    fn validate_target(
        &self,
        mutation: &PlannedMutation,
        expected_target_identity: TargetIdentity,
    ) -> (r: Result<(), SysboostError>)
        ensures
            refuses_target(self.host(), mutation@, expected_target_identity, failure(r)),
            self.host().settled() ==> failure(r) == target_refusal::<I>(
                self.host().model(),
                mutation@,
                expected_target_identity,
            ),
    {
        match self.validate_target_state(mutation, expected_target_identity) {
            Err(e) => Err(e),
            Ok(state) => if state.fingerprint.same(&mutation.precondition) {
                Ok(())
            } else {
                Err(cpu_node::target_error("CPU target value changed since planning"))
            },
        }
    }
}

/// One operation of the backend, as planning sees it. The bytes as they were
/// read are kept too.
pub open spec fn cpu_contract(
    operation: Seq<char>,
    capability: Seq<char>,
    target_kind: TargetKind,
    control: ControlId,
    risk: RiskClass,
    classification: FeatureClass,
    dependencies: Seq<Seq<char>>,
) -> ContractView {
    let plain = catalog::complete_contract(
        operation,
        capability,
        CPU_BACKEND_ID@,
        target_kind,
        control,
        EqualityKind::ScalarExact,
        risk,
        classification,
        false,
    );
    ContractView {
        snapshot: catalog::SnapshotContract { raw_preimage: true, ..plain.snapshot },
        dependencies,
        ..plain
    }
}

/// The operations of the backend, as planning sees them.
pub open spec fn cpu_catalog() -> Seq<ContractView> {
    seq![
        cpu_contract(
            "cpu.frequency"@,
            "cpu.policy.frequency.max"@,
            TargetKind::CpuPolicy,
            ControlId::CpuFrequency,
            RiskClass::Medium,
            FeatureClass::RuntimeMutable,
            Seq::empty(),
        ),
        cpu_contract(
            "cpu.governor"@,
            "cpu.policy.governor"@,
            TargetKind::CpuPolicy,
            ControlId::CpuGovernor,
            RiskClass::Low,
            FeatureClass::RuntimeMutable,
            Seq::empty(),
        ),
        cpu_contract(
            "cpu.energy_preference"@,
            "cpu.policy.energy_preference"@,
            TargetKind::CpuPolicy,
            ControlId::CpuEnergyPreference,
            RiskClass::Low,
            FeatureClass::RuntimeMutable,
            seq!["cpu.governor"@],
        ),
        cpu_contract(
            "cpu.boost"@,
            "cpu.policy.boost"@,
            TargetKind::CpuSystem,
            ControlId::CpuBoost,
            RiskClass::Medium,
            FeatureClass::RuntimeMutable,
            Seq::empty(),
        ),
        cpu_contract(
            "platform.profile"@,
            "platform.profile"@,
            TargetKind::CpuSystem,
            ControlId::PlatformProfile,
            RiskClass::Medium,
            FeatureClass::Conditional,
            Seq::empty(),
        ),
    ]
}

/// Every operation of the catalog is valid and is one that the backend owns, on
/// a capability that it owns; and the catalog leaves none of them out.
pub proof fn cpu_catalog_matches_the_backend(i: int)
    requires
        0 <= i < cpu_catalog().len(),
    ensures
        catalog::contract_refusal(cpu_catalog()[i]) is None,
        cpu_catalog()[i].snapshot.raw_preimage,
        cpu_catalog()[i].backend == cpu_described().id,
        cpu_catalog()[i].operation == cpu_described().operations[i],
        cpu_catalog().len() == cpu_described().operations.len(),
        cpu_described().capabilities.contains(cpu_catalog()[i].capability),
{
    reveal_strlit("cpu.governor");
    reveal_strlit("cpu.energy_preference");
    assert("cpu.governor"@.len() != "cpu.energy_preference"@.len());
    let capabilities = cpu_described().capabilities;
    assert(capabilities[1] == "cpu.policy.frequency.max"@);
    assert(capabilities[2] == "cpu.policy.governor"@);
    assert(capabilities[3] == "cpu.policy.energy_preference"@);
    assert(capabilities[4] == "cpu.policy.boost"@);
    assert(capabilities[5] == "platform.profile"@);
}

fn name_cpu_contract(
    operation: &str,
    capability: &str,
    target_kind: TargetKind,
    control: ControlId,
    risk: RiskClass,
    classification: FeatureClass,
) -> (r: OperationContract)
    requires
        operation@.len() > 0,
        capability@.len() > 0,
    ensures
        r@ == cpu_contract(
            operation@,
            capability@,
            target_kind,
            control,
            risk,
            classification,
            Seq::empty(),
        ),
{
    proof {
        lemma_names();
    }
    let mut contract = catalog::name_contract(
        operation,
        capability,
        CPU_BACKEND_ID,
        target_kind,
        control,
        EqualityKind::ScalarExact,
        risk,
        classification,
        false,
    );
    contract.snapshot.raw_preimage = true;
    contract
}

/// The operations of the backend, as planning sees them.
pub fn cpu_operation_catalog() -> (r: OperationCatalog)
    ensures
        r@ == cpu_catalog(),
{
    proof {
        lemma_names();
    }
    let mut contracts: Vec<OperationContract> = Vec::new();
    contracts.push(
        name_cpu_contract(
            "cpu.frequency",
            "cpu.policy.frequency.max",
            TargetKind::CpuPolicy,
            ControlId::CpuFrequency,
            RiskClass::Medium,
            FeatureClass::RuntimeMutable,
        ),
    );
    contracts.push(
        name_cpu_contract(
            "cpu.governor",
            "cpu.policy.governor",
            TargetKind::CpuPolicy,
            ControlId::CpuGovernor,
            RiskClass::Low,
            FeatureClass::RuntimeMutable,
        ),
    );
    let mut energy = name_cpu_contract(
        "cpu.energy_preference",
        "cpu.policy.energy_preference",
        TargetKind::CpuPolicy,
        ControlId::CpuEnergyPreference,
        RiskClass::Low,
        FeatureClass::RuntimeMutable,
    );
    let mut dependencies: Vec<OperationId> = Vec::new();
    dependencies.push(mutation::operation_named("cpu.governor"));
    assert(backend::operation_names(dependencies@) =~= seq!["cpu.governor"@]);
    energy.dependencies = dependencies;
    contracts.push(energy);
    contracts.push(
        name_cpu_contract(
            "cpu.boost",
            "cpu.policy.boost",
            TargetKind::CpuSystem,
            ControlId::CpuBoost,
            RiskClass::Medium,
            FeatureClass::RuntimeMutable,
        ),
    );
    contracts.push(
        name_cpu_contract(
            "platform.profile",
            "platform.profile",
            TargetKind::CpuSystem,
            ControlId::PlatformProfile,
            RiskClass::Medium,
            FeatureClass::Conditional,
        ),
    );
    assert(catalog::contracts_view(contracts@) =~= cpu_catalog());
    OperationCatalog::new(contracts)
}

} // verus!
