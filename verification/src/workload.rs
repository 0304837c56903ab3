//! The backend for control groups and for the scheduling of processes.
//!
//! Nothing else can be written: every request names one of the closed operations
//! and a typed value. Processes are named by number and start time, never looked
//! up by name, and never stopped.

use vstd::prelude::*;

use crate::backend::{
    BackendDescriptor, BackendExecutionToken, BackendView, Conduct, MutationBackend, Shown,
};
use crate::capability;
use crate::capability::{
    CapabilityDescriptor, CapabilityEvidence, CapabilityInventory, CapabilityState, CapabilityView,
    EvidenceSource, FeatureClass, OperationDescriptor, OperationView, PrivilegeRequirement, RiskClass,
    TargetKind,
};
use crate::catalog;
use crate::catalog::{ContractView, ControlId, OperationCatalog, OperationContract};
use crate::clock::{Clock, Timestamp};
use crate::cpu;
use crate::error::{ErrorCode, ErrorView, SysboostError};
use crate::ids::{CapabilityId, OperationId, StateFingerprint, TargetId, TargetIdentity};
use crate::mutation;
use crate::mutation::{
    ApplyReceipt, BoundedBytes, EqualityKind, KindView, MutationKind, MutationView,
    PlannedMutation, RestoreReceipt, Snapshot, SnapshotView,
};
use crate::text;
use crate::value;
use crate::value::{
    CgroupId, CgroupView, IoPriority, IoPriorityClass, NiceValue, ProcessId, TypedValue, ValueView,
};
use crate::workload_node;
use crate::workload_node::WorkloadNode;

verus! {

/// The identity of the backend.
pub const WORKLOAD_BACKEND_ID: &'static str = "linux.workload";

/// A group that was found.
#[derive(Debug, PartialEq, Eq)]
pub struct WorkloadTarget {
    pub identity: CgroupId,
    /// Where it stands below the root. No request can give one.
    pub relative_path: String,
}

/// Groups that were found, as plain values.
pub open spec fn targets_view(targets: Seq<WorkloadTarget>) -> Seq<(CgroupView, Seq<char>)> {
    targets.map_values(|t: WorkloadTarget| (t.identity@, t.relative_path@))
}

/// What a target holds.
#[derive(Debug)]
pub struct WorkloadObservation {
    /// The value as it was read.
    pub raw: BoundedBytes,
    pub typed: TypedValue,
    pub fingerprint: StateFingerprint,
    /// Which object the target is.
    pub target_identity: TargetIdentity,
}

/// What a target holds, as plain values.
#[verifier::ext_equal]
pub struct ObservationView {
    pub raw: Seq<u8>,
    pub typed: ValueView,
    pub fingerprint: StateFingerprint,
    pub target_identity: TargetIdentity,
}

impl View for WorkloadObservation {
    type V = ObservationView;

    open spec fn view(&self) -> ObservationView {
        ObservationView {
            raw: self.raw.bytes@,
            typed: self.typed@,
            fingerprint: self.fingerprint,
            target_identity: self.target_identity,
        }
    }
}

/// What a target is found to hold, where its bytes are not too many to keep.
pub open spec fn observation(raw: Seq<u8>, typed: ValueView, identity: TargetIdentity) -> Result<
    ObservationView,
    ErrorView,
> {
    if raw.len() > mutation::MAX_PREIMAGE_BYTES {
        Err(mutation::preimage_too_long())
    } else {
        Ok(
            ObservationView {
                raw,
                typed,
                fingerprint: value::fingerprint_of(typed),
                target_identity: identity,
            },
        )
    }
}

impl WorkloadObservation {
    /// What a target is found to hold.
    pub fn new(raw: Vec<u8>, typed: TypedValue, target_identity: TargetIdentity) -> (r: Result<
        WorkloadObservation,
        SysboostError,
    >)
        ensures
            crate::error::viewed(r) == observation(raw@, typed@, target_identity),
    {
        match BoundedBytes::new(raw) {
            Ok(raw) => {
                let fingerprint = value::fingerprint_for_value(&typed);
                Ok(WorkloadObservation { raw, typed, fingerprint, target_identity })
            },
            Err(e) => Err(e),
        }
    }
}

/// Whether a value is of the shape that a mutation changes.
pub open spec fn shape_fits(kind: KindView, value: ValueView) -> bool {
    match kind {
        KindView::CgroupCpuWeight { .. } => value is CgroupCpuWeight,
        KindView::CgroupCpuMax { .. } => value is CgroupCpuMax,
        KindView::CgroupCpuset { .. } => value is CgroupCpuset,
        KindView::CgroupIoWeight { .. } => value is CgroupIoWeight,
        KindView::CgroupUclampMin { .. } => value is CgroupUclamp,
        KindView::CgroupUclampMax { .. } => value is CgroupUclamp,
        KindView::CgroupWorkload { .. } => value is CgroupLifecycle,
        KindView::CgroupBackground { .. } => value is CgroupLifecycle,
        KindView::ProcessNice { .. } => value is Nice,
        KindView::ProcessIoPriority { .. } => value is IoPriority,
        KindView::ProcessPlacement { .. } => value is ProcessPlacement,
        _ => false,
    }
}

fn fits_shape(kind: &MutationKind, value: &TypedValue) -> (r: bool)
    ensures
        r == shape_fits(kind@, value@),
{
    match (kind, value) {
        (MutationKind::CgroupCpuWeight { .. }, TypedValue::CgroupCpuWeight(_)) => true,
        (MutationKind::CgroupCpuMax { .. }, TypedValue::CgroupCpuMax { .. }) => true,
        (MutationKind::CgroupCpuset { .. }, TypedValue::CgroupCpuset(_)) => true,
        (MutationKind::CgroupIoWeight { .. }, TypedValue::CgroupIoWeight(_)) => true,
        (MutationKind::CgroupUclampMin { .. }, TypedValue::CgroupUclamp(_)) => true,
        (MutationKind::CgroupUclampMax { .. }, TypedValue::CgroupUclamp(_)) => true,
        (MutationKind::CgroupWorkload { .. }, TypedValue::CgroupLifecycle { .. }) => true,
        (MutationKind::CgroupBackground { .. }, TypedValue::CgroupLifecycle { .. }) => true,
        (MutationKind::ProcessNice { .. }, TypedValue::Nice(_)) => true,
        (MutationKind::ProcessIoPriority { .. }, TypedValue::IoPriority(_)) => true,
        (MutationKind::ProcessPlacement { .. }, TypedValue::ProcessPlacement(_)) => true,
        _ => false,
    }
}

/// Whether a mutation is about a process.
pub open spec fn about_process(kind: KindView) -> bool {
    kind is ProcessNice || kind is ProcessIoPriority || kind is ProcessPlacement
}

/// Groups, as plain values.
pub open spec fn targets_reply(r: Result<Vec<WorkloadTarget>, SysboostError>) -> Result<
    Seq<(CgroupView, Seq<char>)>,
    ErrorView,
> {
    match r {
        Ok(targets) => Ok(targets_view(targets@)),
        Err(e) => Err(e@),
    }
}

/// Access to the groups and processes of a host. It takes neither paths nor
/// bytes.
///
/// A settled host is one that holds what its model says, and changes only by
/// writes.
pub trait WorkloadControlIo {
    /// What a settled host holds.
    type Model;

    /// Whether the host is settled. One that does not say is not.
    open spec fn settled(&self) -> bool {
        false
    }

    /// What the host holds.
    open spec fn model(&self) -> Self::Model {
        arbitrary()
    }

    /// What the host shows of itself.
    open spec fn shown(&self) -> Shown {
        Shown::Nothing
    }

    /// What the host can do.
    open spec fn capabilities_of(model: Self::Model) -> Result<Seq<CapabilityView>, ErrorView> {
        arbitrary()
    }

    /// The groups.
    open spec fn targets_of(model: Self::Model) -> Result<
        Seq<(CgroupView, Seq<char>)>,
        ErrorView,
    > {
        arbitrary()
    }

    /// The bytes of a control.
    open spec fn bytes_of(model: Self::Model, group: CgroupView, node: WorkloadNode) -> Result<
        Seq<u8>,
        ErrorView,
    > {
        arbitrary()
    }

    /// What the group that a mutation is about holds.
    open spec fn group_of(model: Self::Model, kind: KindView) -> Result<ObservationView, ErrorView> {
        arbitrary()
    }

    /// What the process that a mutation is about holds.
    open spec fn process_of(model: Self::Model, kind: KindView) -> Result<
        ObservationView,
        ErrorView,
    > {
        arbitrary()
    }

    /// Why a mutation cannot give its target a value, if it cannot.
    open spec fn objection(model: Self::Model, kind: KindView, desired: ValueView) -> Option<
        ErrorView,
    > {
        arbitrary()
    }

    /// What the host holds after a write, and why the write failed if it did.
    open spec fn after_write(model: Self::Model, kind: KindView, desired: ValueView) -> (
        Self::Model,
        Option<ErrorView>,
    ) {
        arbitrary()
    }

    /// Whether the host may be found to do this. A host that does not say may
    /// answer anything, here and below.
    open spec fn may_offer(&self, reply: Result<Seq<CapabilityView>, ErrorView>) -> bool {
        true
    }

    /// Whether the host may list these groups.
    open spec fn may_list(&self, reply: Result<Seq<(CgroupView, Seq<char>)>, ErrorView>) -> bool {
        true
    }

    /// Whether a control may hold these bytes.
    open spec fn may_hold(
        &self,
        group: CgroupView,
        node: WorkloadNode,
        reply: Result<Seq<u8>, ErrorView>,
    ) -> bool {
        true
    }

    /// Whether the host may answer so when the group of a mutation is read.
    open spec fn may_read_group(
        &self,
        kind: KindView,
        reply: Result<ObservationView, ErrorView>,
    ) -> bool {
        true
    }

    /// Whether the host may answer so when the process of a mutation is read.
    open spec fn may_read_process(
        &self,
        kind: KindView,
        reply: Result<ObservationView, ErrorView>,
    ) -> bool {
        true
    }

    /// Whether the host may object so to a value for the target of a mutation.
    open spec fn may_object(
        &self,
        kind: KindView,
        desired: ValueView,
        reply: Option<ErrorView>,
    ) -> bool {
        true
    }

    /// Whether a write may leave the host like this, and fail so if it fails.
    open spec fn may_write(
        &self,
        after: &Self,
        kind: KindView,
        desired: ValueView,
        reply: Option<ErrorView>,
    ) -> bool {
        true
    }

    /// What the host can do, found by reading alone.
    fn capabilities(&self) -> (r: Result<Vec<CapabilityDescriptor>, SysboostError>)
        ensures
            self.may_offer(capability::capabilities_reply(r)),
            self.settled() ==> capability::capabilities_reply(r) == Self::capabilities_of(self.model()),
    ;

    /// The groups of the host.
    fn targets(&self) -> (r: Result<Vec<WorkloadTarget>, SysboostError>)
        ensures
            self.may_list(targets_reply(r)),
            self.settled() ==> targets_reply(r) == Self::targets_of(self.model()),
    ;

    /// Reads a control.
    fn read_node(&self, group: &CgroupId, node: WorkloadNode) -> (r: Result<
        Vec<u8>,
        SysboostError,
    >)
        ensures
            self.may_hold(group@, node, crate::filesystem::bytes_reply(r)),
            self.settled() ==> crate::filesystem::bytes_reply(r) == Self::bytes_of(
                self.model(),
                group@,
                node,
            ),
    ;

    /// Reads what the group that a mutation is about holds.
    fn read_mutation(&self, kind: &MutationKind) -> (r: Result<WorkloadObservation, SysboostError>)
        ensures
            self.may_read_group(kind@, crate::error::viewed(r)),
            self.settled() ==> crate::error::viewed(r) == Self::group_of(self.model(), kind@),
    ;

    /// Reads what the process that a mutation is about holds.
    fn read_process(&self, kind: &MutationKind) -> (r: Result<WorkloadObservation, SysboostError>)
        ensures
            self.may_read_process(kind@, crate::error::viewed(r)),
            self.settled() ==> crate::error::viewed(r) == Self::process_of(self.model(), kind@),
    ;

    /// Whether a mutation can give its target a value.
    fn validate_desired(&self, kind: &MutationKind, desired: &TypedValue) -> (r: Result<
        (),
        SysboostError,
    >)
        ensures
            self.may_object(kind@, desired@, cpu::failure(r)),
            self.settled() ==> cpu::failure(r) == Self::objection(self.model(), kind@, desired@),
    ;

    /// Gives the target of a mutation a value.
    fn write_mutation(&mut self, kind: &MutationKind, desired: &TypedValue) -> (r: Result<
        (),
        SysboostError,
    >)
        ensures
            old(self).may_write(final(self), kind@, desired@, cpu::failure(r)),
            final(self).settled() == old(self).settled(),
            old(self).settled() ==> (final(self).model(), cpu::failure(r)) == Self::after_write(
                old(self).model(),
                kind@,
                desired@,
            ),
    ;
}

/// What the target of a mutation holds.
pub open spec fn held<I: WorkloadControlIo>(model: I::Model, kind: KindView) -> Result<
    ObservationView,
    ErrorView,
> {
    if about_process(kind) {
        I::process_of(model, kind)
    } else {
        I::group_of(model, kind)
    }
}

/// Whether a host is found to do this.
pub open spec fn offers<I: WorkloadControlIo>(
    host: I,
    reply: Result<Seq<CapabilityView>, ErrorView>,
) -> bool {
    &&& host.may_offer(reply)
    &&& host.settled() ==> reply == I::capabilities_of(host.model())
}

/// Whether a host lists these groups.
pub open spec fn lists<I: WorkloadControlIo>(
    host: I,
    reply: Result<Seq<(CgroupView, Seq<char>)>, ErrorView>,
) -> bool {
    &&& host.may_list(reply)
    &&& host.settled() ==> reply == I::targets_of(host.model())
}

/// Whether a control of a host holds these bytes.
pub open spec fn holds<I: WorkloadControlIo>(
    host: I,
    group: CgroupView,
    node: WorkloadNode,
    reply: Result<Seq<u8>, ErrorView>,
) -> bool {
    &&& host.may_hold(group, node, reply)
    &&& host.settled() ==> reply == I::bytes_of(host.model(), group, node)
}

/// Whether a host answers so when the process of a mutation is read.
pub open spec fn reads_process<I: WorkloadControlIo>(
    host: I,
    kind: KindView,
    reply: Result<ObservationView, ErrorView>,
) -> bool {
    &&& host.may_read_process(kind, reply)
    &&& host.settled() ==> reply == I::process_of(host.model(), kind)
}

/// Whether a host answers so when the target of a mutation is read.
pub open spec fn reads<I: WorkloadControlIo>(
    host: I,
    kind: KindView,
    reply: Result<ObservationView, ErrorView>,
) -> bool {
    if about_process(kind) {
        reads_process(host, kind, reply)
    } else {
        &&& host.may_read_group(kind, reply)
        &&& host.settled() ==> reply == I::group_of(host.model(), kind)
    }
}

/// Whether a host objects so to a value for the target of a mutation.
pub open spec fn objects<I: WorkloadControlIo>(
    host: I,
    kind: KindView,
    desired: ValueView,
    reply: Option<ErrorView>,
) -> bool {
    &&& host.may_object(kind, desired, reply)
    &&& host.settled() ==> reply == I::objection(host.model(), kind, desired)
}

/// Whether a write leaves a host like this, and fails so if it fails.
pub open spec fn writes<I: WorkloadControlIo>(
    host: I,
    after: I,
    kind: KindView,
    desired: ValueView,
    reply: Option<ErrorView>,
) -> bool {
    &&& host.may_write(&after, kind, desired, reply)
    &&& after.settled() == host.settled()
    &&& host.settled() ==> (after.model(), reply) == I::after_write(host.model(), kind, desired)
}

pub open spec fn not_owned() -> ErrorView {
    workload_node::unsupported_fault("workload backend does not own this operation"@)
}

/// The target that a mutation has to name.
pub open spec fn target_for(kind: KindView) -> Option<Seq<char>> {
    match kind {
        KindView::CgroupCpuWeight { cgroup, .. } => Some(cgroup.handle),
        KindView::CgroupCpuMax { cgroup, .. } => Some(cgroup.handle),
        KindView::CgroupCpuset { cgroup, .. } => Some(cgroup.handle),
        KindView::CgroupIoWeight { cgroup, .. } => Some(cgroup.handle),
        KindView::CgroupUclampMin { cgroup, .. } => Some(cgroup.handle),
        KindView::CgroupUclampMax { cgroup, .. } => Some(cgroup.handle),
        KindView::CgroupWorkload { parent, .. } => Some(parent.handle),
        KindView::CgroupBackground { parent, .. } => Some(parent.handle),
        KindView::ProcessPlacement { process, .. } => Some(value::process_target(process)),
        KindView::ProcessNice { process, .. } => Some(value::process_target(process)),
        KindView::ProcessIoPriority { process, .. } => Some(value::process_target(process)),
        _ => None,
    }
}

/// The target that a mutation has to name.
pub fn expected_target(mutation: &PlannedMutation) -> (r: Result<TargetId, SysboostError>)
    ensures
        match r {
            Ok(target) => target_for(mutation@.kind) == Some(target@),
            Err(e) => target_for(mutation@.kind) is None && e@ == not_owned(),
        },
{
    match &mutation.kind {
        MutationKind::CgroupCpuWeight { cgroup, .. } => Ok(cgroup.handle.clone()),
        MutationKind::CgroupCpuMax { cgroup, .. } => Ok(cgroup.handle.clone()),
        MutationKind::CgroupCpuset { cgroup, .. } => Ok(cgroup.handle.clone()),
        MutationKind::CgroupIoWeight { cgroup, .. } => Ok(cgroup.handle.clone()),
        MutationKind::CgroupUclampMin { cgroup, .. } => Ok(cgroup.handle.clone()),
        MutationKind::CgroupUclampMax { cgroup, .. } => Ok(cgroup.handle.clone()),
        MutationKind::CgroupWorkload { parent, .. } => Ok(parent.handle.clone()),
        MutationKind::CgroupBackground { parent, .. } => Ok(parent.handle.clone()),
        MutationKind::ProcessPlacement { process, .. } => Ok(process.target_id()),
        MutationKind::ProcessNice { process, .. } => Ok(process.target_id()),
        MutationKind::ProcessIoPriority { process, .. } => Ok(process.target_id()),
        _ => Err(workload_node::unsupported("workload backend does not own this operation")),
    }
}

/// Why what a target holds does not go with a mutation, if it does not.
pub open spec fn observation_refusal(
    mutation: MutationView,
    seen: ObservationView,
    identity: TargetIdentity,
) -> Option<ErrorView> {
    if seen.target_identity != identity {
        Some(workload_node::target_fault("workload target identity changed"@))
    } else if seen.fingerprint != value::fingerprint_of(seen.typed) {
        Some(workload_node::target_fault("workload adapter returned an invalid fingerprint"@))
    } else if !shape_fits(mutation.kind, seen.typed) || seen.fingerprint != mutation.precondition {
        Some(
            workload_node::target_fault(
                "workload target value or typed shape changed since planning"@,
            ),
        )
    } else {
        None
    }
}

/// Whether what a target holds goes with a mutation.
pub fn validate_observation(
    mutation: &PlannedMutation,
    seen: &WorkloadObservation,
    expected_target_identity: &TargetIdentity,
) -> (r: Result<(), SysboostError>)
    ensures
        cpu::failure(r) == observation_refusal(mutation@, seen@, *expected_target_identity),
{
    if !seen.target_identity.same(expected_target_identity) {
        return Err(workload_node::target_error("workload target identity changed"));
    }
    let fingerprint = value::fingerprint_for_value(&seen.typed);
    if !seen.fingerprint.same(&fingerprint) {
        return Err(workload_node::target_error("workload adapter returned an invalid fingerprint"));
    }
    if fits_shape(&mutation.kind, &seen.typed) && seen.fingerprint.same(&mutation.precondition) {
        Ok(())
    } else {
        Err(
            workload_node::target_error(
                "workload target value or typed shape changed since planning",
            ),
        )
    }
}

/// What snapshotting a mutation gives, by what was read.
pub open spec fn snapshot_of(
    mutation: MutationView,
    now: Timestamp,
    seen: Result<ObservationView, ErrorView>,
) -> Result<SnapshotView, ErrorView> {
    match seen {
        Err(e) => Err(e),
        Ok(seen) => match observation_refusal(mutation, seen, seen.target_identity) {
            Some(e) => Err(e),
            None => if seen.typed == mutation.desired {
                Err(
                    workload_node::fault(
                        ErrorCode::InvariantViolation,
                        "workload mutation already equals its current value"@,
                    ),
                )
            } else {
                Ok(
                    SnapshotView {
                        mutation_id: mutation.mutation_id,
                        target: mutation.target,
                        original_raw: seen.raw,
                        original_typed: seen.typed,
                        original_fingerprint: seen.fingerprint,
                        equality: mutation.equality,
                        target_identity: seen.target_identity,
                        captured_at: now,
                    },
                )
            },
        },
    }
}

/// What snapshotting a mutation gives on a settled host.
pub open spec fn snapshot_spec<I: WorkloadControlIo>(
    model: I::Model,
    mutation: MutationView,
    now: Timestamp,
) -> Result<SnapshotView, ErrorView> {
    snapshot_of(mutation, now, held::<I>(model, mutation.kind))
}

/// Whether snapshotting a mutation answers so: the target is read once.
pub open spec fn snapshots<I: WorkloadControlIo>(
    host: I,
    mutation: MutationView,
    now: Timestamp,
    answer: Result<SnapshotView, ErrorView>,
) -> bool {
    exists|seen: Result<ObservationView, ErrorView>| #[trigger]
        reads(host, mutation.kind, seen) && answer == snapshot_of(mutation, now, seen)
}

/// Whether a target is proved to hold a value.
pub open spec fn proves(
    seen: ObservationView,
    identity: TargetIdentity,
    fingerprint: StateFingerprint,
) -> bool {
    seen.target_identity == identity && seen.fingerprint == fingerprint
}

fn is_proved(
    seen: &WorkloadObservation,
    identity: &TargetIdentity,
    fingerprint: &StateFingerprint,
) -> (r: bool)
    ensures
        r == proves(seen@, *identity, *fingerprint),
{
    seen.target_identity.same(identity) && seen.fingerprint.same(fingerprint)
}

pub open spec fn changed_before_apply() -> ErrorView {
    workload_node::target_fault("workload target changed before apply"@)
}

/// What a readback after a write proves.
pub open spec fn apply_proof(
    mutation: MutationView,
    snapshot: SnapshotView,
    current: ObservationView,
    seen: Result<ObservationView, ErrorView>,
) -> Result<ApplyReceipt, ErrorView> {
    match seen {
        Err(e) => Err(e),
        Ok(state) => if proves(
            state,
            snapshot.target_identity,
            value::fingerprint_of(mutation.desired),
        ) {
            Ok(
                ApplyReceipt {
                    mutation_id: mutation.mutation_id,
                    observed_precondition: current.fingerprint,
                    observed_postcondition: state.fingerprint,
                    ownership_fingerprint: state.fingerprint,
                },
            )
        } else {
            Err(
                workload_node::fault(
                    ErrorCode::VerificationError,
                    "workload apply readback did not prove the desired value"@,
                ),
            )
        },
    }
}

/// What applying a mutation leaves and answers on a settled host.
pub open spec fn apply_spec<I: WorkloadControlIo>(
    model: I::Model,
    mutation: MutationView,
    snapshot: SnapshotView,
) -> (I::Model, Result<ApplyReceipt, ErrorView>) {
    match held::<I>(model, mutation.kind) {
        Err(e) => (model, Err(e)),
        Ok(current) => if !proves(current, snapshot.target_identity, mutation.precondition) {
            (model, Err(changed_before_apply()))
        } else {
            match I::objection(model, mutation.kind, mutation.desired) {
                Some(e) => (model, Err(e)),
                None => {
                    let (after, failed) = I::after_write(model, mutation.kind, mutation.desired);
                    match failed {
                        Some(e) => (after, Err(e)),
                        None => (
                            after,
                            apply_proof(mutation, snapshot, current, held::<I>(after, mutation.kind)),
                        ),
                    }
                },
            }
        },
    }
}

/// Whether applying a mutation leaves a host like this and answers so. A host that
/// comes back as it was has not been written.
pub open spec fn applies<I: WorkloadControlIo>(
    host: I,
    after: I,
    mutation: MutationView,
    snapshot: SnapshotView,
    answer: Result<ApplyReceipt, ErrorView>,
) -> bool {
    exists|seen: Result<ObservationView, ErrorView>| #[trigger]
        reads(host, mutation.kind, seen) && match seen {
            Err(e) => after == host && answer == Err::<ApplyReceipt, ErrorView>(e),
            Ok(current) => if !proves(current, snapshot.target_identity, mutation.precondition) {
                after == host && answer == Err::<ApplyReceipt, ErrorView>(changed_before_apply())
            } else {
                exists|objected: Option<ErrorView>| #[trigger]
                    objects(host, mutation.kind, mutation.desired, objected) && match objected {
                        Some(e) => after == host && answer == Err::<ApplyReceipt, ErrorView>(e),
                        None => exists|failed: Option<ErrorView>| #[trigger]
                            writes(host, after, mutation.kind, mutation.desired, failed)
                                && match failed {
                                Some(e) => answer == Err::<ApplyReceipt, ErrorView>(e),
                                None => exists|again: Result<ObservationView, ErrorView>|
                                    #[trigger]
                                    reads(after, mutation.kind, again) && answer == apply_proof(
                                        mutation,
                                        snapshot,
                                        current,
                                        again,
                                    ),
                            },
                    }
            },
        }
}

/// What a target is found to hold, by what was read.
pub open spec fn verified(
    identity: TargetIdentity,
    seen: Result<ObservationView, ErrorView>,
) -> Result<StateFingerprint, ErrorView> {
    match seen {
        Err(e) => Err(e),
        Ok(seen) => if seen.target_identity != identity {
            Err(
                workload_node::target_fault("workload target identity changed during verification"@),
            )
        } else {
            Ok(seen.fingerprint)
        },
    }
}

/// What reading back a mutation answers on a settled host.
pub open spec fn verify_spec<I: WorkloadControlIo>(
    model: I::Model,
    mutation: MutationView,
    identity: TargetIdentity,
) -> Result<StateFingerprint, ErrorView> {
    verified(identity, held::<I>(model, mutation.kind))
}

/// Whether reading back a mutation answers so: the target is read once.
pub open spec fn verifies<I: WorkloadControlIo>(
    host: I,
    mutation: MutationView,
    identity: TargetIdentity,
    answer: Result<StateFingerprint, ErrorView>,
) -> bool {
    exists|seen: Result<ObservationView, ErrorView>| #[trigger]
        reads(host, mutation.kind, seen) && answer == verified(identity, seen)
}

pub open spec fn foreign_value() -> ErrorView {
    workload_node::fault(
        ErrorCode::RestoreConflict,
        "workload target changed outside this session; restore refused"@,
    )
}

/// What a readback after giving back the original proves.
pub open spec fn restore_proof(
    mutation: MutationView,
    snapshot: SnapshotView,
    seen: Result<ObservationView, ErrorView>,
) -> Result<RestoreReceipt, ErrorView> {
    match seen {
        Err(e) => Err(e),
        Ok(state) => if proves(state, snapshot.target_identity, snapshot.original_fingerprint) {
            Ok(
                RestoreReceipt {
                    mutation_id: mutation.mutation_id,
                    restored_fingerprint: state.fingerprint,
                    verified: true,
                },
            )
        } else {
            Err(
                workload_node::fault(
                    ErrorCode::RestoreError,
                    "workload restore readback did not prove the captured original"@,
                ),
            )
        },
    }
}

pub open spec fn changed_before_restore() -> ErrorView {
    workload_node::target_fault("workload target identity changed before restore"@)
}

/// What restoring a mutation leaves and answers on a settled host.
pub open spec fn restore_spec<I: WorkloadControlIo>(
    model: I::Model,
    mutation: MutationView,
    snapshot: SnapshotView,
    ownership: StateFingerprint,
) -> (I::Model, Result<RestoreReceipt, ErrorView>) {
    match held::<I>(model, mutation.kind) {
        Err(e) => (model, Err(e)),
        Ok(current) => if current.target_identity != snapshot.target_identity {
            (model, Err(changed_before_restore()))
        } else if current.fingerprint != ownership {
            (model, Err(foreign_value()))
        } else {
            let (after, failed) = I::after_write(model, mutation.kind, snapshot.original_typed);
            match failed {
                Some(e) => (after, Err(e)),
                None => (
                    after,
                    restore_proof(mutation, snapshot, held::<I>(after, mutation.kind)),
                ),
            }
        },
    }
}

/// Whether restoring a mutation leaves a host like this and answers so. A host
/// that comes back as it was has not been written.
pub open spec fn restores<I: WorkloadControlIo>(
    host: I,
    after: I,
    mutation: MutationView,
    snapshot: SnapshotView,
    ownership: StateFingerprint,
    answer: Result<RestoreReceipt, ErrorView>,
) -> bool {
    exists|seen: Result<ObservationView, ErrorView>| #[trigger]
        reads(host, mutation.kind, seen) && match seen {
            Err(e) => after == host && answer == Err::<RestoreReceipt, ErrorView>(e),
            Ok(current) => if current.target_identity != snapshot.target_identity {
                after == host && answer == Err::<RestoreReceipt, ErrorView>(
                    changed_before_restore(),
                )
            } else if current.fingerprint != ownership {
                after == host && answer == Err::<RestoreReceipt, ErrorView>(foreign_value())
            } else {
                exists|failed: Option<ErrorView>| #[trigger]
                    writes(host, after, mutation.kind, snapshot.original_typed, failed)
                        && match failed {
                        Some(e) => answer == Err::<RestoreReceipt, ErrorView>(e),
                        None => exists|again: Result<ObservationView, ErrorView>| #[trigger]
                            reads(after, mutation.kind, again) && answer == restore_proof(
                                mutation,
                                snapshot,
                                again,
                            ),
                    }
            },
        }
}

/// What a backend does on a settled host goes by what the host holds, and by nothing
/// else.
pub proof fn settled_hosts_go_by_their_model<I: WorkloadControlIo>(
    host: I,
    after: I,
    mutation: MutationView,
    snapshot: SnapshotView,
)
    requires
        host.settled(),
    ensures
        forall|now: Timestamp, reply: Result<SnapshotView, ErrorView>| #[trigger]
            snapshots(host, mutation, now, reply) ==> reply == snapshot_spec::<I>(
                host.model(),
                mutation,
                now,
            ),
        forall|identity: TargetIdentity, reply: Result<StateFingerprint, ErrorView>| #[trigger]
            verifies(host, mutation, identity, reply) ==> reply == verify_spec::<I>(
                host.model(),
                mutation,
                identity,
            ),
        forall|reply: Result<ApplyReceipt, ErrorView>| #[trigger]
            applies(host, after, mutation, snapshot, reply) ==> (after.model(), reply)
                == apply_spec::<I>(host.model(), mutation, snapshot),
        forall|ownership: StateFingerprint, reply: Result<RestoreReceipt, ErrorView>| #[trigger]
            restores(host, after, mutation, snapshot, ownership, reply) ==> (after.model(), reply)
                == restore_spec::<I>(host.model(), mutation, snapshot, ownership),
{
}

/// Where every answer to the first read shows another object or another value than
/// was planned on, an apply writes nothing, whatever the host is.
pub proof fn no_host_is_changed_by_surprise<I: WorkloadControlIo>(
    host: I,
    after: I,
    mutation: MutationView,
    snapshot: SnapshotView,
    answer: Result<ApplyReceipt, ErrorView>,
)
    requires
        applies(host, after, mutation, snapshot, answer),
        forall|seen: Result<ObservationView, ErrorView>| #[trigger]
            reads(host, mutation.kind, seen) ==> seen is Ok && !proves(
                seen->Ok_0,
                snapshot.target_identity,
                mutation.precondition,
            ),
    ensures
        after == host,
        answer == Err::<ApplyReceipt, ErrorView>(changed_before_apply()),
{
}

/// Where every answer to the first read shows what somebody else wrote, a restore
/// writes nothing, whatever the host is.
pub proof fn no_host_loses_foreign_values<I: WorkloadControlIo>(
    host: I,
    after: I,
    mutation: MutationView,
    snapshot: SnapshotView,
    ownership: StateFingerprint,
    answer: Result<RestoreReceipt, ErrorView>,
)
    requires
        restores(host, after, mutation, snapshot, ownership, answer),
        forall|seen: Result<ObservationView, ErrorView>| #[trigger]
            reads(host, mutation.kind, seen) ==> seen is Ok && seen->Ok_0.target_identity
                == snapshot.target_identity && seen->Ok_0.fingerprint != ownership,
    ensures
        after == host,
        answer == Err::<RestoreReceipt, ErrorView>(foreign_value()),
{
}

/// An apply or a restore that succeeds ends with a read that proves it, whatever
/// the host is: the host that is left gave the answer.
pub proof fn success_is_read_back<I: WorkloadControlIo>(
    host: I,
    after: I,
    mutation: MutationView,
    snapshot: SnapshotView,
    ownership: StateFingerprint,
    applied: Result<ApplyReceipt, ErrorView>,
    restored: Result<RestoreReceipt, ErrorView>,
)
    ensures
        applies(host, after, mutation, snapshot, applied) && applied is Ok ==> exists|
            state: ObservationView,
        | #[trigger]
            reads(after, mutation.kind, Ok::<ObservationView, ErrorView>(state)) && proves(
                state,
                snapshot.target_identity,
                value::fingerprint_of(mutation.desired),
            ),
        restores(host, after, mutation, snapshot, ownership, restored) && restored is Ok
            ==> exists|state: ObservationView| #[trigger]
            reads(after, mutation.kind, Ok::<ObservationView, ErrorView>(state)) && proves(
                state,
                snapshot.target_identity,
                snapshot.original_fingerprint,
            ),
{
}

/// A change that is not the one that was planned is not made: where the target
/// is another object or holds another value, nothing is written.
pub proof fn changed_targets_are_not_written<I: WorkloadControlIo>(
    model: I::Model,
    mutation: MutationView,
    snapshot: SnapshotView,
    current: ObservationView,
)
    requires
        held::<I>(model, mutation.kind) == Ok::<ObservationView, ErrorView>(current),
        current.target_identity != snapshot.target_identity || current.fingerprint
            != mutation.precondition,
    ensures
        apply_spec::<I>(model, mutation, snapshot) == (
            model,
            Err::<ApplyReceipt, ErrorView>(changed_before_apply()),
        ),
{
}

/// What others wrote is left alone: where the target does not hold what the
/// session left there, restoring writes nothing and says so.
pub proof fn foreign_values_are_not_overwritten<I: WorkloadControlIo>(
    model: I::Model,
    mutation: MutationView,
    snapshot: SnapshotView,
    ownership: StateFingerprint,
    current: ObservationView,
)
    requires
        held::<I>(model, mutation.kind) == Ok::<ObservationView, ErrorView>(current),
        current.fingerprint != ownership,
    ensures
        ({
            let (after, answer) = restore_spec::<I>(model, mutation, snapshot, ownership);
            &&& after == model
            &&& answer is Err
            &&& current.target_identity == snapshot.target_identity ==> answer->Err_0
                == foreign_value()
        }),
{
}

/// An apply that succeeds is proved by a readback: the target then holds the
/// value that was asked for.
pub proof fn applied_values_are_read_back<I: WorkloadControlIo>(
    model: I::Model,
    mutation: MutationView,
    snapshot: SnapshotView,
)
    requires
        apply_spec::<I>(model, mutation, snapshot).1 is Ok,
    ensures
        ({
            let (after, answer) = apply_spec::<I>(model, mutation, snapshot);
            &&& held::<I>(after, mutation.kind) is Ok
            &&& proves(
                held::<I>(after, mutation.kind)->Ok_0,
                snapshot.target_identity,
                value::fingerprint_of(mutation.desired),
            )
            &&& answer->Ok_0.ownership_fingerprint == value::fingerprint_of(mutation.desired)
            &&& answer->Ok_0.observed_precondition == mutation.precondition
        }),
{
}

/// A restore that succeeds is proved by a readback: the target then holds what
/// was captured.
pub proof fn restored_values_are_read_back<I: WorkloadControlIo>(
    model: I::Model,
    mutation: MutationView,
    snapshot: SnapshotView,
    ownership: StateFingerprint,
)
    requires
        restore_spec::<I>(model, mutation, snapshot, ownership).1 is Ok,
    ensures
        ({
            let (after, answer) = restore_spec::<I>(model, mutation, snapshot, ownership);
            &&& held::<I>(after, mutation.kind) is Ok
            &&& proves(
                held::<I>(after, mutation.kind)->Ok_0,
                snapshot.target_identity,
                snapshot.original_fingerprint,
            )
            &&& answer->Ok_0.restored_fingerprint == snapshot.original_fingerprint
            &&& answer->Ok_0.verified
        }),
{
}

pub open spec fn wrong_target() -> ErrorView {
    workload_node::target_fault("workload target is not the canonical discovered target"@)
}

pub open spec fn changed_since_planning() -> ErrorView {
    workload_node::target_fault("workload target identity does not match the plan"@)
}

/// What checking the target of a mutation finds on a settled host.
pub open spec fn canonical_target_spec<I: WorkloadControlIo>(
    model: I::Model,
    mutation: MutationView,
    identity: TargetIdentity,
) -> Result<ObservationView, ErrorView> {
    match target_for(mutation.kind) {
        None => Err(not_owned()),
        Some(target) => if mutation.target != target {
            Err(wrong_target())
        } else {
            match held::<I>(model, mutation.kind) {
                Err(e) => Err(e),
                Ok(seen) => if seen.target_identity != identity {
                    Err(changed_since_planning())
                } else {
                    match I::objection(model, mutation.kind, mutation.desired) {
                        Some(e) => Err(e),
                        None => Ok(seen),
                    }
                },
            }
        },
    }
}

/// Whether checking the target of a mutation finds this: the target is read once,
/// and then the host is asked whether it takes the value.
pub open spec fn finds_target<I: WorkloadControlIo>(
    host: I,
    mutation: MutationView,
    identity: TargetIdentity,
    answer: Result<ObservationView, ErrorView>,
) -> bool {
    match target_for(mutation.kind) {
        None => answer == Err::<ObservationView, ErrorView>(not_owned()),
        Some(target) => if mutation.target != target {
            answer == Err::<ObservationView, ErrorView>(wrong_target())
        } else {
            exists|seen: Result<ObservationView, ErrorView>| #[trigger]
                reads(host, mutation.kind, seen) && match seen {
                    Err(e) => answer == Err::<ObservationView, ErrorView>(e),
                    Ok(state) => if state.target_identity != identity {
                        answer == Err::<ObservationView, ErrorView>(changed_since_planning())
                    } else {
                        exists|objected: Option<ErrorView>| #[trigger]
                            objects(host, mutation.kind, mutation.desired, objected)
                                && match objected {
                                Some(e) => answer == Err::<ObservationView, ErrorView>(e),
                                None => answer == seen,
                            }
                    },
                }
        },
    }
}

/// Why a target that was found is not what planning saw, if it is not.
pub open spec fn found_refusal(
    mutation: MutationView,
    found: Result<ObservationView, ErrorView>,
) -> Option<ErrorView> {
    match found {
        Err(e) => Some(e),
        Ok(seen) => if seen.fingerprint != mutation.precondition {
            Some(workload_node::target_fault("workload target value changed since planning"@))
        } else {
            None
        },
    }
}

/// Whether a capability goes with a mutation.
pub open spec fn capability_fits(kind: KindView, capability: Seq<char>) -> bool {
    match kind {
        KindView::CgroupCpuWeight { .. } => capability == "cgroup.cpu.weight"@,
        KindView::CgroupCpuMax { .. } => capability == "cgroup.cpu.max"@,
        KindView::CgroupCpuset { .. } => capability == "cgroup.cpuset.cpus"@,
        KindView::CgroupIoWeight { .. } => capability == "cgroup.io.weight"@,
        KindView::CgroupUclampMin { .. } => capability == "cgroup.uclamp"@,
        KindView::CgroupUclampMax { .. } => capability == "cgroup.uclamp"@,
        KindView::CgroupWorkload { .. } => capability == "cgroup.workload"@,
        KindView::CgroupBackground { .. } => capability == "cgroup.background"@,
        KindView::ProcessPlacement { .. } => capability == "scheduler.process.placement"@,
        KindView::ProcessNice { .. } => capability == "scheduler.nice"@,
        KindView::ProcessIoPriority { .. } => capability == "scheduler.ioprio"@,
        _ => false,
    }
}

fn fits_capability(kind: &MutationKind, capability: &CapabilityId) -> (r: bool)
    ensures
        r == capability_fits(kind@, capability@),
{
    let name = capability.as_str();
    match kind {
        MutationKind::CgroupCpuWeight { .. } => text::same(name, "cgroup.cpu.weight"),
        MutationKind::CgroupCpuMax { .. } => text::same(name, "cgroup.cpu.max"),
        MutationKind::CgroupCpuset { .. } => text::same(name, "cgroup.cpuset.cpus"),
        MutationKind::CgroupIoWeight { .. } => text::same(name, "cgroup.io.weight"),
        MutationKind::CgroupUclampMin { .. } => text::same(name, "cgroup.uclamp"),
        MutationKind::CgroupUclampMax { .. } => text::same(name, "cgroup.uclamp"),
        MutationKind::CgroupWorkload { .. } => text::same(name, "cgroup.workload"),
        MutationKind::CgroupBackground { .. } => text::same(name, "cgroup.background"),
        MutationKind::ProcessPlacement { .. } => text::same(name, "scheduler.process.placement"),
        MutationKind::ProcessNice { .. } => text::same(name, "scheduler.nice"),
        MutationKind::ProcessIoPriority { .. } => text::same(name, "scheduler.ioprio"),
        _ => false,
    }
}

/// Whether the backend owns a mutation.
pub open spec fn owns(described: BackendView, mutation: MutationView) -> bool {
    &&& described.operations.contains(mutation.kind.operation())
    &&& capability_fits(mutation.kind, mutation.capability)
    &&& described.capabilities.contains(mutation.capability)
}

pub open spec fn ownership_mismatch() -> ErrorView {
    workload_node::unsupported_fault("workload backend does not own operation/capability"@)
}

/// Why a mutation is not admitted on a settled host, if it is not.
pub open spec fn admission_refusal<I: WorkloadControlIo>(
    described: BackendView,
    model: I::Model,
    mutation: MutationView,
    identity: TargetIdentity,
) -> Option<ErrorView> {
    if !owns(described, mutation) {
        Some(ownership_mismatch())
    } else {
        found_refusal(mutation, canonical_target_spec::<I>(model, mutation, identity))
    }
}

/// Whether a mutation that is owned is refused so.
pub open spec fn refuses_target<I: WorkloadControlIo>(
    host: I,
    mutation: MutationView,
    identity: TargetIdentity,
    answer: Option<ErrorView>,
) -> bool {
    exists|found: Result<ObservationView, ErrorView>| #[trigger]
        finds_target(host, mutation, identity, found) && answer == found_refusal(mutation, found)
}

/// What the backend is and owns.
pub open spec fn workload_described() -> BackendView {
    BackendView {
        id: WORKLOAD_BACKEND_ID@,
        version: "prompt8"@,
        capabilities: seq![
            "cgroup.cpu.weight"@,
            "cgroup.cpu.max"@,
            "cgroup.cpuset.cpus"@,
            "cgroup.io.weight"@,
            "cgroup.uclamp"@,
            "cgroup.workload"@,
            "cgroup.background"@,
            "scheduler.process.placement"@,
            "scheduler.nice"@,
            "scheduler.ioprio"@,
        ],
        operations: seq![
            "cgroup.cpu.weight"@,
            "cgroup.cpu.max"@,
            "cgroup.cpuset.cpus"@,
            "cgroup.io.weight"@,
            "cgroup.uclamp.min"@,
            "cgroup.uclamp.max"@,
            "cgroup.workload"@,
            "cgroup.background"@,
            "scheduler.process.placement"@,
            "scheduler.nice"@,
            "scheduler.ioprio"@,
        ],
    }
}

/// The backend owns every mutation of a group or a process whose capability goes
/// with it, and no other.
pub proof fn workload_mutations_are_owned(mutation: MutationView)
    ensures
        owns(workload_described(), mutation) <==> capability_fits(
            mutation.kind,
            mutation.capability,
        ),
        capability_fits(mutation.kind, mutation.capability) ==> target_for(mutation.kind) is Some,
{
    let operations = workload_described().operations;
    let capabilities = workload_described().capabilities;
    assert(operations[0] == "cgroup.cpu.weight"@);
    assert(operations[1] == "cgroup.cpu.max"@);
    assert(operations[2] == "cgroup.cpuset.cpus"@);
    assert(operations[3] == "cgroup.io.weight"@);
    assert(operations[4] == "cgroup.uclamp.min"@);
    assert(operations[5] == "cgroup.uclamp.max"@);
    assert(operations[6] == "cgroup.workload"@);
    assert(operations[7] == "cgroup.background"@);
    assert(operations[8] == "scheduler.process.placement"@);
    assert(operations[9] == "scheduler.nice"@);
    assert(operations[10] == "scheduler.ioprio"@);
    assert(capabilities[0] == "cgroup.cpu.weight"@);
    assert(capabilities[1] == "cgroup.cpu.max"@);
    assert(capabilities[2] == "cgroup.cpuset.cpus"@);
    assert(capabilities[3] == "cgroup.io.weight"@);
    assert(capabilities[4] == "cgroup.uclamp"@);
    assert(capabilities[5] == "cgroup.workload"@);
    assert(capabilities[6] == "cgroup.background"@);
    assert(capabilities[7] == "scheduler.process.placement"@);
    assert(capabilities[8] == "scheduler.nice"@);
    assert(capabilities[9] == "scheduler.ioprio"@);
}

pub(crate) proof fn lemma_names()
    ensures
        WORKLOAD_BACKEND_ID@.len() > 0,
        "cgroup.cpu.weight"@.len() > 0,
        "cgroup.cpu.max"@.len() > 0,
        "cgroup.cpuset.cpus"@.len() > 0,
        "cgroup.io.weight"@.len() > 0,
        "cgroup.uclamp"@.len() > 0,
        "cgroup.uclamp.min"@.len() > 0,
        "cgroup.uclamp.max"@.len() > 0,
        "cgroup.workload"@.len() > 0,
        "cgroup.background"@.len() > 0,
        "scheduler.process.placement"@.len() > 0,
        "scheduler.nice"@.len() > 0,
        "scheduler.ioprio"@.len() > 0,
{
    reveal_strlit("linux.workload");
    reveal_strlit("cgroup.cpu.weight");
    reveal_strlit("cgroup.cpu.max");
    reveal_strlit("cgroup.cpuset.cpus");
    reveal_strlit("cgroup.io.weight");
    reveal_strlit("cgroup.uclamp");
    reveal_strlit("cgroup.uclamp.min");
    reveal_strlit("cgroup.uclamp.max");
    reveal_strlit("cgroup.workload");
    reveal_strlit("cgroup.background");
    reveal_strlit("scheduler.process.placement");
    reveal_strlit("scheduler.nice");
    reveal_strlit("scheduler.ioprio");
}

fn describe_backend() -> (r: BackendDescriptor)
    ensures
        r@ == workload_described(),
{
    proof {
        lemma_names();
    }
    let mut capabilities: Vec<CapabilityId> = Vec::new();
    capabilities.push(capability::capability_named("cgroup.cpu.weight"));
    capabilities.push(capability::capability_named("cgroup.cpu.max"));
    capabilities.push(capability::capability_named("cgroup.cpuset.cpus"));
    capabilities.push(capability::capability_named("cgroup.io.weight"));
    capabilities.push(capability::capability_named("cgroup.uclamp"));
    capabilities.push(capability::capability_named("cgroup.workload"));
    capabilities.push(capability::capability_named("cgroup.background"));
    capabilities.push(capability::capability_named("scheduler.process.placement"));
    capabilities.push(capability::capability_named("scheduler.nice"));
    capabilities.push(capability::capability_named("scheduler.ioprio"));
    let mut operations: Vec<OperationId> = Vec::new();
    operations.push(mutation::operation_named("cgroup.cpu.weight"));
    operations.push(mutation::operation_named("cgroup.cpu.max"));
    operations.push(mutation::operation_named("cgroup.cpuset.cpus"));
    operations.push(mutation::operation_named("cgroup.io.weight"));
    operations.push(mutation::operation_named("cgroup.uclamp.min"));
    operations.push(mutation::operation_named("cgroup.uclamp.max"));
    operations.push(mutation::operation_named("cgroup.workload"));
    operations.push(mutation::operation_named("cgroup.background"));
    operations.push(mutation::operation_named("scheduler.process.placement"));
    operations.push(mutation::operation_named("scheduler.nice"));
    operations.push(mutation::operation_named("scheduler.ioprio"));
    let r = BackendDescriptor {
        id: capability::backend_named(WORKLOAD_BACKEND_ID),
        version: "prompt8".to_string(),
        capabilities,
        operations,
    };
    assert(r@.capabilities =~= workload_described().capabilities);
    assert(r@.operations =~= workload_described().operations);
    r
}

/// Reads of the groups and processes of a host. Nothing can be written through
/// it.
pub struct WorkloadInspection<'a, I> {
    io: &'a I,
}

/// A request about the nice value of a process.
pub open spec fn nice_request(process: ProcessId) -> KindView {
    KindView::ProcessNice { process, nice: NiceValue { value: 0 } }
}

/// A request about the group of a process.
pub open spec fn placement_request(process: ProcessId) -> KindView {
    KindView::ProcessPlacement {
        process,
        cgroup: CgroupView { mount_id: 0, inode: 0, handle: workload_node::ROOT_TARGET@ },
    }
}

/// A request about the I/O priority of a process.
pub open spec fn priority_request(process: ProcessId) -> KindView {
    KindView::ProcessIoPriority {
        process,
        priority: IoPriority { class: IoPriorityClass::Unset, level: 0 },
    }
}

/// The nice value that was read.
pub open spec fn read_nice_spec(seen: Result<ObservationView, ErrorView>) -> Result<
    NiceValue,
    ErrorView,
> {
    match seen {
        Err(e) => Err(e),
        Ok(seen) => match seen.typed {
            ValueView::Nice(nice) => Ok(nice),
            _ => Err(
                workload_node::fault(
                    ErrorCode::InvariantViolation,
                    "workload inspection returned a non-nice process value"@,
                ),
            ),
        },
    }
}

/// The group that was read.
pub open spec fn read_placement_spec(seen: Result<ObservationView, ErrorView>) -> Result<
    CgroupView,
    ErrorView,
> {
    match seen {
        Err(e) => Err(e),
        Ok(seen) => match seen.typed {
            ValueView::ProcessPlacement(group) => Ok(group),
            _ => Err(
                workload_node::fault(
                    ErrorCode::InvariantViolation,
                    "workload inspection returned a non-placement process value"@,
                ),
            ),
        },
    }
}

/// The I/O priority that was read.
pub open spec fn read_priority_spec(seen: Result<ObservationView, ErrorView>) -> Result<
    IoPriority,
    ErrorView,
> {
    match seen {
        Err(e) => Err(e),
        Ok(seen) => match seen.typed {
            ValueView::IoPriority(priority) => Ok(priority),
            _ => Err(
                workload_node::fault(
                    ErrorCode::InvariantViolation,
                    "workload inspection returned a non-ioprio process value"@,
                ),
            ),
        },
    }
}

/// The root of the control groups, whatever object it is.
fn any_root() -> (r: CgroupId)
    ensures
        r@ == (CgroupView { mount_id: 0, inode: 0, handle: workload_node::ROOT_TARGET@ }),
{
    proof {
        reveal_strlit("cgroup.root");
    }
    match TargetId::new(workload_node::ROOT_TARGET) {
        Ok(handle) => CgroupId::new(0, 0, handle),
        Err(_) => {
            assert(false);
            vstd::pervasive::unreached()
        },
    }
}

impl<'a, I: WorkloadControlIo> WorkloadInspection<'a, I> {
    /// The host that is read.
    pub closed spec fn host(&self) -> I {
        *self.io
    }

    /// The groups of the host.
    pub fn targets(&self) -> (r: Result<Vec<WorkloadTarget>, SysboostError>)
        ensures
            lists(self.host(), targets_reply(r)),
    {
        self.io.targets()
    }

    /// Reads a control.
    pub fn read(&self, group: &CgroupId, node: WorkloadNode) -> (r: Result<Vec<u8>, SysboostError>)
        ensures
            holds(self.host(), group@, node, crate::filesystem::bytes_reply(r)),
    {
        self.io.read_node(group, node)
    }

    /// Reads the nice value of a process.
    pub fn read_nice(&self, process: ProcessId) -> (r: Result<NiceValue, SysboostError>)
        ensures
            exists|seen: Result<ObservationView, ErrorView>| #[trigger]
                reads_process(self.host(), nice_request(process), seen) && crate::error::plain(r)
                    == read_nice_spec(seen),
            self.host().settled() ==> crate::error::plain(r) == read_nice_spec(
                I::process_of(self.host().model(), nice_request(process)),
            ),
    {
        let kind = MutationKind::ProcessNice { process, nice: NiceValue { value: 0 } };
        let seen = self.io.read_process(&kind);
        assert(reads_process(self.host(), kind@, crate::error::viewed(seen)));
        match seen {
            Err(e) => Err(e),
            Ok(seen) => match seen.typed {
                TypedValue::Nice(nice) => Ok(nice),
                _ => Err(
                    workload_node::workload_error(
                        ErrorCode::InvariantViolation,
                        "workload inspection returned a non-nice process value",
                    ),
                ),
            },
        }
    }

    /// Reads the group of a process.
    pub fn read_placement(&self, process: ProcessId) -> (r: Result<CgroupId, SysboostError>)
        ensures
            exists|seen: Result<ObservationView, ErrorView>| #[trigger]
                reads_process(self.host(), placement_request(process), seen) && crate::error::viewed(r)
                    == read_placement_spec(seen),
            self.host().settled() ==> crate::error::viewed(r) == read_placement_spec(
                I::process_of(self.host().model(), placement_request(process)),
            ),
    {
        let kind = MutationKind::ProcessPlacement { process, cgroup: any_root() };
        let seen = self.io.read_process(&kind);
        assert(reads_process(self.host(), kind@, crate::error::viewed(seen)));
        match seen {
            Err(e) => Err(e),
            Ok(seen) => match seen.typed {
                TypedValue::ProcessPlacement(group) => Ok(group),
                _ => Err(
                    workload_node::workload_error(
                        ErrorCode::InvariantViolation,
                        "workload inspection returned a non-placement process value",
                    ),
                ),
            },
        }
    }

    /// Reads the I/O priority of a process.
    pub fn read_ioprio(&self, process: ProcessId) -> (r: Result<IoPriority, SysboostError>)
        ensures
            exists|seen: Result<ObservationView, ErrorView>| #[trigger]
                reads_process(self.host(), priority_request(process), seen) && crate::error::plain(r)
                    == read_priority_spec(seen),
            self.host().settled() ==> crate::error::plain(r) == read_priority_spec(
                I::process_of(self.host().model(), priority_request(process)),
            ),
    {
        let kind = MutationKind::ProcessIoPriority {
            process,
            priority: IoPriority { class: IoPriorityClass::Unset, level: 0 },
        };
        let seen = self.io.read_process(&kind);
        assert(reads_process(self.host(), kind@, crate::error::viewed(seen)));
        match seen {
            Err(e) => Err(e),
            Ok(seen) => match seen.typed {
                TypedValue::IoPriority(priority) => Ok(priority),
                _ => Err(
                    workload_node::workload_error(
                        ErrorCode::InvariantViolation,
                        "workload inspection returned a non-ioprio process value",
                    ),
                ),
            },
        }
    }
}

/// The backend for groups and processes.
pub struct WorkloadBackend<I> {
    io: I,
    descriptor: BackendDescriptor,
}

impl<I: WorkloadControlIo> WorkloadBackend<I> {
    /// The host that the backend works on.
    pub closed spec fn host(&self) -> I {
        self.io
    }

    /// A backend over a host.
    pub fn new(io: I) -> (r: WorkloadBackend<I>)
        ensures
            r.host() == io,
            r.described() == workload_described(),
    {
        WorkloadBackend { io, descriptor: describe_backend() }
    }

    /// Reads of the host.
    pub fn io(&self) -> (r: WorkloadInspection<'_, I>)
        ensures
            r.host() == self.host(),
    {
        WorkloadInspection { io: &self.io }
    }

    pub(crate) fn io_mut(&mut self) -> (r: &mut I)
        ensures
            *r == old(self).host(),
            final(self).host() == *final(r),
            final(self).described() == old(self).described(),
    {
        &mut self.io
    }

    /// What the host can do, as it is found at a time that may not be known.
    pub fn inventory_at(&self, time: Result<Timestamp, SysboostError>) -> (r: Result<
        CapabilityInventory,
        SysboostError,
    >)
        ensures
            match (time, r) {
                (Err(e), Err(f)) => e == f,
                (Ok(_), Err(f)) => offers(
                    self.host(),
                    Err::<Seq<CapabilityView>, ErrorView>(f@),
                ),
                (Ok(at), Ok(inventory)) => inventory.observed_at == at && offers(
                    self.host(),
                    Ok::<Seq<CapabilityView>, ErrorView>(
                        capability::capabilities_view(inventory.capabilities@),
                    ),
                ),
                (Err(_), Ok(_)) => false,
            },
    {
        let observed_at = match time {
            Ok(time) => time,
            Err(e) => {
                return Err(e);
            },
        };
        match self.io.capabilities() {
            Ok(capabilities) => Ok(CapabilityInventory { observed_at, capabilities }),
            Err(e) => Err(e),
        }
    }

    /// Reads what the target of a mutation holds.
    pub fn read(&self, mutation: &PlannedMutation) -> (r: Result<
        WorkloadObservation,
        SysboostError,
    >)
        ensures
            reads(self.host(), mutation@.kind, crate::error::viewed(r)),
    {
        match &mutation.kind {
            MutationKind::ProcessNice { .. } => self.io.read_process(&mutation.kind),
            MutationKind::ProcessIoPriority { .. } => self.io.read_process(&mutation.kind),
            MutationKind::ProcessPlacement { .. } => self.io.read_process(&mutation.kind),
            _ => self.io.read_mutation(&mutation.kind),
        }
    }

    fn check_desired(&self, kind: &MutationKind, desired: &TypedValue) -> (r: Result<
        (),
        SysboostError,
    >)
        ensures
            objects(self.host(), kind@, desired@, cpu::failure(r)),
    {
        self.io.validate_desired(kind, desired)
    }

    fn change(&mut self, kind: &MutationKind, desired: &TypedValue) -> (r: Result<
        (),
        SysboostError,
    >)
        ensures
            final(self).described() == old(self).described(),
            writes(old(self).host(), final(self).host(), kind@, desired@, cpu::failure(r)),
    {
        self.io.write_mutation(kind, desired)
    }

    /// Checks that the target of a mutation is the one that planning saw, and
    /// reads it.
    pub fn validate_canonical_target(
        &self,
        mutation: &PlannedMutation,
        expected_target_identity: TargetIdentity,
    ) -> (r: Result<WorkloadObservation, SysboostError>)
        ensures
            finds_target(
                self.host(),
                mutation@,
                expected_target_identity,
                crate::error::viewed(r),
            ),
            self.host().settled() ==> crate::error::viewed(r) == canonical_target_spec::<I>(
                self.host().model(),
                mutation@,
                expected_target_identity,
            ),
    {
        let target = match expected_target(mutation) {
            Ok(target) => target,
            Err(e) => {
                return Err(e);
            },
        };
        if !mutation.target.same(&target) {
            return Err(
                workload_node::target_error(
                    "workload target is not the canonical discovered target",
                ),
            );
        }
        let seen = match self.read(mutation) {
            Ok(seen) => seen,
            Err(e) => {
                return Err(e);
            },
        };
        if !seen.target_identity.same(&expected_target_identity) {
            return Err(
                workload_node::target_error("workload target identity does not match the plan"),
            );
        }
        match self.check_desired(&mutation.kind, &mutation.desired) {
            Ok(_) => Ok(seen),
            Err(e) => Err(e),
        }
    }

    /// Captures what a target holds before it is changed.
    pub fn snapshot_internal(&self, mutation: &PlannedMutation, now: Timestamp) -> (r: Result<
        Snapshot,
        SysboostError,
    >)
        ensures
            snapshots(self.host(), mutation@, now, crate::error::viewed(r)),
            self.host().settled() ==> crate::error::viewed(r) == snapshot_spec::<I>(
                self.host().model(),
                mutation@,
                now,
            ),
    {
        let seen = match self.read(mutation) {
            Ok(seen) => seen,
            Err(e) => {
                return Err(e);
            },
        };
        if let Err(e) = validate_observation(mutation, &seen, &seen.target_identity) {
            return Err(e);
        }
        if seen.typed.same(&mutation.desired) {
            return Err(
                workload_node::workload_error(
                    ErrorCode::InvariantViolation,
                    "workload mutation already equals its current value",
                ),
            );
        }
        Ok(
            Snapshot {
                mutation_id: mutation.mutation_id,
                target: mutation.target.clone(),
                original_raw: seen.raw,
                original_typed: seen.typed,
                original_fingerprint: seen.fingerprint,
                equality: mutation.equality,
                target_identity: seen.target_identity,
                captured_at: now,
            },
        )
    }

    /// Changes a target.
    pub fn apply_internal(&mut self, mutation: &PlannedMutation, snapshot: &Snapshot) -> (r: Result<
        ApplyReceipt,
        SysboostError,
    >)
        ensures
            final(self).described() == old(self).described(),
            applies(
                old(self).host(),
                final(self).host(),
                mutation@,
                snapshot@,
                crate::error::plain(r),
            ),
            final(self).host().settled() == old(self).host().settled(),
            old(self).host().settled() ==> (final(self).host().model(), crate::error::plain(r))
                == apply_spec::<I>(old(self).host().model(), mutation@, snapshot@),
            r matches Ok(receipt) ==> receipt == (ApplyReceipt {
                mutation_id: mutation.mutation_id,
                observed_precondition: mutation.precondition,
                observed_postcondition: value::fingerprint_of(mutation.desired@),
                ownership_fingerprint: value::fingerprint_of(mutation.desired@),
            }),
    {
        let current = match self.read(mutation) {
            Ok(seen) => seen,
            Err(e) => {
                return Err(e);
            },
        };
        if !is_proved(&current, &snapshot.target_identity, &mutation.precondition) {
            return Err(workload_node::target_error("workload target changed before apply"));
        }
        if let Err(e) = self.check_desired(&mutation.kind, &mutation.desired) {
            return Err(e);
        }
        if let Err(e) = self.change(&mutation.kind, &mutation.desired) {
            return Err(e);
        }
        let after = match self.read(mutation) {
            Ok(seen) => seen,
            Err(e) => {
                return Err(e);
            },
        };
        let fingerprint = value::fingerprint_for_value(&mutation.desired);
        if !is_proved(&after, &snapshot.target_identity, &fingerprint) {
            return Err(
                workload_node::workload_error(
                    ErrorCode::VerificationError,
                    "workload apply readback did not prove the desired value",
                ),
            );
        }
        Ok(
            ApplyReceipt {
                mutation_id: mutation.mutation_id,
                observed_precondition: current.fingerprint,
                observed_postcondition: after.fingerprint,
                ownership_fingerprint: after.fingerprint,
            },
        )
    }

    /// The fingerprint of what a target holds now.
    pub fn verify_internal(
        &self,
        mutation: &PlannedMutation,
        expected_target_identity: TargetIdentity,
    ) -> (r: Result<StateFingerprint, SysboostError>)
        ensures
            verifies(self.host(), mutation@, expected_target_identity, crate::error::plain(r)),
            self.host().settled() ==> crate::error::plain(r) == verify_spec::<I>(
                self.host().model(),
                mutation@,
                expected_target_identity,
            ),
    {
        let seen = match self.read(mutation) {
            Ok(seen) => seen,
            Err(e) => {
                return Err(e);
            },
        };
        if !seen.target_identity.same(&expected_target_identity) {
            return Err(
                workload_node::target_error("workload target identity changed during verification"),
            );
        }
        Ok(seen.fingerprint)
    }

    /// Gives a target back what it held. What others wrote is left alone.
    pub fn restore_internal(
        &mut self,
        mutation: &PlannedMutation,
        snapshot: &Snapshot,
        expected_ownership: StateFingerprint,
    ) -> (r: Result<RestoreReceipt, SysboostError>)
        ensures
            final(self).described() == old(self).described(),
            restores(
                old(self).host(),
                final(self).host(),
                mutation@,
                snapshot@,
                expected_ownership,
                crate::error::plain(r),
            ),
            final(self).host().settled() == old(self).host().settled(),
            old(self).host().settled() ==> (final(self).host().model(), crate::error::plain(r))
                == restore_spec::<I>(
                old(self).host().model(),
                mutation@,
                snapshot@,
                expected_ownership,
            ),
            r matches Ok(receipt) ==> receipt == (RestoreReceipt {
                mutation_id: mutation.mutation_id,
                restored_fingerprint: snapshot.original_fingerprint,
                verified: true,
            }),
    {
        let current = match self.read(mutation) {
            Ok(seen) => seen,
            Err(e) => {
                return Err(e);
            },
        };
        if !current.target_identity.same(&snapshot.target_identity) {
            return Err(
                workload_node::target_error("workload target identity changed before restore"),
            );
        }
        if !current.fingerprint.same(&expected_ownership) {
            return Err(
                workload_node::workload_error(
                    ErrorCode::RestoreConflict,
                    "workload target changed outside this session; restore refused",
                ),
            );
        }
        if let Err(e) = self.change(&mutation.kind, &snapshot.original_typed) {
            return Err(e);
        }
        let restored = match self.read(mutation) {
            Ok(seen) => seen,
            Err(e) => {
                return Err(e);
            },
        };
        if !is_proved(&restored, &snapshot.target_identity, &snapshot.original_fingerprint) {
            return Err(
                workload_node::workload_error(
                    ErrorCode::RestoreError,
                    "workload restore readback did not prove the captured original",
                ),
            );
        }
        Ok(
            RestoreReceipt {
                mutation_id: mutation.mutation_id,
                restored_fingerprint: restored.fingerprint,
                verified: true,
            },
        )
    }
}

/// How a workload backend acts on its host.
pub open spec fn workload_conduct<I: WorkloadControlIo>() -> Conduct {
    Conduct {
        members: Seq::empty(),
        described: Seq::empty(),
        parts: Seq::empty(),
        snapshots: |
            shown: Shown,
            mutation: MutationView,
            now: Timestamp,
            reply: Result<SnapshotView, ErrorView>,
        |
            exists|host: I| #[trigger]
                snapshots(host, mutation, now, reply) && host.shown() == shown,
        applies: |
            shown: Shown,
            after: Shown,
            mutation: MutationView,
            snapshot: SnapshotView,
            reply: Result<ApplyReceipt, ErrorView>,
        |
            exists|host: I, left: I| #[trigger]
                applies(host, left, mutation, snapshot, reply) && host.shown() == shown
                    && left.shown() == after,
        verifies: |
            shown: Shown,
            mutation: MutationView,
            identity: TargetIdentity,
            reply: Result<StateFingerprint, ErrorView>,
        |
            exists|host: I| #[trigger]
                verifies(host, mutation, identity, reply) && host.shown() == shown,
        restores: |
            shown: Shown,
            after: Shown,
            mutation: MutationView,
            snapshot: SnapshotView,
            ownership: StateFingerprint,
            reply: Result<RestoreReceipt, ErrorView>,
        |
            exists|host: I, left: I| #[trigger]
                restores(host, left, mutation, snapshot, ownership, reply) && host.shown()
                    == shown && left.shown() == after,
    }
}

impl<I: WorkloadControlIo> MutationBackend for WorkloadBackend<I> {
    closed spec fn described(&self) -> BackendView {
        self.descriptor@
    }

    open spec fn may_detect(
        &self,
        told: Set<Result<Timestamp, ErrorView>>,
        reply: Result<CapabilityInventory, ErrorView>,
    ) -> bool {
        exists|time: Result<Timestamp, ErrorView>| #[trigger]
            told.contains(time) && match (time, reply) {
                (Err(e), Err(f)) => f == e,
                (Ok(_), Err(f)) => offers(self.host(), Err::<Seq<CapabilityView>, ErrorView>(f)),
                (Ok(at), Ok(inventory)) => inventory.observed_at == at && offers(
                    self.host(),
                    Ok::<Seq<CapabilityView>, ErrorView>(
                        capability::capabilities_view(inventory.capabilities@),
                    ),
                ),
                (Err(_), Ok(_)) => false,
            }
    }

    open spec fn may_snapshot(
        &self,
        mutation: MutationView,
        now: Timestamp,
        reply: Result<SnapshotView, ErrorView>,
    ) -> bool {
        snapshots(self.host(), mutation, now, reply)
    }

    open spec fn shown(&self) -> Shown {
        self.host().shown()
    }

    open spec fn conduct(&self) -> Conduct {
        workload_conduct::<I>()
    }

    open spec fn may_apply(
        &self,
        after: Shown,
        mutation: MutationView,
        snapshot: SnapshotView,
        reply: Result<ApplyReceipt, ErrorView>,
    ) -> bool {
        exists|left: I| #[trigger]
            applies(self.host(), left, mutation, snapshot, reply) && after == left.shown()
    }

    open spec fn may_verify(
        &self,
        mutation: MutationView,
        expected: StateFingerprint,
        identity: TargetIdentity,
        reply: Result<StateFingerprint, ErrorView>,
    ) -> bool {
        verifies(self.host(), mutation, identity, reply)
    }

    open spec fn may_restore(
        &self,
        after: Shown,
        mutation: MutationView,
        snapshot: SnapshotView,
        ownership: StateFingerprint,
        reply: Result<RestoreReceipt, ErrorView>,
    ) -> bool {
        exists|left: I| #[trigger]
            restores(self.host(), left, mutation, snapshot, ownership, reply) && after
                == left.shown()
    }

    open spec fn may_own(&self, backend: Seq<char>, reply: bool) -> bool {
        reply == (self.described().id == backend)
    }

    open spec fn may_admit(
        &self,
        mutation: MutationView,
        identity: TargetIdentity,
        reply: Result<(), ErrorView>,
    ) -> bool {
        if owns(self.described(), mutation) {
            refuses_target(self.host(), mutation, identity, cpu::refusal(reply))
        } else {
            reply == Err::<(), ErrorView>(ownership_mismatch())
        }
    }

    open spec fn may_target(
        &self,
        mutation: MutationView,
        identity: TargetIdentity,
        reply: Result<(), ErrorView>,
    ) -> bool {
        exists|found: Result<ObservationView, ErrorView>| #[trigger]
            finds_target(self.host(), mutation, identity, found) && match (found, reply) {
                (Ok(_), Ok(_)) => true,
                (Err(e), Err(f)) => f == e,
                _ => false,
            }
    }

    fn descriptor(&self) -> (r: &BackendDescriptor) {
        &self.descriptor
    }

    fn detect(&self, clock: &dyn Clock) -> (r: Result<CapabilityInventory, SysboostError>)
        ensures
            self.may_detect(crate::clock::times(clock), crate::error::plain(r)),
    {
        let told = clock.now();
        proof {
            crate::clock::lemma_times(clock);
        }
        assert(crate::clock::times(clock).contains(crate::error::plain(told)));
        self.inventory_at(told)
    }

    fn snapshot(
        &self,
        execution: &BackendExecutionToken,
        mutation: &PlannedMutation,
        now: Timestamp,
    ) -> (r: Result<Snapshot, SysboostError>)
        ensures
            snapshots(self.host(), mutation@, now, crate::error::viewed(r)),
            self.host().settled() ==> crate::error::viewed(r) == snapshot_spec::<I>(
                self.host().model(),
                mutation@,
                now,
            ),
    {
        self.snapshot_internal(mutation, now)
    }

    fn apply(
        &mut self,
        execution: &BackendExecutionToken,
        mutation: &PlannedMutation,
        snapshot: &Snapshot,
    ) -> (r: Result<ApplyReceipt, SysboostError>)
        ensures
            applies(
                old(self).host(),
                final(self).host(),
                mutation@,
                snapshot@,
                crate::error::plain(r),
            ),
            old(self).host().settled() ==> (final(self).host().model(), crate::error::plain(r))
                == apply_spec::<I>(old(self).host().model(), mutation@, snapshot@),
    {
        self.apply_internal(mutation, snapshot)
    }

    fn verify(
        &self,
        execution: &BackendExecutionToken,
        mutation: &PlannedMutation,
        expected: StateFingerprint,
        expected_target_identity: TargetIdentity,
    ) -> (r: Result<StateFingerprint, SysboostError>)
        ensures
            verifies(self.host(), mutation@, expected_target_identity, crate::error::plain(r)),
            self.host().settled() ==> crate::error::plain(r) == verify_spec::<I>(
                self.host().model(),
                mutation@,
                expected_target_identity,
            ),
    {
        self.verify_internal(mutation, expected_target_identity)
    }

    fn restore(
        &mut self,
        execution: &BackendExecutionToken,
        mutation: &PlannedMutation,
        snapshot: &Snapshot,
        expected_ownership: StateFingerprint,
    ) -> (r: Result<RestoreReceipt, SysboostError>)
        ensures
            restores(
                old(self).host(),
                final(self).host(),
                mutation@,
                snapshot@,
                expected_ownership,
                crate::error::plain(r),
            ),
            old(self).host().settled() ==> (final(self).host().model(), crate::error::plain(r))
                == restore_spec::<I>(
                old(self).host().model(),
                mutation@,
                snapshot@,
                expected_ownership,
            ),
    {
        self.restore_internal(mutation, snapshot, expected_ownership)
    }

    fn validate_admission(
        &self,
        mutation: &PlannedMutation,
        expected_target_identity: TargetIdentity,
    ) -> (r: Result<(), SysboostError>)
        ensures
            !owns(self.described(), mutation@) ==> cpu::failure(r) == Some(ownership_mismatch()),
            owns(self.described(), mutation@) ==> refuses_target(
                self.host(),
                mutation@,
                expected_target_identity,
                cpu::failure(r),
            ),
            self.host().settled() ==> cpu::failure(r) == admission_refusal::<I>(
                self.described(),
                self.host().model(),
                mutation@,
                expected_target_identity,
            ),
    {
        if !self.descriptor.owns_operation(mutation.kind.operation_name()) || !fits_capability(
            &mutation.kind,
            &mutation.capability,
        ) || !self.descriptor.owns_capability(mutation.capability.as_str()) {
            return Err(
                workload_node::unsupported("workload backend does not own operation/capability"),
            );
        }
        match self.validate_canonical_target(mutation, expected_target_identity) {
            Err(e) => Err(e),
            Ok(seen) => if seen.fingerprint.same(&mutation.precondition) {
                Ok(())
            } else {
                Err(workload_node::target_error("workload target value changed since planning"))
            },
        }
    }

    fn validate_target(
        &self,
        mutation: &PlannedMutation,
        expected_target_identity: TargetIdentity,
    ) -> (r: Result<(), SysboostError>)
        ensures
            exists|found: Result<ObservationView, ErrorView>| #[trigger]
                finds_target(self.host(), mutation@, expected_target_identity, found) && match (
                    found,
                    r,
                ) {
                    (Ok(_), Ok(_)) => true,
                    (Err(e), Err(f)) => f@ == e,
                    _ => false,
                },
            self.host().settled() ==> crate::error::plain(r) == match canonical_target_spec::<I>(
                self.host().model(),
                mutation@,
                expected_target_identity,
            ) {
                Ok(_) => Ok::<(), ErrorView>(()),
                Err(e) => Err::<(), ErrorView>(e),
            },
    {
        match self.validate_canonical_target(mutation, expected_target_identity) {
            Ok(_) => Ok(()),
            Err(e) => Err(e),
        }
    }
}

/// Puts the children of a supervised process into one group. It looks no process
/// up and stops none.
#[derive(Debug, PartialEq, Eq)]
pub struct ChildProcessSupervisor {
    destination: CgroupId,
}

impl ChildProcessSupervisor {
    /// The group that children go to.
    pub closed spec fn group(&self) -> CgroupView {
        self.destination@
    }

    pub fn new(destination: CgroupId) -> (r: ChildProcessSupervisor)
        ensures
            r.group() == destination@,
    {
        ChildProcessSupervisor { destination }
    }

    pub fn destination(&self) -> (r: &CgroupId)
        ensures
            r@ == self.group(),
    {
        &self.destination
    }

    /// The mutation that puts a child into the group.
    pub fn placement_for_child(&self, process: ProcessId) -> (r: MutationKind)
        ensures
            r@ == (KindView::ProcessPlacement { process, cgroup: self.group() }),
    {
        MutationKind::ProcessPlacement { process, cgroup: self.destination.clone() }
    }

    /// A child was seen to start.
    pub fn on_child_started(&self, process: ProcessId) -> (r: MutationKind)
        ensures
            r@ == (KindView::ProcessPlacement { process, cgroup: self.group() }),
    {
        self.placement_for_child(process)
    }

    /// A child is gone. There is nothing to clean up.
    pub fn on_child_exited(&self, process: ProcessId) {
    }
}

/// A capability of the backend.
pub open spec fn group_capability(
    capability: Seq<char>,
    operation: Seq<char>,
    target_kind: TargetKind,
    equality: EqualityKind,
    state: CapabilityState,
    classification: FeatureClass,
    evidence: Seq<char>,
) -> CapabilityView {
    capability::single_capability(
        capability,
        WORKLOAD_BACKEND_ID@,
        operation,
        target_kind,
        equality,
        state,
        RiskClass::Medium,
        classification,
        EvidenceSource::CgroupV2,
        evidence,
    )
}

/// A capability of the backend.
pub(crate) fn workload_capability(
    capability: &str,
    operation: &str,
    target_kind: TargetKind,
    equality: EqualityKind,
    state: CapabilityState,
    classification: FeatureClass,
    evidence: &str,
) -> (r: CapabilityDescriptor)
    requires
        capability@.len() > 0,
        operation@.len() > 0,
    ensures
        r@ == group_capability(
            capability@,
            operation@,
            target_kind,
            equality,
            state,
            classification,
            evidence@,
        ),
{
    proof {
        lemma_names();
    }
    capability::describe_capability(
        capability,
        WORKLOAD_BACKEND_ID,
        operation,
        target_kind,
        equality,
        state,
        RiskClass::Medium,
        classification,
        EvidenceSource::CgroupV2,
        evidence,
    )
}

/// A capability of the backend about processes of a real host.
pub open spec fn process_capability_spec(
    name: Seq<char>,
    state: CapabilityState,
    risk: RiskClass,
    classification: FeatureClass,
    evidence: Seq<char>,
) -> CapabilityView {
    capability::single_capability(
        name,
        WORKLOAD_BACKEND_ID@,
        name,
        TargetKind::Process,
        EqualityKind::ScalarExact,
        state,
        risk,
        classification,
        EvidenceSource::Procfs,
        evidence,
    )
}

fn process_capability(
    name: &str,
    state: CapabilityState,
    risk: RiskClass,
    classification: FeatureClass,
    evidence: &str,
) -> (r: CapabilityDescriptor)
    requires
        name@.len() > 0,
    ensures
        r@ == process_capability_spec(name@, state, risk, classification, evidence@),
{
    proof {
        lemma_names();
    }
    capability::describe_capability(
        name,
        WORKLOAD_BACKEND_ID,
        name,
        TargetKind::Process,
        EqualityKind::ScalarExact,
        state,
        risk,
        classification,
        EvidenceSource::Procfs,
        evidence,
    )
}

/// One operation on a clamp.
pub open spec fn clamp_operation(name: Seq<char>) -> OperationView {
    OperationView {
        id: name,
        privilege: PrivilegeRequirement::PrivilegedMutation,
        equality: EqualityKind::ScalarExact,
        classification: FeatureClass::Conditional,
    }
}

/// The capability about utilization clamps, which has two operations.
pub open spec fn uclamp_capability_spec(state: CapabilityState, evidence: Seq<char>)
    -> CapabilityView {
    CapabilityView {
        id: "cgroup.uclamp"@,
        backend: WORKLOAD_BACKEND_ID@,
        target_kind: TargetKind::Cgroup,
        state,
        operations: seq![
            clamp_operation("cgroup.uclamp.min"@),
            clamp_operation("cgroup.uclamp.max"@),
        ],
        privilege: PrivilegeRequirement::PrivilegedMutation,
        equality: EqualityKind::ScalarExact,
        risk: RiskClass::Medium,
        classification: FeatureClass::Conditional,
        evidence: seq![(EvidenceSource::CgroupV2, evidence)],
    }
}

/// The capability about utilization clamps.
pub(crate) fn uclamp_capability(state: CapabilityState, evidence: &str) -> (r: CapabilityDescriptor)
    ensures
        r@ == uclamp_capability_spec(state, evidence@),
{
    proof {
        lemma_names();
    }
    let mut operations: Vec<OperationDescriptor> = Vec::new();
    operations.push(
        OperationDescriptor {
            id: mutation::operation_named("cgroup.uclamp.min"),
            privilege: PrivilegeRequirement::PrivilegedMutation,
            equality: EqualityKind::ScalarExact,
            classification: FeatureClass::Conditional,
        },
    );
    operations.push(
        OperationDescriptor {
            id: mutation::operation_named("cgroup.uclamp.max"),
            privilege: PrivilegeRequirement::PrivilegedMutation,
            equality: EqualityKind::ScalarExact,
            classification: FeatureClass::Conditional,
        },
    );
    let mut proofs: Vec<CapabilityEvidence> = Vec::new();
    proofs.push(
        CapabilityEvidence { source: EvidenceSource::CgroupV2, detail: evidence.to_string() },
    );
    let r = CapabilityDescriptor {
        id: capability::capability_named("cgroup.uclamp"),
        backend: capability::backend_named(WORKLOAD_BACKEND_ID),
        target_kind: TargetKind::Cgroup,
        state,
        operations,
        privilege: PrivilegeRequirement::PrivilegedMutation,
        equality: EqualityKind::ScalarExact,
        risk: RiskClass::Medium,
        classification: FeatureClass::Conditional,
        evidence: proofs,
    };
    let ghost expected = uclamp_capability_spec(state, evidence@);
    assert(r@.operations =~= expected.operations);
    assert(r@.evidence =~= expected.evidence);
    r
}

/// The state of a capability that depends on two.
pub open spec fn both_states(left: CapabilityState, right: CapabilityState) -> CapabilityState {
    if left == CapabilityState::Available && right == CapabilityState::Available {
        CapabilityState::Available
    } else if left == CapabilityState::Denied || right == CapabilityState::Denied {
        CapabilityState::Denied
    } else if left == CapabilityState::Unsupported || right == CapabilityState::Unsupported {
        CapabilityState::Unsupported
    } else {
        CapabilityState::Indeterminate
    }
}

/// The state of a capability that depends on two.
pub fn combine_capability_states(left: CapabilityState, right: CapabilityState) -> (r:
    CapabilityState)
    ensures
        r == both_states(left, right),
{
    if left == CapabilityState::Available && right == CapabilityState::Available {
        CapabilityState::Available
    } else if left == CapabilityState::Denied || right == CapabilityState::Denied {
        CapabilityState::Denied
    } else if left == CapabilityState::Unsupported || right == CapabilityState::Unsupported {
        CapabilityState::Unsupported
    } else {
        CapabilityState::Indeterminate
    }
}

/// The state of a capability by how one attempt to use it went: by the code of
/// its error, or none.
pub open spec fn state_after(outcome: Option<ErrorCode>) -> CapabilityState {
    match outcome {
        None => CapabilityState::Available,
        Some(ErrorCode::AuthorizationError) => CapabilityState::Denied,
        Some(ErrorCode::Unsupported) => CapabilityState::Unsupported,
        Some(_) => CapabilityState::Indeterminate,
    }
}

/// The state of a capability by how one attempt to use it went.
pub fn capability_state(outcome: Option<ErrorCode>) -> (r: CapabilityState)
    ensures
        r == state_after(outcome),
{
    match outcome {
        None => CapabilityState::Available,
        Some(code) => match code {
            ErrorCode::AuthorizationError => CapabilityState::Denied,
            ErrorCode::Unsupported => CapabilityState::Unsupported,
            _ => CapabilityState::Indeterminate,
        },
    }
}

/// The state of a control after one more group where it cannot be read.
pub open spec fn after_failure(state: CapabilityState, code: ErrorCode) -> CapabilityState {
    match code {
        ErrorCode::AuthorizationError => CapabilityState::Denied,
        ErrorCode::TargetError => state,
        ErrorCode::Unsupported => if state == CapabilityState::Denied {
            CapabilityState::Denied
        } else {
            CapabilityState::Unsupported
        },
        _ => CapabilityState::Indeterminate,
    }
}

/// The state of a control, by how reading it in each group went. One group where
/// it can be read is enough.
pub open spec fn probed_spec(outcomes: Seq<Option<ErrorCode>>) -> CapabilityState
    decreases outcomes.len(),
{
    if outcomes.len() == 0 {
        CapabilityState::Unsupported
    } else {
        let before = probed_spec(outcomes.drop_last());
        if before == CapabilityState::Available {
            before
        } else {
            match outcomes.last() {
                None => CapabilityState::Available,
                Some(code) => after_failure(before, code),
            }
        }
    }
}

proof fn lemma_probed_available(outcomes: Seq<Option<ErrorCode>>, n: int)
    requires
        0 <= n <= outcomes.len(),
        probed_spec(outcomes.take(n)) == CapabilityState::Available,
    ensures
        probed_spec(outcomes) == CapabilityState::Available,
    decreases outcomes.len() - n,
{
    if n < outcomes.len() {
        assert(outcomes.take(n + 1).drop_last() =~= outcomes.take(n));
        lemma_probed_available(outcomes, n + 1);
    } else {
        assert(outcomes.take(n) =~= outcomes);
    }
}

/// The state of a control, by how reading it in each group went.
pub fn probed_state(outcomes: &Vec<Option<ErrorCode>>) -> (r: CapabilityState)
    ensures
        r == probed_spec(outcomes@),
{
    let ghost all = outcomes@;
    let mut state = CapabilityState::Unsupported;
    let mut i: usize = 0;
    assert(all.take(0) =~= Seq::empty());
    while i < outcomes.len()
        invariant
            i <= outcomes@.len(),
            all == outcomes@,
            state == probed_spec(all.take(i as int)),
            state != CapabilityState::Available,
        decreases outcomes@.len() - i,
    {
        proof {
            assert(all.take(i + 1).drop_last() =~= all.take(i as int));
            assert(all.take(i + 1).last() == all[i as int]);
        }
        match outcomes[i] {
            None => {
                proof {
                    lemma_probed_available(all, i + 1);
                }
                return CapabilityState::Available;
            },
            Some(code) => {
                state = match code {
                    ErrorCode::AuthorizationError => CapabilityState::Denied,
                    ErrorCode::TargetError => state,
                    ErrorCode::Unsupported => if state == CapabilityState::Denied {
                        CapabilityState::Denied
                    } else {
                        CapabilityState::Unsupported
                    },
                    _ => CapabilityState::Indeterminate,
                };
            },
        }
        i = i + 1;
    }
    assert(all.take(i as int) =~= all);
    state
}

/// What was found on a real host.
#[derive(Clone, Copy, Debug, PartialEq, Eq, Structural)]
pub struct HostStates {
    pub cpu_weight: CapabilityState,
    pub cpu_max: CapabilityState,
    pub cpuset: CapabilityState,
    pub io_weight: CapabilityState,
    pub uclamp_min: CapabilityState,
    pub uclamp_max: CapabilityState,
    /// Whether groups can be made below the root.
    pub controller: CapabilityState,
    pub placement: CapabilityState,
    pub nice: CapabilityState,
}

/// The capabilities of a real host.
pub open spec fn host_capabilities_spec(states: HostStates) -> Seq<CapabilityView> {
    seq![
        group_capability(
            "cgroup.cpu.weight"@,
            "cgroup.cpu.weight"@,
            TargetKind::Cgroup,
            EqualityKind::ScalarExact,
            states.cpu_weight,
            FeatureClass::RuntimeMutable,
            "cgroup v2 cpu.weight and fixed controller evidence"@,
        ),
        group_capability(
            "cgroup.cpu.max"@,
            "cgroup.cpu.max"@,
            TargetKind::Cgroup,
            EqualityKind::ScalarExact,
            states.cpu_max,
            FeatureClass::RuntimeMutable,
            "cgroup v2 cpu.max and fixed controller evidence"@,
        ),
        group_capability(
            "cgroup.cpuset.cpus"@,
            "cgroup.cpuset.cpus"@,
            TargetKind::Cgroup,
            EqualityKind::SetExact,
            states.cpuset,
            FeatureClass::Conditional,
            "cgroup v2 cpuset.cpus and fixed controller evidence"@,
        ),
        group_capability(
            "cgroup.io.weight"@,
            "cgroup.io.weight"@,
            TargetKind::Cgroup,
            EqualityKind::ScalarExact,
            states.io_weight,
            FeatureClass::Conditional,
            "cgroup v2 io.weight default entry"@,
        ),
        uclamp_capability_spec(
            both_states(states.uclamp_min, states.uclamp_max),
            "cgroup v2 cpu.uclamp min/max entries"@,
        ),
        group_capability(
            "cgroup.workload"@,
            "cgroup.workload"@,
            TargetKind::Cgroup,
            EqualityKind::ScalarExact,
            states.controller,
            FeatureClass::Conditional,
            "explicit managed workload child cgroup under a delegated parent"@,
        ),
        group_capability(
            "cgroup.background"@,
            "cgroup.background"@,
            TargetKind::Cgroup,
            EqualityKind::ScalarExact,
            states.controller,
            FeatureClass::Conditional,
            "explicit conservative background child cgroup under a delegated parent"@,
        ),
        process_capability_spec(
            "scheduler.process.placement"@,
            states.placement,
            RiskClass::Medium,
            FeatureClass::Conditional,
            "procfs PID/start-time identity and cgroup-v2 placement"@,
        ),
        process_capability_spec(
            "scheduler.nice"@,
            states.nice,
            RiskClass::Low,
            FeatureClass::RuntimeMutable,
            "procfs PID/start-time identity and getpriority"@,
        ),
        process_capability_spec(
            "scheduler.ioprio"@,
            CapabilityState::Unsupported,
            RiskClass::Low,
            FeatureClass::Experimental,
            "safe ioprio syscall adapter is not enabled; operation degrades closed"@,
        ),
    ]
}

/// The capabilities of a real host.
pub fn host_capabilities(states: HostStates) -> (r: Vec<CapabilityDescriptor>)
    ensures
        capability::capabilities_view(r@) == host_capabilities_spec(states),
{
    proof {
        lemma_names();
    }
    let mut r: Vec<CapabilityDescriptor> = Vec::new();
    r.push(
        workload_capability(
            "cgroup.cpu.weight",
            "cgroup.cpu.weight",
            TargetKind::Cgroup,
            EqualityKind::ScalarExact,
            states.cpu_weight,
            FeatureClass::RuntimeMutable,
            "cgroup v2 cpu.weight and fixed controller evidence",
        ),
    );
    r.push(
        workload_capability(
            "cgroup.cpu.max",
            "cgroup.cpu.max",
            TargetKind::Cgroup,
            EqualityKind::ScalarExact,
            states.cpu_max,
            FeatureClass::RuntimeMutable,
            "cgroup v2 cpu.max and fixed controller evidence",
        ),
    );
    r.push(
        workload_capability(
            "cgroup.cpuset.cpus",
            "cgroup.cpuset.cpus",
            TargetKind::Cgroup,
            EqualityKind::SetExact,
            states.cpuset,
            FeatureClass::Conditional,
            "cgroup v2 cpuset.cpus and fixed controller evidence",
        ),
    );
    r.push(
        workload_capability(
            "cgroup.io.weight",
            "cgroup.io.weight",
            TargetKind::Cgroup,
            EqualityKind::ScalarExact,
            states.io_weight,
            FeatureClass::Conditional,
            "cgroup v2 io.weight default entry",
        ),
    );
    r.push(
        uclamp_capability(
            combine_capability_states(states.uclamp_min, states.uclamp_max),
            "cgroup v2 cpu.uclamp min/max entries",
        ),
    );
    r.push(
        workload_capability(
            "cgroup.workload",
            "cgroup.workload",
            TargetKind::Cgroup,
            EqualityKind::ScalarExact,
            states.controller,
            FeatureClass::Conditional,
            "explicit managed workload child cgroup under a delegated parent",
        ),
    );
    r.push(
        workload_capability(
            "cgroup.background",
            "cgroup.background",
            TargetKind::Cgroup,
            EqualityKind::ScalarExact,
            states.controller,
            FeatureClass::Conditional,
            "explicit conservative background child cgroup under a delegated parent",
        ),
    );
    r.push(
        process_capability(
            "scheduler.process.placement",
            states.placement,
            RiskClass::Medium,
            FeatureClass::Conditional,
            "procfs PID/start-time identity and cgroup-v2 placement",
        ),
    );
    r.push(
        process_capability(
            "scheduler.nice",
            states.nice,
            RiskClass::Low,
            FeatureClass::RuntimeMutable,
            "procfs PID/start-time identity and getpriority",
        ),
    );
    r.push(
        process_capability(
            "scheduler.ioprio",
            CapabilityState::Unsupported,
            RiskClass::Low,
            FeatureClass::Experimental,
            "safe ioprio syscall adapter is not enabled; operation degrades closed",
        ),
    );
    assert(capability::capabilities_view(r@) =~= host_capabilities_spec(states));
    r
}

/// One operation of the backend, as planning sees it.
pub open spec fn workload_contract(
    operation: Seq<char>,
    capability: Seq<char>,
    target_kind: TargetKind,
    control: ControlId,
    equality: EqualityKind,
    risk: RiskClass,
    classification: FeatureClass,
    explicit_opt_in: bool,
) -> ContractView {
    catalog::complete_contract(
        operation,
        capability,
        WORKLOAD_BACKEND_ID@,
        target_kind,
        control,
        equality,
        risk,
        classification,
        explicit_opt_in,
    )
}

/// An operation on a group that a profile has to ask for by name.
pub open spec fn optional_group_contract(
    operation: Seq<char>,
    capability: Seq<char>,
    control: ControlId,
    equality: EqualityKind,
) -> ContractView {
    workload_contract(
        operation,
        capability,
        TargetKind::Cgroup,
        control,
        equality,
        RiskClass::Medium,
        FeatureClass::Conditional,
        true,
    )
}

/// The operations of the backend, as planning sees them.
pub open spec fn workload_catalog() -> Seq<ContractView> {
    seq![
        workload_contract(
            "cgroup.cpu.weight"@,
            "cgroup.cpu.weight"@,
            TargetKind::Cgroup,
            ControlId::CgroupCpuWeight,
            EqualityKind::ScalarExact,
            RiskClass::Medium,
            FeatureClass::RuntimeMutable,
            false,
        ),
        workload_contract(
            "cgroup.cpu.max"@,
            "cgroup.cpu.max"@,
            TargetKind::Cgroup,
            ControlId::CgroupCpuMax,
            EqualityKind::ScalarExact,
            RiskClass::Medium,
            FeatureClass::RuntimeMutable,
            false,
        ),
        optional_group_contract(
            "cgroup.cpuset.cpus"@,
            "cgroup.cpuset.cpus"@,
            ControlId::CgroupCpuset,
            EqualityKind::SetExact,
        ),
        optional_group_contract(
            "cgroup.io.weight"@,
            "cgroup.io.weight"@,
            ControlId::CgroupIoWeight,
            EqualityKind::ScalarExact,
        ),
        optional_group_contract(
            "cgroup.uclamp.min"@,
            "cgroup.uclamp"@,
            ControlId::CgroupUclampMin,
            EqualityKind::ScalarExact,
        ),
        optional_group_contract(
            "cgroup.uclamp.max"@,
            "cgroup.uclamp"@,
            ControlId::CgroupUclampMax,
            EqualityKind::ScalarExact,
        ),
        optional_group_contract(
            "cgroup.workload"@,
            "cgroup.workload"@,
            ControlId::CgroupWorkload,
            EqualityKind::ScalarExact,
        ),
        optional_group_contract(
            "cgroup.background"@,
            "cgroup.background"@,
            ControlId::CgroupBackground,
            EqualityKind::ScalarExact,
        ),
        workload_contract(
            "scheduler.process.placement"@,
            "scheduler.process.placement"@,
            TargetKind::Process,
            ControlId::ProcessPlacement,
            EqualityKind::ScalarExact,
            RiskClass::Medium,
            FeatureClass::Conditional,
            true,
        ),
        workload_contract(
            "scheduler.nice"@,
            "scheduler.nice"@,
            TargetKind::Process,
            ControlId::ProcessNice,
            EqualityKind::ScalarExact,
            RiskClass::Low,
            FeatureClass::RuntimeMutable,
            true,
        ),
        workload_contract(
            "scheduler.ioprio"@,
            "scheduler.ioprio"@,
            TargetKind::Process,
            ControlId::ProcessIoPriority,
            EqualityKind::ScalarExact,
            RiskClass::Low,
            FeatureClass::Experimental,
            true,
        ),
    ]
}

/// Every operation of the catalog is valid and is one that the backend owns, on
/// a capability that it owns; and the catalog leaves none of them out.
pub proof fn workload_catalog_matches_the_backend(i: int)
    requires
        0 <= i < workload_catalog().len(),
    ensures
        catalog::contract_refusal(workload_catalog()[i]) is None,
        workload_catalog()[i].backend == workload_described().id,
        workload_catalog()[i].operation == workload_described().operations[i],
        workload_catalog().len() == workload_described().operations.len(),
        workload_described().capabilities.contains(workload_catalog()[i].capability),
{
    let capabilities = workload_described().capabilities;
    assert(capabilities[0] == "cgroup.cpu.weight"@);
    assert(capabilities[1] == "cgroup.cpu.max"@);
    assert(capabilities[2] == "cgroup.cpuset.cpus"@);
    assert(capabilities[3] == "cgroup.io.weight"@);
    assert(capabilities[4] == "cgroup.uclamp"@);
    assert(capabilities[5] == "cgroup.workload"@);
    assert(capabilities[6] == "cgroup.background"@);
    assert(capabilities[7] == "scheduler.process.placement"@);
    assert(capabilities[8] == "scheduler.nice"@);
    assert(capabilities[9] == "scheduler.ioprio"@);
}

fn name_contract(
    operation: &str,
    capability: &str,
    target_kind: TargetKind,
    control: ControlId,
    equality: EqualityKind,
    risk: RiskClass,
    classification: FeatureClass,
    explicit_opt_in: bool,
) -> (r: OperationContract)
    requires
        operation@.len() > 0,
        capability@.len() > 0,
    ensures
        r@ == workload_contract(
            operation@,
            capability@,
            target_kind,
            control,
            equality,
            risk,
            classification,
            explicit_opt_in,
        ),
{
    proof {
        lemma_names();
    }
    catalog::name_contract(
        operation,
        capability,
        WORKLOAD_BACKEND_ID,
        target_kind,
        control,
        equality,
        risk,
        classification,
        explicit_opt_in,
    )
}

fn name_optional_contract(
    operation: &str,
    capability: &str,
    control: ControlId,
    equality: EqualityKind,
) -> (r: OperationContract)
    requires
        operation@.len() > 0,
        capability@.len() > 0,
    ensures
        r@ == optional_group_contract(operation@, capability@, control, equality),
{
    name_contract(
        operation,
        capability,
        TargetKind::Cgroup,
        control,
        equality,
        RiskClass::Medium,
        FeatureClass::Conditional,
        true,
    )
}

/// The operations of the backend, as planning sees them.
pub fn workload_operation_catalog() -> (r: OperationCatalog)
    ensures
        r@ == workload_catalog(),
{
    proof {
        lemma_names();
    }
    let mut contracts: Vec<OperationContract> = Vec::new();
    contracts.push(
        name_contract(
            "cgroup.cpu.weight",
            "cgroup.cpu.weight",
            TargetKind::Cgroup,
            ControlId::CgroupCpuWeight,
            EqualityKind::ScalarExact,
            RiskClass::Medium,
            FeatureClass::RuntimeMutable,
            false,
        ),
    );
    contracts.push(
        name_contract(
            "cgroup.cpu.max",
            "cgroup.cpu.max",
            TargetKind::Cgroup,
            ControlId::CgroupCpuMax,
            EqualityKind::ScalarExact,
            RiskClass::Medium,
            FeatureClass::RuntimeMutable,
            false,
        ),
    );
    contracts.push(
        name_optional_contract(
            "cgroup.cpuset.cpus",
            "cgroup.cpuset.cpus",
            ControlId::CgroupCpuset,
            EqualityKind::SetExact,
        ),
    );
    contracts.push(
        name_optional_contract(
            "cgroup.io.weight",
            "cgroup.io.weight",
            ControlId::CgroupIoWeight,
            EqualityKind::ScalarExact,
        ),
    );
    contracts.push(
        name_optional_contract(
            "cgroup.uclamp.min",
            "cgroup.uclamp",
            ControlId::CgroupUclampMin,
            EqualityKind::ScalarExact,
        ),
    );
    contracts.push(
        name_optional_contract(
            "cgroup.uclamp.max",
            "cgroup.uclamp",
            ControlId::CgroupUclampMax,
            EqualityKind::ScalarExact,
        ),
    );
    contracts.push(
        name_optional_contract(
            "cgroup.workload",
            "cgroup.workload",
            ControlId::CgroupWorkload,
            EqualityKind::ScalarExact,
        ),
    );
    contracts.push(
        name_optional_contract(
            "cgroup.background",
            "cgroup.background",
            ControlId::CgroupBackground,
            EqualityKind::ScalarExact,
        ),
    );
    contracts.push(
        name_contract(
            "scheduler.process.placement",
            "scheduler.process.placement",
            TargetKind::Process,
            ControlId::ProcessPlacement,
            EqualityKind::ScalarExact,
            RiskClass::Medium,
            FeatureClass::Conditional,
            true,
        ),
    );
    contracts.push(
        name_contract(
            "scheduler.nice",
            "scheduler.nice",
            TargetKind::Process,
            ControlId::ProcessNice,
            EqualityKind::ScalarExact,
            RiskClass::Low,
            FeatureClass::RuntimeMutable,
            true,
        ),
    );
    contracts.push(
        name_contract(
            "scheduler.ioprio",
            "scheduler.ioprio",
            TargetKind::Process,
            ControlId::ProcessIoPriority,
            EqualityKind::ScalarExact,
            RiskClass::Low,
            FeatureClass::Experimental,
            true,
        ),
    );
    assert(catalog::contracts_view(contracts@) =~= workload_catalog());
    OperationCatalog::new(contracts)
}

/// The operations of all backends for Linux, as planning sees them.
pub fn linux_operation_catalog() -> (r: OperationCatalog)
    ensures
        r@ == cpu::cpu_catalog() + workload_catalog(),
{
    catalog::joined(&cpu::cpu_operation_catalog(), &workload_operation_catalog())
}

} // verus!
