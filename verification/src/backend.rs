//! Backends that carry out typed mutations.

use vstd::prelude::*;

use crate::capability::CapabilityInventory;
use crate::clock::{Clock, Timestamp};
use crate::cpu_fixture::CpuModel;
use crate::error::{ErrorCode, SysboostError};
use crate::ids::{BackendId, CapabilityId, OperationId, StateFingerprint, TargetIdentity};
use crate::mutation::{
    ApplyReceipt, MutationView, PlannedMutation, RestoreReceipt, Snapshot, SnapshotView,
};
use crate::text;
use crate::workload_model::CgroupModel;

verus! {

/// The right to drive a backend. Only the coordinator has one.
#[must_use]
#[derive(Debug)]
pub struct BackendExecutionToken {
    private: (),
}

impl BackendExecutionToken {
    pub(crate) fn new() -> BackendExecutionToken {
        BackendExecutionToken { private: () }
    }
}

/// What a backend is and owns.
#[derive(Debug, PartialEq, Eq)]
pub struct BackendDescriptor {
    pub id: BackendId,
    pub version: String,
    pub capabilities: Vec<CapabilityId>,
    pub operations: Vec<OperationId>,
}

/// What a backend is and owns, as plain values.
#[verifier::ext_equal]
pub struct BackendView {
    pub id: Seq<char>,
    pub version: Seq<char>,
    pub capabilities: Seq<Seq<char>>,
    pub operations: Seq<Seq<char>>,
}

pub open spec fn capability_names(ids: Seq<CapabilityId>) -> Seq<Seq<char>> {
    ids.map_values(|id: CapabilityId| id@)
}

pub open spec fn operation_names(ids: Seq<OperationId>) -> Seq<Seq<char>> {
    ids.map_values(|id: OperationId| id@)
}

impl View for BackendDescriptor {
    type V = BackendView;

    open spec fn view(&self) -> BackendView {
        BackendView {
            id: self.id@,
            version: self.version@,
            capabilities: capability_names(self.capabilities@),
            operations: operation_names(self.operations@),
        }
    }
}

fn has_capability(ids: &Vec<CapabilityId>, name: &str) -> (r: bool)
    ensures
        r == capability_names(ids@).contains(name@),
{
    let ghost names = capability_names(ids@);
    let mut i: usize = 0;
    while i < ids.len()
        invariant
            i <= ids.len(),
            names == capability_names(ids@),
            forall|j: int| 0 <= j < i ==> #[trigger] names[j] != name@,
        decreases ids.len() - i,
    {
        assert(names[i as int] == ids@[i as int]@);
        if text::same(ids[i].as_str(), name) {
            assert(names[i as int] == name@);
            return true;
        }
        i = i + 1;
    }
    false
}

fn has_operation(ids: &Vec<OperationId>, name: &str) -> (r: bool)
    ensures
        r == operation_names(ids@).contains(name@),
{
    let ghost names = operation_names(ids@);
    let mut i: usize = 0;
    while i < ids.len()
        invariant
            i <= ids.len(),
            names == operation_names(ids@),
            forall|j: int| 0 <= j < i ==> #[trigger] names[j] != name@,
        decreases ids.len() - i,
    {
        assert(names[i as int] == ids@[i as int]@);
        if text::same(ids[i].as_str(), name) {
            assert(names[i as int] == name@);
            return true;
        }
        i = i + 1;
    }
    false
}

impl Clone for BackendDescriptor {
    fn clone(&self) -> (r: BackendDescriptor)
        ensures
            r@ == self@,
    {
        let capabilities = self.capabilities.clone();
        let operations = self.operations.clone();
        assert(capability_names(capabilities@) =~= capability_names(self.capabilities@));
        assert(operation_names(operations@) =~= operation_names(self.operations@));
        BackendDescriptor {
            id: self.id.clone(),
            version: self.version.clone(),
            capabilities,
            operations,
        }
    }
}

impl BackendDescriptor {
    pub fn owns_capability(&self, name: &str) -> (r: bool)
        ensures
            r == self@.capabilities.contains(name@),
    {
        has_capability(&self.capabilities, name)
    }

    pub fn owns_operation(&self, name: &str) -> (r: bool)
        ensures
            r == self@.operations.contains(name@),
    {
        has_operation(&self.operations, name)
    }
}

/// Why a backend does not admit a mutation, as far as ownership goes.
pub open spec fn ownership_refusal(backend: BackendView, mutation: MutationView) -> Option<
    crate::error::ErrorView,
> {
    if !backend.operations.contains(mutation.kind.operation()) {
        Some(
            crate::error::ErrorView {
                backend: Some(backend.id),
                mutation: Some(mutation.mutation_id),
                ..crate::error::error_view(
                    ErrorCode::Unsupported,
                    "backend does not own the requested typed operation"@,
                )
            },
        )
    } else if !backend.capabilities.contains(mutation.capability) {
        Some(
            crate::error::ErrorView {
                backend: Some(backend.id),
                capability: Some(mutation.capability),
                mutation: Some(mutation.mutation_id),
                ..crate::error::error_view(
                    ErrorCode::Unsupported,
                    "backend does not own the requested capability"@,
                )
            },
        )
    } else {
        None
    }
}

/// Whether a backend owns the operation and the capability of a mutation.
pub fn check_ownership(descriptor: &BackendDescriptor, mutation: &PlannedMutation) -> (r: Result<
    (),
    SysboostError,
>)
    ensures
        match r {
            Ok(_) => ownership_refusal(descriptor@, mutation@) is None,
            Err(e) => ownership_refusal(descriptor@, mutation@) == Some(e@),
        },
{
    if !descriptor.owns_operation(mutation.kind.operation_name()) {
        return Err(
            SysboostError::new(
                ErrorCode::Unsupported,
                "backend does not own the requested typed operation",
            ).with_backend(descriptor.id.clone()).with_mutation(mutation.mutation_id),
        );
    }
    if !descriptor.owns_capability(mutation.capability.as_str()) {
        return Err(
            SysboostError::new(
                ErrorCode::Unsupported,
                "backend does not own the requested capability",
            ).with_backend(descriptor.id.clone()).with_capability(
                mutation.capability.clone(),
            ).with_mutation(mutation.mutation_id),
        );
    }
    Ok(())
}

/// What a backend without a target list answers.
pub open spec fn no_targets(mutation: MutationView) -> crate::error::ErrorView {
    crate::error::ErrorView {
        mutation: Some(mutation.mutation_id),
        ..crate::error::error_view(
            ErrorCode::Unsupported,
            "backend has no target allowlist for this operation"@,
        )
    }
}

/// What a backend shows of the host that it works on. Only hosts in memory can be
/// shown.
#[verifier::ext_equal]
pub enum Shown {
    Nothing,
    Cpu(CpuModel),
    Workload(CgroupModel),
    /// What each of several backends shows.
    Parts(Seq<Shown>),
}

/// How a backend acts, by what it shows of its host. Nothing that a backend is told to
/// change changes how it acts.
pub struct Conduct {
    /// What each of several backends is said to be and own.
    pub members: Seq<BackendView>,
    /// What each of several backends is and owns.
    pub described: Seq<BackendView>,
    /// How each of several backends acts.
    pub parts: Seq<Conduct>,
    /// Whether a target may be found to hold this.
    pub snapshots: spec_fn(
        Shown,
        MutationView,
        Timestamp,
        Result<SnapshotView, crate::error::ErrorView>,
    ) -> bool,
    /// Whether a change may be answered so, and what is shown become something else.
    pub applies: spec_fn(
        Shown,
        Shown,
        MutationView,
        SnapshotView,
        Result<ApplyReceipt, crate::error::ErrorView>,
    ) -> bool,
    /// Whether a target may be found to hold this now.
    pub verifies: spec_fn(
        Shown,
        MutationView,
        TargetIdentity,
        Result<StateFingerprint, crate::error::ErrorView>,
    ) -> bool,
    /// Whether giving back an original may be answered so, and what is shown become
    /// something else.
    pub restores: spec_fn(
        Shown,
        Shown,
        MutationView,
        SnapshotView,
        StateFingerprint,
        Result<RestoreReceipt, crate::error::ErrorView>,
    ) -> bool,
}

/// How a backend acts that does not say how.
pub open spec fn any_conduct() -> Conduct {
    Conduct {
        members: Seq::empty(),
        described: Seq::empty(),
        parts: Seq::empty(),
        snapshots: |
            shown: Shown,
            mutation: MutationView,
            now: Timestamp,
            reply: Result<SnapshotView, crate::error::ErrorView>,
        | true,
        applies: |
            shown: Shown,
            after: Shown,
            mutation: MutationView,
            snapshot: SnapshotView,
            reply: Result<ApplyReceipt, crate::error::ErrorView>,
        | true,
        verifies: |
            shown: Shown,
            mutation: MutationView,
            identity: TargetIdentity,
            reply: Result<StateFingerprint, crate::error::ErrorView>,
        | true,
        restores: |
            shown: Shown,
            after: Shown,
            mutation: MutationView,
            snapshot: SnapshotView,
            ownership: StateFingerprint,
            reply: Result<RestoreReceipt, crate::error::ErrorView>,
        | true,
    }
}

/// Whether the answer to a question for a target is that of a backend that lists
/// none, or one that the backend may give.
pub open spec fn target_answer(
    mutation: MutationView,
    may: bool,
    reply: Result<(), crate::error::ErrorView>,
) -> bool {
    may || reply == Err::<(), crate::error::ErrorView>(no_targets(mutation))
}

/// Whether the answer to a question for admission is the refusal of what is not
/// owned, an answer about the target, or one that the backend may give.
pub open spec fn admission_answer(
    backend: BackendView,
    mutation: MutationView,
    may_target: bool,
    may: bool,
    reply: Result<(), crate::error::ErrorView>,
) -> bool {
    may || match ownership_refusal(backend, mutation) {
        Some(e) => reply == Err::<(), crate::error::ErrorView>(e),
        None => target_answer(mutation, may_target, reply),
    }
}

/// Whether the answer to a question for a name goes by the identity of the backend,
/// or is one that the backend may give.
pub open spec fn name_answer(
    backend: BackendView,
    name: Seq<char>,
    may: bool,
    reply: bool,
) -> bool {
    may || reply == (backend.id == name)
}

/// Where live capability evidence comes from. Nothing is written to find it.
pub trait CapabilityDetector {
    fn detect(&self, clock: &dyn Clock) -> Result<CapabilityInventory, SysboostError>;
}

/// A backend for typed mutations. It takes neither paths nor commands.
pub trait MutationBackend {
    /// What the backend is and owns.
    open spec fn described(&self) -> BackendView {
        arbitrary()
    }

    /// Whether the backend may give an answer when it looks for evidence, by what the
    /// clock told. A backend that does not say may give any, here and below.
    open spec fn may_detect(
        &self,
        told: Set<Result<Timestamp, crate::error::ErrorView>>,
        reply: Result<CapabilityInventory, crate::error::ErrorView>,
    ) -> bool {
        true
    }

    /// Whether the backend may give an answer when it is asked what a target holds.
    open spec fn may_snapshot(
        &self,
        mutation: MutationView,
        now: Timestamp,
        reply: Result<SnapshotView, crate::error::ErrorView>,
    ) -> bool {
        true
    }

    /// What the backend shows of the host that it works on.
    open spec fn shown(&self) -> Shown {
        Shown::Nothing
    }

    /// How the backend acts, whatever its host holds. A backend that does not say may act
    /// in any way.
    open spec fn conduct(&self) -> Conduct {
        any_conduct()
    }

    /// Whether the backend may give an answer when it is told to change a target, and
    /// then show this.
    open spec fn may_apply(
        &self,
        after: Shown,
        mutation: MutationView,
        snapshot: SnapshotView,
        reply: Result<ApplyReceipt, crate::error::ErrorView>,
    ) -> bool {
        true
    }

    /// Whether the backend may give an answer when it is asked what a target holds
    /// now.
    open spec fn may_verify(
        &self,
        mutation: MutationView,
        expected: StateFingerprint,
        identity: TargetIdentity,
        reply: Result<StateFingerprint, crate::error::ErrorView>,
    ) -> bool {
        true
    }

    /// Whether the backend may give an answer when it is told to give a target what
    /// it held before, and then show this.
    open spec fn may_restore(
        &self,
        after: Shown,
        mutation: MutationView,
        snapshot: SnapshotView,
        ownership: StateFingerprint,
        reply: Result<RestoreReceipt, crate::error::ErrorView>,
    ) -> bool {
        true
    }

    /// Whether the backend may give an answer other than by its identity when it is
    /// asked for a name.
    open spec fn may_own(&self, backend: Seq<char>, reply: bool) -> bool {
        true
    }

    /// Whether the backend may give an answer when it is asked for admission.
    open spec fn may_admit(
        &self,
        mutation: MutationView,
        identity: TargetIdentity,
        reply: Result<(), crate::error::ErrorView>,
    ) -> bool {
        true
    }

    /// Whether the backend may give an answer when it is asked for a target.
    open spec fn may_target(
        &self,
        mutation: MutationView,
        identity: TargetIdentity,
        reply: Result<(), crate::error::ErrorView>,
    ) -> bool {
        true
    }

    /// What the backend is and owns. It is compiled in and never changes.
    fn descriptor(&self) -> (r: &BackendDescriptor)
        ensures
            r@ == self.described(),
    ;

    /// Whether this is the backend with the given identity, or holds it.
    fn owns_backend(&self, backend: &BackendId) -> (r: bool)
        ensures
            name_answer(self.described(), backend@, self.may_own(backend@, r), r),
        default_ensures
            r == (self.described().id == backend@),
    {
        self.descriptor().id.same(backend)
    }

    /// Evidence of what the host can do, found by reading alone.
    fn detect(&self, clock: &dyn Clock) -> (r: Result<CapabilityInventory, SysboostError>)
        ensures
            exists|told: Set<Result<Timestamp, crate::error::ErrorView>>| #[trigger]
                crate::clock::heard_from(clock, told) && self.may_detect(
                    told,
                    crate::error::plain(r),
                ),
    ;

    /// What the target holds before it is changed.
    fn snapshot(
        &self,
        execution: &BackendExecutionToken,
        mutation: &PlannedMutation,
        now: Timestamp,
    ) -> (r: Result<Snapshot, SysboostError>)
        ensures
            self.may_snapshot(mutation@, now, crate::error::viewed(r)),
            (self.conduct().snapshots)(self.shown(), mutation@, now, crate::error::viewed(r)),
    ;

    /// Changes the target.
    fn apply(
        &mut self,
        execution: &BackendExecutionToken,
        mutation: &PlannedMutation,
        snapshot: &Snapshot,
    ) -> (r: Result<ApplyReceipt, SysboostError>)
        ensures
            final(self).described() == old(self).described(),
            final(self).conduct() == old(self).conduct(),
            old(self).may_apply(
                final(self).shown(),
                mutation@,
                snapshot@,
                crate::error::plain(r),
            ),
            (old(self).conduct().applies)(
                old(self).shown(),
                final(self).shown(),
                mutation@,
                snapshot@,
                crate::error::plain(r),
            ),
    ;

    /// The fingerprint of what the target holds now.
    fn verify(
        &self,
        execution: &BackendExecutionToken,
        mutation: &PlannedMutation,
        expected: StateFingerprint,
        expected_target_identity: TargetIdentity,
    ) -> (r: Result<StateFingerprint, SysboostError>)
        ensures
            self.may_verify(
                mutation@,
                expected,
                expected_target_identity,
                crate::error::plain(r),
            ),
            (self.conduct().verifies)(
                self.shown(),
                mutation@,
                expected_target_identity,
                crate::error::plain(r),
            ),
    ;

    /// Gives the target what it held before.
    fn restore(
        &mut self,
        execution: &BackendExecutionToken,
        mutation: &PlannedMutation,
        snapshot: &Snapshot,
        expected_ownership: StateFingerprint,
    ) -> (r: Result<RestoreReceipt, SysboostError>)
        ensures
            final(self).described() == old(self).described(),
            final(self).conduct() == old(self).conduct(),
            old(self).may_restore(
                final(self).shown(),
                mutation@,
                snapshot@,
                expected_ownership,
                crate::error::plain(r),
            ),
            (old(self).conduct().restores)(
                old(self).shown(),
                final(self).shown(),
                mutation@,
                snapshot@,
                expected_ownership,
                crate::error::plain(r),
            ),
    ;

    /// Whether the mutation is one that the backend owns, on a target that it
    /// found itself.
    fn validate_admission(
        &self,
        mutation: &PlannedMutation,
        expected_target_identity: TargetIdentity,
    ) -> (r: Result<(), SysboostError>)
        ensures
            admission_answer(
                self.described(),
                mutation@,
                self.may_target(mutation@, expected_target_identity, crate::error::outcome(r)),
                self.may_admit(mutation@, expected_target_identity, crate::error::outcome(r)),
                crate::error::outcome(r),
            ),
        default_ensures
            ownership_refusal(self.described(), mutation@) is Some ==> r is Err && r->Err_0@
                == ownership_refusal(self.described(), mutation@)->0,
    {
        match check_ownership(self.descriptor(), mutation) {
            Ok(_) => self.validate_target(mutation, expected_target_identity),
            Err(e) => Err(e),
        }
    }

    /// Whether the target is one that the backend found itself. A backend that
    /// finds none admits none.
    fn validate_target(
        &self,
        mutation: &PlannedMutation,
        expected_target_identity: TargetIdentity,
    ) -> (r: Result<(), SysboostError>)
        ensures
            target_answer(
                mutation@,
                self.may_target(mutation@, expected_target_identity, crate::error::outcome(r)),
                crate::error::outcome(r),
            ),
        default_ensures
            r is Err,
            r->Err_0@ == no_targets(mutation@),
    {
        Err(
            SysboostError::new(
                ErrorCode::Unsupported,
                "backend has no target allowlist for this operation",
            ).with_mutation(mutation.mutation_id),
        )
    }
}

} // verus!
