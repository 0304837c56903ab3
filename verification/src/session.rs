//! Sessions: their states, their operations and their durable records.

use vstd::prelude::*;

use crate::clock::Timestamp;
use crate::error::{ErrorCode, Stage, SysboostError};
use crate::ids::{MutationId, PlanId, SessionId};
use crate::mutation::{
    ApplyReceipt, MutationView, Plan, PlannedMutation, RestoreReceipt, Snapshot, SnapshotView,
    VerificationResult,
};

verus! {

/// Where a session stands.
#[derive(Clone, Copy, Debug, PartialEq, Eq, Structural)]
pub enum SessionState {
    New,
    Detected,
    Planned,
    Snapshotted,
    IntentDurable,
    Applying,
    Active,
    Restoring,
    Restored,
    RollingBack,
    Degraded,
    RecoveryPending,
}

/// Which state may follow which. A session goes forward until it is active, and
/// from any state in which something may have been changed it can only go
/// towards restoration.
pub open spec fn may_follow(from: SessionState, to: SessionState) -> bool {
    match from {
        SessionState::New => to == SessionState::Detected,
        SessionState::Detected => to == SessionState::Planned,
        SessionState::Planned => to == SessionState::Snapshotted,
        SessionState::Snapshotted => to == SessionState::IntentDurable,
        SessionState::IntentDurable => to == SessionState::Applying || to
            == SessionState::RollingBack,
        SessionState::Applying => to == SessionState::Active || to == SessionState::RollingBack,
        SessionState::Active => to == SessionState::Restoring,
        SessionState::Restoring => to == SessionState::Restored || to == SessionState::Degraded,
        SessionState::RollingBack => to == SessionState::Restored || to == SessionState::Degraded,
        SessionState::Degraded => to == SessionState::RecoveryPending,
        SessionState::RecoveryPending => to == SessionState::Restoring,
        SessionState::Restored => false,
    }
}

/// Nothing follows a restored session, and only restoring or rolling back leads
/// there.
pub proof fn restored_is_final(from: SessionState, to: SessionState)
    requires
        may_follow(from, to),
    ensures
        from != SessionState::Restored,
        to == SessionState::Restored ==> from == SessionState::Restoring || from
            == SessionState::RollingBack,
        to == SessionState::Applying ==> from == SessionState::IntentDurable,
        to == SessionState::IntentDurable ==> from == SessionState::Snapshotted,
{
}

/// The name of a state.
pub open spec fn state_text(state: SessionState) -> Seq<char> {
    match state {
        SessionState::New => "New"@,
        SessionState::Detected => "Detected"@,
        SessionState::Planned => "Planned"@,
        SessionState::Snapshotted => "Snapshotted"@,
        SessionState::IntentDurable => "IntentDurable"@,
        SessionState::Applying => "Applying"@,
        SessionState::Active => "Active"@,
        SessionState::Restoring => "Restoring"@,
        SessionState::Restored => "Restored"@,
        SessionState::RollingBack => "RollingBack"@,
        SessionState::Degraded => "Degraded"@,
        SessionState::RecoveryPending => "RecoveryPending"@,
    }
}

impl SessionState {
    /// The name of the state.
    pub fn as_text(&self) -> (r: &'static str)
        ensures
            r@ == state_text(*self),
    {
        match self {
            SessionState::New => "New",
            SessionState::Detected => "Detected",
            SessionState::Planned => "Planned",
            SessionState::Snapshotted => "Snapshotted",
            SessionState::IntentDurable => "IntentDurable",
            SessionState::Applying => "Applying",
            SessionState::Active => "Active",
            SessionState::Restoring => "Restoring",
            SessionState::Restored => "Restored",
            SessionState::RollingBack => "RollingBack",
            SessionState::Degraded => "Degraded",
            SessionState::RecoveryPending => "RecoveryPending",
        }
    }

    fn allows(&self, to: SessionState) -> (r: bool)
        ensures
            r == may_follow(*self, to),
    {
        match self {
            SessionState::New => to == SessionState::Detected,
            SessionState::Detected => to == SessionState::Planned,
            SessionState::Planned => to == SessionState::Snapshotted,
            SessionState::Snapshotted => to == SessionState::IntentDurable,
            SessionState::IntentDurable => to == SessionState::Applying || to
                == SessionState::RollingBack,
            SessionState::Applying => to == SessionState::Active || to
                == SessionState::RollingBack,
            SessionState::Active => to == SessionState::Restoring,
            SessionState::Restoring => to == SessionState::Restored || to
                == SessionState::Degraded,
            SessionState::RollingBack => to == SessionState::Restored || to
                == SessionState::Degraded,
            SessionState::Degraded => to == SessionState::RecoveryPending,
            SessionState::RecoveryPending => to == SessionState::Restoring,
            SessionState::Restored => false,
        }
    }
}

/// Where one change of a session stands.
#[derive(Clone, Copy, Debug, PartialEq, Eq, Structural)]
pub enum OperationState {
    Planned,
    IntentRecorded,
    Applying,
    Applied,
    Verified,
    Failed,
    Restoring,
    RestoreFailed,
    Restored,
}

/// One change of a session with all its evidence.
#[derive(Debug, PartialEq, Eq)]
pub struct OperationRecord {
    pub mutation: PlannedMutation,
    pub snapshot: Option<Snapshot>,
    pub apply_receipt: Option<ApplyReceipt>,
    pub verification: Option<VerificationResult>,
    pub restore_receipt: Option<RestoreReceipt>,
    pub state: OperationState,
}

/// One change of a session as plain values.
#[verifier::ext_equal]
pub struct OperationView {
    pub mutation: MutationView,
    pub snapshot: Option<SnapshotView>,
    pub apply_receipt: Option<ApplyReceipt>,
    pub verification: Option<VerificationResult>,
    pub restore_receipt: Option<RestoreReceipt>,
    pub state: OperationState,
}

impl View for OperationRecord {
    type V = OperationView;

    open spec fn view(&self) -> OperationView {
        OperationView {
            mutation: self.mutation@,
            snapshot: match self.snapshot {
                Some(snapshot) => Some(snapshot@),
                None => None,
            },
            apply_receipt: self.apply_receipt,
            verification: self.verification,
            restore_receipt: self.restore_receipt,
            state: self.state,
        }
    }
}

/// A step from one state to the next.
#[derive(Debug, PartialEq, Eq)]
pub struct TransitionRecord {
    pub from: SessionState,
    pub to: SessionState,
    pub at: Timestamp,
    pub reason: String,
}

/// A step as plain values.
#[verifier::ext_equal]
pub struct TransitionView {
    pub from: SessionState,
    pub to: SessionState,
    pub at: Timestamp,
    pub reason: Seq<char>,
}

/// Something that went wrong in a session.
#[derive(Clone, Copy, Debug, PartialEq, Eq, Structural)]
pub struct FailureRecord {
    pub code: ErrorCode,
    pub stage: Option<Stage>,
    pub mutation: Option<MutationId>,
}

/// The durable record of a session.
#[derive(Debug, PartialEq, Eq)]
pub struct SessionRecord {
    pub session_id: SessionId,
    pub plan_id: PlanId,
    pub created_at: Timestamp,
    pub state: SessionState,
    pub operations: Vec<OperationRecord>,
    pub transitions: Vec<TransitionRecord>,
    pub failures: Vec<FailureRecord>,
}

/// A record as plain values.
#[verifier::ext_equal]
pub struct RecordView {
    pub session_id: SessionId,
    pub plan_id: PlanId,
    pub created_at: Timestamp,
    pub state: SessionState,
    pub operations: Seq<OperationView>,
    pub transitions: Seq<TransitionView>,
    pub failures: Seq<FailureRecord>,
}

pub open spec fn operations_view(operations: Seq<OperationRecord>) -> Seq<OperationView> {
    operations.map_values(|operation: OperationRecord| operation@)
}

pub open spec fn transitions_view(transitions: Seq<TransitionRecord>) -> Seq<TransitionView> {
    transitions.map_values(
        |t: TransitionRecord|
            TransitionView { from: t.from, to: t.to, at: t.at, reason: t.reason@ },
    )
}

impl View for SessionRecord {
    type V = RecordView;

    open spec fn view(&self) -> RecordView {
        RecordView {
            session_id: self.session_id,
            plan_id: self.plan_id,
            created_at: self.created_at,
            state: self.state,
            operations: operations_view(self.operations@),
            transitions: transitions_view(self.transitions@),
            failures: self.failures@,
        }
    }
}

impl Clone for OperationRecord {
    fn clone(&self) -> (r: OperationRecord)
        ensures
            r@ == self@,
    {
        let snapshot = match &self.snapshot {
            Some(snapshot) => Some(snapshot.clone()),
            None => None,
        };
        OperationRecord {
            mutation: self.mutation.clone(),
            snapshot,
            apply_receipt: self.apply_receipt,
            verification: self.verification,
            restore_receipt: self.restore_receipt,
            state: self.state,
        }
    }
}

impl Clone for TransitionRecord {
    fn clone(&self) -> (r: TransitionRecord)
        ensures
            r == *self,
    {
        TransitionRecord {
            from: self.from,
            to: self.to,
            at: self.at,
            reason: self.reason.clone(),
        }
    }
}

impl Clone for SessionRecord {
    fn clone(&self) -> (r: SessionRecord)
        ensures
            r@ == self@,
    {
        let operations = self.operations.clone();
        assert(operations_view(operations@) =~= self@.operations);
        let transitions = self.transitions.clone();
        assert(transitions_view(transitions@) =~= self@.transitions);
        let failures = self.failures.clone();
        assert(failures@ =~= self.failures@);
        SessionRecord {
            session_id: self.session_id,
            plan_id: self.plan_id,
            created_at: self.created_at,
            state: self.state,
            operations,
            transitions,
            failures,
        }
    }
}

impl RecordView {
    /// The record after a step.
    pub open spec fn stepped(self, to: SessionState, at: Timestamp, reason: Seq<char>) -> RecordView {
        RecordView {
            state: to,
            transitions: self.transitions.push(TransitionView { from: self.state, to, at, reason }),
            ..self
        }
    }

    /// The record with one operation replaced.
    pub open spec fn with_operation(self, i: int, operation: OperationView) -> RecordView {
        RecordView { operations: self.operations.update(i, operation), ..self }
    }

    /// The record with one more failure.
    pub open spec fn with_failure(self, error: crate::error::ErrorView) -> RecordView {
        RecordView {
            failures: self.failures.push(
                FailureRecord { code: error.code, stage: error.stage, mutation: error.mutation },
            ),
            ..self
        }
    }
}

/// The operations of a plan before anything was done.
pub open spec fn fresh_operations(mutations: Seq<MutationView>) -> Seq<OperationView> {
    mutations.map_values(
        |mutation: MutationView|
            OperationView {
                mutation,
                snapshot: None,
                apply_receipt: None,
                verification: None,
                restore_receipt: None,
                state: OperationState::Planned,
            },
    )
}

pub open spec fn illegal_step() -> crate::error::ErrorView {
    crate::error::error_view(ErrorCode::InvariantViolation, "session state may not follow"@)
}

/// Whether nothing that a change did can still be there: it was proven
/// restored, or it never got as far as being applied.
pub open spec fn undone(operation: OperationView) -> bool {
    operation.state == OperationState::Restored || (operation.apply_receipt is None
        && operation.state != OperationState::Applying)
}

/// Whether every change of a session is undone.
pub open spec fn all_undone(operations: Seq<OperationView>) -> bool {
    forall|i: int| 0 <= i < operations.len() ==> undone(#[trigger] operations[i])
}

impl SessionRecord {
    /// A record of a plan before anything was done.
    pub fn new(session_id: SessionId, plan: &Plan, now: Timestamp) -> (r: SessionRecord)
        ensures
            r@ == (RecordView {
                session_id,
                plan_id: plan.id,
                created_at: now,
                state: SessionState::New,
                operations: fresh_operations(plan@.mutations),
                transitions: Seq::empty(),
                failures: Seq::empty(),
            }),
    {
        let mut operations: Vec<OperationRecord> = Vec::new();
        let ghost fresh = fresh_operations(plan@.mutations);
        for i in 0..plan.mutations.len()
            invariant
                fresh == fresh_operations(plan@.mutations),
                operations_view(operations@) == fresh.take(i as int),
        {
            let ghost before = operations_view(operations@);
            let mutation = plan.mutations[i].clone();
            assert(plan@.mutations[i as int] == plan.mutations@[i as int]@);
            operations.push(
                OperationRecord {
                    mutation,
                    snapshot: None,
                    apply_receipt: None,
                    verification: None,
                    restore_receipt: None,
                    state: OperationState::Planned,
                },
            );
            assert(operations_view(operations@) =~= before.push(operations@[i as int]@));
            assert(operations_view(operations@) =~= fresh.take(i + 1));
        }
        assert(fresh.take(fresh.len() as int) =~= fresh);
        let r = SessionRecord {
            session_id,
            plan_id: plan.id,
            created_at: now,
            state: SessionState::New,
            operations,
            transitions: Vec::new(),
            failures: Vec::new(),
        };
        assert(r@.transitions =~= Seq::empty());
        assert(r@.failures =~= Seq::empty());
        r
    }

    /// Goes to the next state, if it may follow.
    pub fn transition(&mut self, to: SessionState, at: Timestamp, reason: &str) -> (r: Result<
        (),
        SysboostError,
    >)
        ensures
            match r {
                Ok(_) => may_follow(old(self).state, to) && final(self)@ == old(self)@.stepped(
                    to,
                    at,
                    reason@,
                ),
                Err(e) => !may_follow(old(self).state, to) && *final(self) == *old(self) && e@
                    == illegal_step(),
            },
    {
        if !self.state.allows(to) {
            return Err(
                SysboostError::new(ErrorCode::InvariantViolation, "session state may not follow"),
            );
        }
        let ghost before = self@.transitions;
        self.transitions.push(
            TransitionRecord { from: self.state, to, at, reason: reason.to_string() },
        );
        self.state = to;
        assert(self@.transitions =~= before.push(
            TransitionView { from: old(self).state, to, at, reason: reason@ },
        ));
        assert(self@.operations =~= old(self)@.operations);
        Ok(())
    }

    /// Notes a failure.
    pub fn record_failure(&mut self, error: &SysboostError)
        ensures
            final(self)@ == old(self)@.with_failure(error@),
            final(self).operations == old(self).operations,
            final(self).state == old(self).state,
            final(self).session_id == old(self).session_id,
    {
        self.failures.push(
            FailureRecord { code: error.code, stage: error.stage, mutation: error.mutation },
        );
        assert(self@.failures =~= old(self)@.with_failure(error@).failures);
        assert(self@.operations =~= old(self)@.operations);
        assert(self@.transitions =~= old(self)@.transitions);
    }

    fn put_state(&mut self, i: usize, state: OperationState)
        requires
            i < old(self).operations@.len(),
        ensures
            final(self)@ == old(self)@.with_operation(
                i as int,
                OperationView { state, ..old(self)@.operations[i as int] },
            ),
    {
        self.operations[i].state = state;
        assert(self@.operations =~= old(self)@.operations.update(
            i as int,
            OperationView { state, ..old(self)@.operations[i as int] },
        ));
        assert(self@.transitions =~= old(self)@.transitions);
    }

    /// Keeps what a target held before.
    pub fn capture_snapshot(&mut self, i: usize, snapshot: Snapshot)
        requires
            i < old(self).operations@.len(),
        ensures
            final(self)@ == old(self)@.with_operation(
                i as int,
                OperationView { snapshot: Some(snapshot@), ..old(self)@.operations[i as int] },
            ),
    {
        self.operations[i].snapshot = Some(snapshot);
        assert(self@.operations =~= old(self)@.operations.update(
            i as int,
            OperationView { snapshot: Some(snapshot@), ..old(self)@.operations[i as int] },
        ));
        assert(self@.transitions =~= old(self)@.transitions);
    }

    /// Marks every change as intended.
    pub fn record_intent(&mut self)
        ensures
            final(self)@ == (RecordView {
                operations: old(self)@.operations.map_values(
                    |o: OperationView|
                        OperationView { state: OperationState::IntentRecorded, ..o },
                ),
                ..old(self)@
            }),
    {
        let n: usize = self.operations.len();
        let mut i: usize = 0;
        while i < n
            invariant
                i <= n,
                n == self.operations@.len(),
                self.operations@.len() == old(self).operations@.len(),
                self@.transitions == old(self)@.transitions,
                self@.failures == old(self)@.failures,
                self.session_id == old(self).session_id,
                self.plan_id == old(self).plan_id,
                self.created_at == old(self).created_at,
                self.state == old(self).state,
                forall|j: int|
                    0 <= j < n ==> (#[trigger] self@.operations[j]) == if j < i {
                        OperationView {
                            state: OperationState::IntentRecorded,
                            ..old(self)@.operations[j]
                        }
                    } else {
                        old(self)@.operations[j]
                    },
            decreases n - i,
        {
            let ghost count = self@.operations.len();
            self.put_state(i, OperationState::IntentRecorded);
            assert(self@.operations.len() == count);
            assert(self.operations@.len() == count);
            i = i + 1;
        }
        assert(self@.operations =~= old(self)@.operations.map_values(
            |o: OperationView| OperationView { state: OperationState::IntentRecorded, ..o },
        ));
    }

    /// Marks a change as being applied.
    pub fn begin_apply(&mut self, i: usize)
        requires
            i < old(self).operations@.len(),
        ensures
            final(self)@ == old(self)@.with_operation(
                i as int,
                OperationView {
                    state: OperationState::Applying,
                    ..old(self)@.operations[i as int]
                },
            ),
    {
        self.put_state(i, OperationState::Applying);
    }

    /// Keeps what applying a change left.
    pub fn record_apply(&mut self, i: usize, receipt: ApplyReceipt)
        requires
            i < old(self).operations@.len(),
        ensures
            final(self)@ == old(self)@.with_operation(
                i as int,
                OperationView {
                    apply_receipt: Some(receipt),
                    state: OperationState::Applied,
                    ..old(self)@.operations[i as int]
                },
            ),
    {
        self.operations[i].apply_receipt = Some(receipt);
        self.operations[i].state = OperationState::Applied;
        assert(self@.operations =~= old(self)@.operations.update(
            i as int,
            OperationView {
                apply_receipt: Some(receipt),
                state: OperationState::Applied,
                ..old(self)@.operations[i as int]
            },
        ));
        assert(self@.transitions =~= old(self)@.transitions);
    }

    /// Keeps what reading back saw; a match makes the change verified.
    pub fn record_verification(&mut self, i: usize, verification: VerificationResult)
        requires
            i < old(self).operations@.len(),
        ensures
            final(self)@ == old(self)@.with_operation(
                i as int,
                OperationView {
                    verification: Some(verification),
                    state: if verification.matched {
                        OperationState::Verified
                    } else {
                        old(self)@.operations[i as int].state
                    },
                    ..old(self)@.operations[i as int]
                },
            ),
    {
        self.operations[i].verification = Some(verification);
        if verification.matched {
            self.operations[i].state = OperationState::Verified;
        }
        assert(self@.operations =~= old(self)@.operations.update(
            i as int,
            OperationView {
                verification: Some(verification),
                state: if verification.matched {
                    OperationState::Verified
                } else {
                    old(self)@.operations[i as int].state
                },
                ..old(self)@.operations[i as int]
            },
        ));
        assert(self@.transitions =~= old(self)@.transitions);
    }

    /// Marks a change as failed.
    pub fn fail_operation(&mut self, i: usize, error: &SysboostError)
        requires
            i < old(self).operations@.len(),
        ensures
            final(self)@ == old(self)@.with_operation(
                i as int,
                OperationView { state: OperationState::Failed, ..old(self)@.operations[i as int] },
            ).with_failure(error@),
    {
        self.put_state(i, OperationState::Failed);
        self.record_failure(error);
    }

    /// Marks a change as being restored.
    pub fn begin_restore_operation(&mut self, i: usize)
        requires
            i < old(self).operations@.len(),
        ensures
            final(self)@ == old(self)@.with_operation(
                i as int,
                OperationView {
                    state: OperationState::Restoring,
                    ..old(self)@.operations[i as int]
                },
            ),
    {
        self.put_state(i, OperationState::Restoring);
    }

    /// Marks the restoration of a change as failed.
    pub fn fail_restore(&mut self, i: usize, error: &SysboostError)
        requires
            i < old(self).operations@.len(),
        ensures
            final(self)@ == old(self)@.with_operation(
                i as int,
                OperationView {
                    state: OperationState::RestoreFailed,
                    ..old(self)@.operations[i as int]
                },
            ).with_failure(error@),
    {
        self.put_state(i, OperationState::RestoreFailed);
        self.record_failure(error);
    }

    /// Keeps what restoring a change left.
    pub fn record_restore(&mut self, i: usize, receipt: RestoreReceipt)
        requires
            i < old(self).operations@.len(),
        ensures
            final(self)@ == old(self)@.with_operation(
                i as int,
                OperationView {
                    restore_receipt: Some(receipt),
                    state: OperationState::Restored,
                    ..old(self)@.operations[i as int]
                },
            ),
    {
        self.operations[i].restore_receipt = Some(receipt);
        self.operations[i].state = OperationState::Restored;
        assert(self@.operations =~= old(self)@.operations.update(
            i as int,
            OperationView {
                restore_receipt: Some(receipt),
                state: OperationState::Restored,
                ..old(self)@.operations[i as int]
            },
        ));
        assert(self@.transitions =~= old(self)@.transitions);
    }

    /// Whether every change is undone.
    pub fn restoration_proven(&self) -> (r: bool)
        ensures
            r == all_undone(self@.operations),
    {
        let ghost all = self@.operations;
        let mut i: usize = 0;
        while i < self.operations.len()
            invariant
                i <= self.operations.len(),
                all == self@.operations,
                forall|j: int| 0 <= j < i ==> undone(#[trigger] all[j]),
            decreases self.operations.len() - i,
        {
            assert(all[i as int] == self.operations@[i as int]@);
            let state = self.operations[i].state;
            if !(state == OperationState::Restored || (self.operations[i].apply_receipt.is_none()
                && state != OperationState::Applying)) {
                assert(!undone(all[i as int]));
                return false;
            }
            i = i + 1;
        }
        true
    }
}

/// A session goes one way. Nothing is applied before the intent is durable, a
/// session is active only once it has been applied, it is restored only out of
/// restoring or rolling back, and it is degraded only where one of these fell short.
/// Only a restored session has nowhere to go, and no session begins again.
pub proof fn sessions_go_one_way(from: SessionState, to: SessionState)
    ensures
        may_follow(from, to) ==> to != SessionState::New && from != SessionState::Restored && from
            != to,
        may_follow(from, SessionState::Applying) <==> from == SessionState::IntentDurable,
        may_follow(from, SessionState::IntentDurable) <==> from == SessionState::Snapshotted,
        may_follow(from, SessionState::Snapshotted) <==> from == SessionState::Planned,
        may_follow(from, SessionState::Planned) <==> from == SessionState::Detected,
        may_follow(from, SessionState::Detected) <==> from == SessionState::New,
        may_follow(from, SessionState::Active) <==> from == SessionState::Applying,
        may_follow(from, SessionState::RollingBack) <==> from == SessionState::IntentDurable || from
            == SessionState::Applying,
        may_follow(from, SessionState::Restoring) <==> from == SessionState::Active || from
            == SessionState::RecoveryPending,
        may_follow(from, SessionState::Restored) <==> from == SessionState::Restoring || from
            == SessionState::RollingBack,
        may_follow(from, SessionState::Degraded) <==> from == SessionState::Restoring || from
            == SessionState::RollingBack,
        may_follow(from, SessionState::RecoveryPending) <==> from == SessionState::Degraded,
{
}

/// A state goes by its own name, and no two by the same.
pub proof fn states_go_by_their_names(one: SessionState, other: SessionState)
    ensures
        state_text(SessionState::New) == "New"@,
        state_text(SessionState::Detected) == "Detected"@,
        state_text(SessionState::Planned) == "Planned"@,
        state_text(SessionState::Snapshotted) == "Snapshotted"@,
        state_text(SessionState::IntentDurable) == "IntentDurable"@,
        state_text(SessionState::Applying) == "Applying"@,
        state_text(SessionState::Active) == "Active"@,
        state_text(SessionState::Restoring) == "Restoring"@,
        state_text(SessionState::Restored) == "Restored"@,
        state_text(SessionState::RollingBack) == "RollingBack"@,
        state_text(SessionState::Degraded) == "Degraded"@,
        state_text(SessionState::RecoveryPending) == "RecoveryPending"@,
        state_text(one) == state_text(other) ==> one == other,
{
    reveal_strlit("New");
    reveal_strlit("Detected");
    reveal_strlit("Planned");
    reveal_strlit("Snapshotted");
    reveal_strlit("IntentDurable");
    reveal_strlit("Applying");
    reveal_strlit("Active");
    reveal_strlit("Restoring");
    reveal_strlit("Restored");
    reveal_strlit("RollingBack");
    reveal_strlit("Degraded");
    reveal_strlit("RecoveryPending");
    assert("Detected"@[0] == 'D' && "Restored"@[0] == 'R' && "Applying"@[0] == 'A'
        && "Degraded"@[0] == 'D');
    assert("Detected"@[2] == 't' && "Degraded"@[2] == 'g');
    assert("RollingBack"@[0] == 'R' && "Snapshotted"@[0] == 'S');
    assert("New"@.len() == 3 && "Detected"@.len() == 8 && "Planned"@.len() == 7);
    assert("Snapshotted"@.len() == 11 && "IntentDurable"@.len() == 13 && "Applying"@.len() == 8);
    assert("Active"@.len() == 6 && "Restoring"@.len() == 9 && "Restored"@.len() == 8);
    assert("RollingBack"@.len() == 11 && "Degraded"@.len() == 8 && "RecoveryPending"@.len() == 15);
}

/// A session counts as undone only where each of its mutations was restored or was
/// never begun: one that was applied, and one that may have been, stands against it
/// until it is restored.
pub proof fn what_was_begun_is_not_undone(operations: Seq<OperationView>, i: int)
    requires
        0 <= i < operations.len(),
        all_undone(operations),
    ensures
        operations[i].apply_receipt is Some ==> operations[i].state == OperationState::Restored,
        operations[i].state != OperationState::Applying,
        operations[i].state == OperationState::Applied || operations[i].state
            == OperationState::Verified || operations[i].state == OperationState::RestoreFailed
            ==> operations[i].apply_receipt is None,
{
    assert(undone(operations[i]));
}

} // verus!
