//! The coordinator that takes a plan through snapshot, durable intent, apply,
//! verification and restoration.
//!
//! It is generic over everything it talks to. A ghost history holds every call and
//! every answer, so that what must come before what can be stated of it. With each
//! answer goes a step from what the coordinator talked to as it was before to the
//! same as it was afterwards, and the step is one that the one who was asked may
//! make.

use vstd::prelude::*;

use crate::backend::{BackendExecutionToken, MutationBackend};
use crate::clock::{Clock, Timestamp};
use crate::error::{ErrorCode, ErrorView, Retryability, Stage, SysboostError};
use crate::ids::{BackendId, MutationId, SessionId, StateFingerprint, TargetIdentity};
use crate::mutation;
use crate::mutation::{
    ApplyReceipt, MutationView, Plan, PlannedMutation, RestoreReceipt, Snapshot, SnapshotView,
    VerificationResult,
};
use crate::schedule;
use crate::schedule::{
    AbortEnd, Applying, Ending, Halt, OpeningEnd, PrepareEnd, RecoverEnd, Recovery, Restoration, RestoreEnd,
};
use crate::session;
use crate::session::{
    OperationState, OperationView, RecordView, SessionRecord, SessionState,
};
use crate::state;
use crate::trace;
use crate::trace::{Step, World};
use crate::state::{ExclusiveSessionLock, SessionIdSource, SessionStateStore};

verus! {

/// Where a session stands, by its identity.
#[derive(Clone, Copy, Debug, PartialEq, Eq)]
pub struct TransactionStatus {
    pub session_id: SessionId,
    pub state: SessionState,
}

/// A call of the coordinator and its answer.
#[allow(inconsistent_fields)]
#[verifier::ext_equal]
pub enum Event {
    /// The lock was asked for.
    Acquire { reply: Result<(), ErrorView> },
    /// The unfinished sessions were asked for.
    LoadUnfinished { reply: Result<Seq<RecordView>, ErrorView> },
    /// The time was asked for.
    Now { reply: Result<Timestamp, ErrorView> },
    /// A backend was asked what a target holds.
    Snapshot {
        mutation: MutationView,
        now: Timestamp,
        reply: Result<SnapshotView, ErrorView>,
    },
    /// A new identity was asked for.
    NextId { reply: Result<SessionId, ErrorView> },
    /// A record was to be kept.
    Create { record: RecordView, reply: Result<(), ErrorView> },
    /// A record was to be replaced.
    Replace { record: RecordView, reply: Result<(), ErrorView> },
    /// A record was asked for.
    Load { session_id: SessionId, reply: Result<RecordView, ErrorView> },
    /// A record was to be forgotten.
    Remove { session_id: SessionId, reply: Result<(), ErrorView> },
    /// A backend was told to change a target.
    Apply {
        mutation: MutationView,
        snapshot: SnapshotView,
        reply: Result<ApplyReceipt, ErrorView>,
    },
    /// A backend was asked what a target holds now. What the session owns is
    /// given where the answer decides over a restoration.
    Verify {
        mutation: MutationView,
        expected: StateFingerprint,
        identity: TargetIdentity,
        owned: Option<StateFingerprint>,
        reply: Result<StateFingerprint, ErrorView>,
    },
    /// A backend was told to give a target what it held before.
    Restore {
        mutation: MutationView,
        snapshot: SnapshotView,
        ownership: StateFingerprint,
        reply: Result<RestoreReceipt, ErrorView>,
    },
    /// A backend was asked whether it goes by a name.
    Owns { backend: Seq<char>, reply: bool },
    /// A backend was asked whether a change may be made to a target.
    Admit { mutation: MutationView, identity: TargetIdentity, reply: Result<(), ErrorView> },
}

/// Whether a record says that a change with this snapshot is being applied.
pub open spec fn announces(
    record: RecordView,
    mutation: MutationView,
    snapshot: SnapshotView,
) -> bool {
    &&& record.state == SessionState::Applying
    &&& exists|i: int|
        0 <= i < record.operations.len() && (#[trigger] record.operations[i]).mutation == mutation
            && record.operations[i].snapshot == Some(snapshot) && record.operations[i].state
            == OperationState::Applying
}

/// What may be done after what.
///
/// A target is changed only right after a durable record announced the change
/// together with what the target held before. A target is given back what it
/// held only right after it was seen to hold exactly what the session left
/// there.
pub open spec fn permitted(before: Seq<Event>, e: Event) -> bool {
    match e {
        Event::Apply { mutation, snapshot, .. } => before.len() > 0 && match before.last() {
            Event::Replace { record, reply } => reply is Ok && announces(record, mutation, snapshot),
            _ => false,
        },
        Event::Restore { mutation, snapshot, ownership, .. } => before.len() > 0 && match before.last() {
            Event::Verify { mutation: seen, expected, identity, owned, reply } => {
                &&& seen == mutation
                &&& expected == snapshot.original_fingerprint
                &&& identity == snapshot.target_identity
                &&& owned == Some(ownership)
                &&& reply == Ok::<StateFingerprint, ErrorView>(ownership)
                &&& ownership != snapshot.original_fingerprint
            },
            _ => false,
        },
        _ => true,
    }
}

/// A history in which everything was permitted when it was done.
pub open spec fn safe(history: Seq<Event>) -> bool {
    forall|i: int| 0 <= i < history.len() ==> permitted(history.take(i), #[trigger] history[i])
}

proof fn lemma_safe_push(history: Seq<Event>, e: Event)
    requires
        safe(history),
        permitted(history, e),
    ensures
        safe(history.push(e)),
{
    let after = history.push(e);
    assert forall|i: int| 0 <= i < after.len() implies permitted(
        after.take(i),
        #[trigger] after[i],
    ) by {
        assert(after.take(i) =~= history.take(i));
        if i == history.len() {
            assert(history.take(i) =~= history);
        } else {
            assert(after[i] == history[i]);
        }
    }
}

/// The changes that were made, in order.
pub open spec fn applied(history: Seq<Event>) -> Seq<MutationView>
    decreases history.len(),
{
    if history.len() == 0 {
        Seq::empty()
    } else {
        match history.last() {
            Event::Apply { mutation, .. } => applied(history.drop_last()).push(mutation),
            _ => applied(history.drop_last()),
        }
    }
}

/// What is handed to a backend for a restoration.
#[verifier::ext_equal]
pub struct RestoreCall {
    pub mutation: MutationView,
    pub snapshot: SnapshotView,
    pub ownership: StateFingerprint,
}

/// The restorations that were asked for, in order.
pub open spec fn restores(history: Seq<Event>) -> Seq<RestoreCall>
    decreases history.len(),
{
    if history.len() == 0 {
        Seq::empty()
    } else {
        match history.last() {
            Event::Restore { mutation, snapshot, ownership, .. } => restores(
                history.drop_last(),
            ).push(RestoreCall { mutation, snapshot, ownership }),
            _ => restores(history.drop_last()),
        }
    }
}

/// Whether a snapshot is of the change that it was asked for.
pub open spec fn snapshot_fits(mutation: MutationView, snapshot: SnapshotView) -> bool {
    snapshot.mutation_id == mutation.mutation_id && snapshot.target == mutation.target
        && snapshot.equality == mutation.equality
}

/// Whether a receipt is of the change that was made, from the value that was
/// planned for.
pub open spec fn receipt_fits(mutation: MutationView, receipt: ApplyReceipt) -> bool {
    receipt.mutation_id == mutation.mutation_id && receipt.observed_precondition
        == mutation.precondition && receipt.observed_postcondition == receipt.ownership_fingerprint
}

/// Whether a receipt proves that a target holds again what it held before.
pub open spec fn restore_proven(
    mutation: MutationView,
    snapshot: SnapshotView,
    receipt: RestoreReceipt,
) -> bool {
    receipt.mutation_id == mutation.mutation_id && receipt.verified && receipt.restored_fingerprint
        == snapshot.original_fingerprint
}

/// Whether an answer stands in the way of what the coordinator set out to do.
pub open spec fn setback(e: Event) -> bool {
    match e {
        Event::Acquire { reply } => reply is Err,
        Event::LoadUnfinished { reply } => reply is Err,
        Event::Now { reply } => reply is Err,
        Event::Snapshot { mutation, reply, .. } => match reply {
            Ok(snapshot) => snapshot_refusal(mutation, snapshot) is Some,
            Err(_) => true,
        },
        Event::NextId { reply } => reply is Err,
        Event::Create { reply, .. } => reply is Err,
        Event::Replace { reply, .. } => reply is Err,
        Event::Load { reply, .. } => reply is Err,
        Event::Remove { reply, .. } => reply is Err,
        Event::Apply { mutation, reply, .. } => match reply {
            Ok(receipt) => !receipt_fits(mutation, receipt),
            Err(_) => true,
        },
        Event::Verify { expected, owned, reply, .. } => match reply {
            Ok(observed) => observed != expected && owned != Some(observed),
            Err(_) => true,
        },
        Event::Restore { mutation, snapshot, reply, .. } => match reply {
            Ok(receipt) => !restore_proven(mutation, snapshot, receipt),
            Err(_) => true,
        },
        Event::Owns { reply, .. } => !reply,
        Event::Admit { reply, .. } => reply is Err,
    }
}

/// How often something stood in the way.
pub open spec fn setbacks(history: Seq<Event>) -> nat
    decreases history.len(),
{
    if history.len() == 0 {
        0
    } else {
        setbacks(history.drop_last()) + if setback(history.last()) {
            1nat
        } else {
            0nat
        }
    }
}

/// Whether one history goes on from another.
pub open spec fn extends(before: Seq<Event>, after: Seq<Event>) -> bool {
    &&& before.len() <= after.len()
    &&& forall|i: int| 0 <= i < before.len() ==> after[i] == #[trigger] before[i]
    &&& setbacks(before) <= setbacks(after)
}

/// What one event makes of a history.
pub open spec fn noted(before: Seq<Event>, after: Seq<Event>, e: Event) -> bool {
    &&& after == before.push(e)
    &&& applied(after) == match e {
        Event::Apply { mutation, .. } => applied(before).push(mutation),
        _ => applied(before),
    }
    &&& restores(after) == match e {
        Event::Restore { mutation, snapshot, ownership, .. } => restores(before).push(
            RestoreCall { mutation, snapshot, ownership },
        ),
        _ => restores(before),
    }
    &&& setbacks(after) == setbacks(before) + if setback(e) {
        1nat
    } else {
        0nat
    }
    &&& extends(before, after)
}

proof fn lemma_noted(before: Seq<Event>, e: Event)
    ensures
        noted(before, before.push(e), e),
{
    assert(before.push(e).drop_last() =~= before);
}

/// Whether something was done after a history without changing any target.
pub open spec fn untouched(before: Seq<Event>, after: Seq<Event>) -> bool {
    applied(after) == applied(before) && restores(after) == restores(before)
}

/// An error with the context in which it came.
pub open spec fn in_context(
    error: ErrorView,
    stage: Stage,
    session: Option<SessionId>,
    mutation: Option<MutationId>,
) -> ErrorView {
    ErrorView {
        stage: Some(stage),
        session: if session is Some {
            session
        } else {
            error.session
        },
        mutation: if mutation is Some {
            mutation
        } else {
            error.mutation
        },
        ..error
    }
}

/// Puts an error into the context in which it came.
pub fn contextual(
    error: SysboostError,
    stage: Stage,
    session: Option<SessionId>,
    mutation: Option<MutationId>,
) -> (r: SysboostError)
    ensures
        r@ == in_context(error@, stage, session, mutation),
{
    let mut error = error.with_stage(stage);
    if let Some(session) = session {
        error = error.with_session(session);
    }
    if let Some(mutation) = mutation {
        error = error.with_mutation(mutation);
    }
    error
}

pub open spec fn session_error(
    code: ErrorCode,
    message: Seq<char>,
    stage: Stage,
    session: SessionId,
    mutation: Option<MutationId>,
) -> ErrorView {
    in_context(crate::error::error_view(code, message), stage, Some(session), mutation)
}

fn fault(
    code: ErrorCode,
    message: &str,
    stage: Stage,
    session: SessionId,
    mutation: Option<MutationId>,
) -> (r: SysboostError)
    ensures
        r@ == session_error(code, message@, stage, session, mutation),
{
    contextual(SysboostError::new(code, message), stage, Some(session), mutation)
}

/// Why a snapshot is not accepted.
pub open spec fn snapshot_refusal(mutation: MutationView, snapshot: SnapshotView) -> Option<
    ErrorView,
> {
    if !snapshot_fits(mutation, snapshot) {
        Some(
            ErrorView {
                mutation: Some(mutation.mutation_id),
                target: Some(mutation.target),
                ..crate::error::staged(
                    ErrorCode::SnapshotError,
                    "backend snapshot does not satisfy the typed mutation contract"@,
                    Stage::Snapshot,
                )
            },
        )
    } else if snapshot.original_fingerprint != mutation.precondition {
        Some(
            ErrorView {
                mutation: Some(mutation.mutation_id),
                target: Some(mutation.target),
                ..crate::error::staged(
                    ErrorCode::TargetError,
                    "target changed between planning and snapshot"@,
                    Stage::Snapshot,
                )
            },
        )
    } else {
        None
    }
}

/// Whether a snapshot can be relied on: it is of the change that it was asked
/// for, and the target still holds what planning saw.
pub fn admit_snapshot(mutation: &PlannedMutation, snapshot: &Snapshot) -> (r: Result<
    (),
    SysboostError,
>)
    ensures
        match r {
            Ok(_) => snapshot_refusal(mutation@, snapshot@) is None,
            Err(e) => snapshot_refusal(mutation@, snapshot@) == Some(e@),
        },
{
    if snapshot.mutation_id != mutation.mutation_id || !snapshot.target.same(&mutation.target)
        || snapshot.equality != mutation.equality {
        return Err(
            SysboostError::new(
                ErrorCode::SnapshotError,
                "backend snapshot does not satisfy the typed mutation contract",
            ).with_stage(Stage::Snapshot).with_mutation(mutation.mutation_id).with_target(
                mutation.target.clone(),
            ),
        );
    }
    if !snapshot.original_fingerprint.same(&mutation.precondition) {
        return Err(
            SysboostError::new(
                ErrorCode::TargetError,
                "target changed between planning and snapshot",
            ).with_stage(Stage::Snapshot).with_mutation(mutation.mutation_id).with_target(
                mutation.target.clone(),
            ),
        );
    }
    Ok(())
}

/// Whether a receipt is of the change that was made.
pub fn accept_receipt(mutation: &PlannedMutation, receipt: &ApplyReceipt) -> (r: bool)
    ensures
        r == receipt_fits(mutation@, *receipt),
{
    receipt.mutation_id == mutation.mutation_id && receipt.observed_precondition.same(
        &mutation.precondition,
    ) && receipt.observed_postcondition.same(&receipt.ownership_fingerprint)
}

/// What is to be done about a target that a session changed.
#[derive(Clone, Copy, Debug, PartialEq, Eq, Structural)]
pub enum RestoreDecision {
    /// It holds already what it held before.
    AlreadyOriginal,
    /// It holds what the session left there and is given back what it held.
    Write,
    /// Something else changed it; it is left as it is.
    Conflict,
}

/// What is to be done, from what the target holds now, what it held before and
/// what the session left there.
pub fn decide_restore(
    observed: StateFingerprint,
    original: StateFingerprint,
    ownership: StateFingerprint,
) -> (r: RestoreDecision)
    ensures
        r == decision_spec(observed, original, ownership),
{
    if observed.same(&original) {
        RestoreDecision::AlreadyOriginal
    } else if observed.same(&ownership) {
        RestoreDecision::Write
    } else {
        RestoreDecision::Conflict
    }
}

pub open spec fn decision_spec(
    observed: StateFingerprint,
    original: StateFingerprint,
    ownership: StateFingerprint,
) -> RestoreDecision {
    if observed == original {
        RestoreDecision::AlreadyOriginal
    } else if observed == ownership {
        RestoreDecision::Write
    } else {
        RestoreDecision::Conflict
    }
}

/// A target that was changed by someone else is never overwritten.
pub proof fn foreign_values_are_kept(
    observed: StateFingerprint,
    original: StateFingerprint,
    ownership: StateFingerprint,
)
    requires
        observed != original,
        observed != ownership,
    ensures
        decision_spec(observed, original, ownership) != RestoreDecision::Write,
{
}

/// Whether a receipt proves a restoration.
pub fn accept_restore(mutation: &PlannedMutation, snapshot: &Snapshot, receipt: &RestoreReceipt)
    -> (r: bool)
    ensures
        r == restore_proven(mutation@, snapshot@, *receipt),
{
    receipt.mutation_id == mutation.mutation_id && receipt.verified
        && receipt.restored_fingerprint.same(&snapshot.original_fingerprint)
}

/// The name of an error code.
pub open spec fn code_text(code: ErrorCode) -> Seq<char> {
    match code {
        ErrorCode::ConfigError => "ConfigError"@,
        ErrorCode::CapabilityError => "CapabilityError"@,
        ErrorCode::Unsupported => "Unsupported"@,
        ErrorCode::AuthorizationError => "AuthorizationError"@,
        ErrorCode::TargetError => "TargetError"@,
        ErrorCode::PlanningError => "PlanningError"@,
        ErrorCode::SnapshotError => "SnapshotError"@,
        ErrorCode::DurabilityError => "DurabilityError"@,
        ErrorCode::TransportError => "TransportError"@,
        ErrorCode::ApplyError => "ApplyError"@,
        ErrorCode::VerificationError => "VerificationError"@,
        ErrorCode::RestoreConflict => "RestoreConflict"@,
        ErrorCode::RestoreError => "RestoreError"@,
        ErrorCode::JournalCorrupt => "JournalCorrupt"@,
        ErrorCode::InvariantViolation => "InvariantViolation"@,
        ErrorCode::InvalidInput => "InvalidInput"@,
    }
}

fn code_name(code: ErrorCode) -> (r: &'static str)
    ensures
        r@ == code_text(code),
{
    match code {
        ErrorCode::ConfigError => "ConfigError",
        ErrorCode::CapabilityError => "CapabilityError",
        ErrorCode::Unsupported => "Unsupported",
        ErrorCode::AuthorizationError => "AuthorizationError",
        ErrorCode::TargetError => "TargetError",
        ErrorCode::PlanningError => "PlanningError",
        ErrorCode::SnapshotError => "SnapshotError",
        ErrorCode::DurabilityError => "DurabilityError",
        ErrorCode::TransportError => "TransportError",
        ErrorCode::ApplyError => "ApplyError",
        ErrorCode::VerificationError => "VerificationError",
        ErrorCode::RestoreConflict => "RestoreConflict",
        ErrorCode::RestoreError => "RestoreError",
        ErrorCode::JournalCorrupt => "JournalCorrupt",
        ErrorCode::InvariantViolation => "InvariantViolation",
        ErrorCode::InvalidInput => "InvalidInput",
    }
}

/// The error of a transaction that failed and could not be rolled back either.
pub open spec fn combined(trigger: ErrorView, rollback: ErrorView, session: SessionId) -> ErrorView {
    ErrorView {
        retryability: Retryability::AfterRecovery,
        ..session_error(
            match rollback.code {
                ErrorCode::JournalCorrupt => ErrorCode::JournalCorrupt,
                ErrorCode::RestoreConflict => ErrorCode::RestoreConflict,
                _ => ErrorCode::RestoreError,
            },
            "transaction failed with "@ + code_text(trigger.code)
                + "; rollback also failed with "@ + code_text(rollback.code),
            Stage::Recovery,
            session,
            None,
        )
    }
}

/// The error of a transaction that failed and could not be rolled back either.
pub fn combine_failure(
    trigger: SysboostError,
    rollback: SysboostError,
    session: SessionId,
) -> (r: SysboostError)
    ensures
        r@ == combined(trigger@, rollback@, session),
{
    let code = match rollback.code {
        ErrorCode::JournalCorrupt => ErrorCode::JournalCorrupt,
        ErrorCode::RestoreConflict => ErrorCode::RestoreConflict,
        _ => ErrorCode::RestoreError,
    };
    let mut message = "transaction failed with ".to_string();
    message.append(code_name(trigger.code));
    message.append("; rollback also failed with ");
    message.append(code_name(rollback.code));
    fault(code, message.as_str(), Stage::Recovery, session, None).retryable(
        Retryability::AfterRecovery,
    )
}

/// The steps of a record from nothing to a durable intent.
pub open spec fn preparation(now: Timestamp) -> Seq<session::TransitionView> {
    seq![
        session::TransitionView {
            from: SessionState::New,
            to: SessionState::Detected,
            at: now,
            reason: "capability evidence accepted"@,
        },
        session::TransitionView {
            from: SessionState::Detected,
            to: SessionState::Planned,
            at: now,
            reason: "complete typed plan accepted"@,
        },
        session::TransitionView {
            from: SessionState::Planned,
            to: SessionState::Snapshotted,
            at: now,
            reason: "all original states captured"@,
        },
        session::TransitionView {
            from: SessionState::Snapshotted,
            to: SessionState::IntentDurable,
            at: now,
            reason: "snapshots and mutation intent are durable"@,
        },
    ]
}

/// The record of a plan whose targets were all read and none was changed.
pub open spec fn prepared_record(
    session_id: SessionId,
    plan: mutation::PlanDataView,
    now: Timestamp,
    snapshots: Seq<SnapshotView>,
) -> RecordView {
    RecordView {
        session_id,
        plan_id: plan.id,
        created_at: now,
        state: SessionState::IntentDurable,
        operations: Seq::new(
            plan.mutations.len(),
            |i: int|
                OperationView {
                    mutation: plan.mutations[i],
                    snapshot: Some(snapshots[i]),
                    apply_receipt: None,
                    verification: None,
                    restore_receipt: None,
                    state: OperationState::IntentRecorded,
                },
        ),
        transitions: preparation(now),
        failures: Seq::empty(),
    }
}

/// Whether there is an accepted snapshot for every change, in order.
pub open spec fn all_admitted(mutations: Seq<MutationView>, snapshots: Seq<SnapshotView>) -> bool {
    &&& snapshots.len() == mutations.len()
    &&& forall|i: int|
        0 <= i < mutations.len() ==> snapshot_refusal(
            mutations[i],
            #[trigger] snapshots[i],
        ) is None
}

/// Snapshots as plain values.
pub open spec fn snapshots_view(snapshots: Seq<Snapshot>) -> Seq<SnapshotView> {
    snapshots.map_values(|snapshot: Snapshot| snapshot@)
}

/// The record of a plan whose targets were all read and none was changed.
pub fn prepared(session_id: SessionId, plan: &Plan, now: Timestamp, snapshots: &Vec<Snapshot>) -> (r:
    SessionRecord)
    requires
        snapshots@.len() == plan.mutations@.len(),
    ensures
        r@ == prepared_record(
            session_id,
            plan@,
            now,
            snapshots_view(snapshots@),
        ),
{
    let ghost taken = snapshots_view(snapshots@);
    let mut record = SessionRecord::new(session_id, plan, now);
    let _ = record.transition(SessionState::Detected, now, "capability evidence accepted");
    let _ = record.transition(SessionState::Planned, now, "complete typed plan accepted");
    let ghost planned = record@;
    assert(record.operations@.len() == record@.operations.len());
    let n: usize = snapshots.len();
    let mut i: usize = 0;
    while i < n
        invariant
            i <= n,
            n == snapshots@.len(),
            taken == snapshots_view(snapshots@),
            n == planned.operations.len(),
            record.operations@.len() == n,
            planned.operations == session::fresh_operations(plan@.mutations),
            record@ == (RecordView { operations: record@.operations, ..planned }),
            record@.operations.len() == n,
            forall|j: int|
                0 <= j < n ==> (#[trigger] record@.operations[j]) == if j < i {
                    OperationView { snapshot: Some(taken[j]), ..planned.operations[j] }
                } else {
                    planned.operations[j]
                },
        decreases n - i,
    {
        let snapshot = snapshots[i].clone();
        assert(snapshot@ == taken[i as int]);
        record.capture_snapshot(i, snapshot);
        assert(record@.operations.len() == n);
        assert(record.operations@.len() == record@.operations.len());
        i = i + 1;
    }
    let _ = record.transition(SessionState::Snapshotted, now, "all original states captured");
    record.record_intent();
    let _ = record.transition(
        SessionState::IntentDurable,
        now,
        "snapshots and mutation intent are durable",
    );
    assert(record@.operations =~= prepared_record(session_id, plan@, now, taken).operations);
    assert(record@.transitions =~= preparation(now));
    record
}

/// How many identities are tried for one session.
pub const MAX_IDENTITY_ATTEMPTS: u32 = 32;

/// The lock that a coordinator holds for a session.
struct ActiveLease<G> {
    session_id: SessionId,
    guard: G,
}

/// The coordinator. Only its backend can change anything, and that is not called
/// before complete snapshots and a durable intent were written.
pub struct TransactionEngine<B, S, L: ExclusiveSessionLock, G, C> {
    backend: B,
    state_store: S,
    lock: L,
    id_source: G,
    clock: C,
    execution: BackendExecutionToken,
    active: Option<ActiveLease<L::Guard>>,
    history: Ghost<Seq<Event>>,
    steps: Ghost<Seq<Step<B, S, L, G, C>>>,
}

/// Why a session may not be worked on.
pub open spec fn lease_refusal(active: Option<SessionId>, session_id: SessionId) -> Option<
    ErrorView,
> {
    match active {
        Some(held) => if held == session_id {
            None
        } else {
            Some(
                ErrorView {
                    session: Some(held),
                    ..crate::error::staged(
                        ErrorCode::AuthorizationError,
                        "requested session is not owned by this coordinator"@,
                        Stage::Transport,
                    )
                },
            )
        },
        None => Some(
            crate::error::staged(
                ErrorCode::AuthorizationError,
                "no mutating-session lease is held by this coordinator"@,
                Stage::Transport,
            ),
        ),
    }
}

/// What remains held when a session was restored.
pub open spec fn released(active: Option<SessionId>, session_id: SessionId) -> Option<SessionId> {
    if active == Some(session_id) {
        None
    } else {
        active
    }
}

/// Why a plan is not even looked at.
pub open spec fn plan_refusal(active: Option<SessionId>, plan: mutation::PlanDataView) -> Option<
    ErrorView,
> {
    if active is Some {
        Some(
            ErrorView {
                retryability: Retryability::Retry,
                ..crate::error::error_view(
                    ErrorCode::AuthorizationError,
                    "this coordinator already owns a mutating session"@,
                )
            },
        )
    } else if mutation::repeated_mutation(plan.mutations) {
        Some(mutation::incomplete_plan())
    } else if plan.mutations.len() == 0 {
        Some(
            crate::error::staged(
                ErrorCode::AuthorizationError,
                "a report-only or no-op plan cannot enter the mutation engine"@,
                Stage::Plan,
            ),
        )
    } else {
        None
    }
}

impl<B, S, L, G, C> TransactionEngine<B, S, L, G, C> where
    B: MutationBackend,
    S: SessionStateStore,
    L: ExclusiveSessionLock,
    G: SessionIdSource,
    C: Clock,
 {
    /// Every call that was made, with its answer.
    pub closed spec fn history(&self) -> Seq<Event> {
        self.history@
    }

    /// The session that the coordinator holds the lock for.
    pub closed spec fn active(&self) -> Option<SessionId> {
        match self.active {
            Some(lease) => Some(lease.session_id),
            None => None,
        }
    }

    /// What each call of the history did.
    pub closed spec fn steps(&self) -> Seq<Step<B, S, L, G, C>> {
        self.steps@
    }

    /// Everything that the coordinator talks to.
    pub closed spec fn world(&self) -> World<B, S, L, G, C> {
        World {
            backend: self.backend,
            store: self.state_store,
            lock: self.lock,
            ids: self.id_source,
            clock: self.clock,
        }
    }

    /// Whether nothing was ever done that was not permitted, and every answer of the
    /// history was given by the one who was asked.
    pub open spec fn wf(&self) -> bool {
        safe(self.history()) && trace::faithful(self.history(), self.steps())
    }

    /// Whether the steps since a position in the history lead from a state of things
    /// to the present one.
    pub open spec fn came_from(&self, since: int, start: World<B, S, L, G, C>) -> bool {
        trace::leads(self.steps(), since, start, self.world())
    }

    /// Whether all that was done since an earlier moment was done by the steps that
    /// were added.
    pub open spec fn goes_on_from(&self, earlier: &Self) -> bool {
        &&& earlier.steps().len() <= self.steps().len()
        &&& forall|i: int|
            0 <= i < earlier.steps().len() ==> #[trigger] self.steps()[i] == earlier.steps()[i]
        &&& forall|since: int, start: World<B, S, L, G, C>| #[trigger]
            earlier.came_from(since, start) ==> self.came_from(since, start)
    }

    /// Before anything more is done, the steps to come begin with things as they are.
    pub proof fn stands_here(&self)
        requires
            self.wf(),
        ensures
            self.came_from(self.history().len() as int, self.world()),
    {
        reveal(trace::faithful);
        trace::lemma_leads_nowhere(self.steps(), self.world());
    }

    /// A coordinator that has done nothing yet.
    pub fn new(backend: B, state_store: S, lock: L, id_source: G, clock: C) -> (r: Self)
        ensures
            r.wf(),
            r.history() == Seq::<Event>::empty(),
            r.active() is None,
            r.world() == (World { backend, store: state_store, lock, ids: id_source, clock }),
    {
        proof {
            reveal(trace::faithful);
        }
        TransactionEngine {
            backend,
            state_store,
            lock,
            id_source,
            clock,
            execution: BackendExecutionToken::new(),
            active: None,
            history: Ghost(Seq::empty()),
            steps: Ghost(Seq::empty()),
        }
    }

    fn note(&mut self, Ghost(before): Ghost<World<B, S, L, G, C>>, Ghost(e): Ghost<Event>)
        requires
            old(self).wf(),
            permitted(old(self).history(), e),
            trace::answered(Step { before, event: e, after: old(self).world() }),
        ensures
            final(self).wf(),
            final(self).active() == old(self).active(),
            final(self).world() == old(self).world(),
            noted(old(self).history(), final(self).history(), e),
            final(self).steps() == old(self).steps().push(
                Step { before, event: e, after: old(self).world() },
            ),
            forall|since: int, start: World<B, S, L, G, C>| #[trigger]
                trace::leads(old(self).steps(), since, start, before) ==> final(self).came_from(
                    since,
                    start,
                ),
    {
        let ghost step = Step { before, event: e, after: self.world() };
        proof {
            lemma_noted(self.history@, e);
            lemma_safe_push(self.history@, e);
            trace::lemma_faithful_push(self.history@, self.steps@, step);
            assert forall|since: int, start: World<B, S, L, G, C>| #[trigger]
                trace::leads(self.steps@, since, start, before) implies trace::leads(
                self.steps@.push(step),
                since,
                start,
                step.after,
            ) by {
                trace::lemma_leads_push(self.steps@, step, since, start);
            }
        }
        self.history = Ghost(self.history@.push(e));
        self.steps = Ghost(self.steps@.push(step));
    }

    fn acquire(&mut self) -> (r: Result<L::Guard, SysboostError>)
        requires
            old(self).wf(),
        ensures
            final(self).wf(),
            final(self).goes_on_from(old(self)),
            final(self).active() == old(self).active(),
            noted(
                old(self).history(),
                final(self).history(),
                Event::Acquire {
                    reply: crate::error::outcome(r),
                },
            ),
    {
        let ghost before = self.world();
        let r = self.lock.acquire();
        self.note(
            Ghost(before),
            Ghost(
                Event::Acquire {
                    reply: crate::error::outcome(r),
                },
            ),
        );
        r
    }

    fn load_unfinished(&mut self) -> (r: Result<Vec<SessionRecord>, SysboostError>)
        requires
            old(self).wf(),
        ensures
            final(self).wf(),
            final(self).goes_on_from(old(self)),
            final(self).active() == old(self).active(),
            noted(
                old(self).history(),
                final(self).history(),
                Event::LoadUnfinished {
                    reply: state::listed(r),
                },
            ),
    {
        let ghost before = self.world();
        let r = self.state_store.load_unfinished();
        self.note(
            Ghost(before),
            Ghost(
                Event::LoadUnfinished {
                    reply: state::listed(r),
                },
            ),
        );
        r
    }

    fn time(&mut self) -> (r: Result<Timestamp, SysboostError>)
        requires
            old(self).wf(),
        ensures
            final(self).wf(),
            final(self).goes_on_from(old(self)),
            final(self).active() == old(self).active(),
            noted(
                old(self).history(),
                final(self).history(),
                Event::Now {
                    reply: crate::error::plain(r),
                },
            ),
    {
        let ghost before = self.world();
        let r = self.clock.now();
        self.note(
            Ghost(before),
            Ghost(
                Event::Now {
                    reply: crate::error::plain(r),
                },
            ),
        );
        r
    }

    fn take_snapshot(&mut self, mutation: &PlannedMutation, now: Timestamp) -> (r: Result<
        Snapshot,
        SysboostError,
    >)
        requires
            old(self).wf(),
        ensures
            final(self).wf(),
            final(self).goes_on_from(old(self)),
            final(self).active() == old(self).active(),
            noted(
                old(self).history(),
                final(self).history(),
                Event::Snapshot {
                    mutation: mutation@,
                    now,
                    reply: crate::error::viewed(r),
                },
            ),
    {
        let ghost before = self.world();
        let r = self.backend.snapshot(&self.execution, mutation, now);
        self.note(
            Ghost(before),
            Ghost(
                Event::Snapshot {
                    mutation: mutation@,
                    now,
                    reply: crate::error::viewed(r),
                },
            ),
        );
        r
    }

    fn next_id(&mut self) -> (r: Result<SessionId, SysboostError>)
        requires
            old(self).wf(),
        ensures
            final(self).wf(),
            final(self).goes_on_from(old(self)),
            final(self).active() == old(self).active(),
            noted(
                old(self).history(),
                final(self).history(),
                Event::NextId {
                    reply: crate::error::plain(r),
                },
            ),
    {
        let ghost before = self.world();
        let r = self.id_source.next_id();
        self.note(
            Ghost(before),
            Ghost(
                Event::NextId {
                    reply: crate::error::plain(r),
                },
            ),
        );
        r
    }

    fn create(&mut self, record: &SessionRecord) -> (r: Result<(), SysboostError>)
        requires
            old(self).wf(),
        ensures
            final(self).wf(),
            final(self).goes_on_from(old(self)),
            final(self).active() == old(self).active(),
            noted(
                old(self).history(),
                final(self).history(),
                Event::Create {
                    record: record@,
                    reply: crate::error::outcome(r),
                },
            ),
    {
        let ghost before = self.world();
        let r = self.state_store.create(record);
        self.note(
            Ghost(before),
            Ghost(
                Event::Create {
                    record: record@,
                    reply: crate::error::outcome(r),
                },
            ),
        );
        r
    }

    /// Whether the backend goes by a name.
    pub(crate) fn goes_by(&mut self, backend: &BackendId) -> (r: bool)
        requires
            old(self).wf(),
        ensures
            final(self).wf(),
            final(self).goes_on_from(old(self)),
            final(self).active() == old(self).active(),
            noted(
                old(self).history(),
                final(self).history(),
                Event::Owns { backend: backend@, reply: r },
            ),
    {
        let ghost before = self.world();
        let r = self.backend.owns_backend(backend);
        self.note(Ghost(before), Ghost(Event::Owns { backend: backend@, reply: r }));
        r
    }

    /// Whether the backend lets a change be made to a target.
    pub(crate) fn lets_change(&mut self, mutation: &PlannedMutation, identity: TargetIdentity) -> (r: Result<
        (),
        SysboostError,
    >)
        requires
            old(self).wf(),
        ensures
            final(self).wf(),
            final(self).goes_on_from(old(self)),
            final(self).active() == old(self).active(),
            noted(
                old(self).history(),
                final(self).history(),
                Event::Admit {
                    mutation: mutation@,
                    identity,
                    reply: crate::error::outcome(r),
                },
            ),
    {
        let ghost before = self.world();
        let r = self.backend.validate_admission(mutation, identity);
        self.note(
            Ghost(before),
            Ghost(
                Event::Admit {
                    mutation: mutation@,
                    identity,
                    reply: crate::error::outcome(r),
                },
            ),
        );
        r
    }

    /// Reads a record.
    pub(crate) fn load(&mut self, session_id: SessionId) -> (r: Result<
        SessionRecord,
        SysboostError,
    >)
        requires
            old(self).wf(),
        ensures
            final(self).wf(),
            final(self).goes_on_from(old(self)),
            final(self).active() == old(self).active(),
            noted(
                old(self).history(),
                final(self).history(),
                Event::Load {
                    session_id,
                    reply: crate::error::viewed(r),
                },
            ),
    {
        let ghost before = self.world();
        let r = self.state_store.load(session_id);
        self.note(
            Ghost(before),
            Ghost(
                Event::Load {
                    session_id,
                    reply: crate::error::viewed(r),
                },
            ),
        );
        r
    }

    fn remove(&mut self, session_id: SessionId) -> (r: Result<(), SysboostError>)
        requires
            old(self).wf(),
        ensures
            final(self).wf(),
            final(self).goes_on_from(old(self)),
            final(self).active() == old(self).active(),
            noted(
                old(self).history(),
                final(self).history(),
                Event::Remove {
                    session_id,
                    reply: crate::error::outcome(r),
                },
            ),
    {
        let ghost before = self.world();
        let r = self.state_store.remove(session_id);
        self.note(
            Ghost(before),
            Ghost(
                Event::Remove {
                    session_id,
                    reply: crate::error::outcome(r),
                },
            ),
        );
        r
    }

    /// Replaces the durable record.
    fn persist(&mut self, record: &SessionRecord, stage: Stage) -> (r: Result<(), SysboostError>)
        requires
            old(self).wf(),
        ensures
            final(self).wf(),
            final(self).goes_on_from(old(self)),
            final(self).active() == old(self).active(),
            final(self).history().len() > 0,
            match final(self).history().last() {
                Event::Replace { record: kept, reply } => {
                    &&& kept == record@
                    &&& noted(old(self).history(), final(self).history(), final(self).history().last())
                    &&& match r {
                        Ok(_) => reply == Ok::<(), ErrorView>(()),
                        Err(e) => reply is Err && e@ == in_context(
                            reply->Err_0,
                            stage,
                            Some(record.session_id),
                            None,
                        ),
                    }
                },
                _ => false,
            },
    {
        let ghost before = self.world();
        let r = self.state_store.replace(record);
        self.note(
            Ghost(before),
            Ghost(
                Event::Replace {
                    record: record@,
                    reply: crate::error::outcome(r),
                },
            ),
        );
        match r {
            Ok(_) => Ok(()),
            Err(error) => Err(contextual(error, stage, Some(record.session_id), None)),
        }
    }

    fn run_apply(&mut self, mutation: &PlannedMutation, snapshot: &Snapshot) -> (r: Result<
        ApplyReceipt,
        SysboostError,
    >)
        requires
            old(self).wf(),
            permitted(
                old(self).history(),
                Event::Apply {
                    mutation: mutation@,
                    snapshot: snapshot@,
                    reply: arbitrary(),
                },
            ),
        ensures
            final(self).wf(),
            final(self).goes_on_from(old(self)),
            final(self).active() == old(self).active(),
            noted(
                old(self).history(),
                final(self).history(),
                Event::Apply {
                    mutation: mutation@,
                    snapshot: snapshot@,
                    reply: crate::error::plain(r),
                },
            ),
    {
        let ghost before = self.world();
        let r = self.backend.apply(&self.execution, mutation, snapshot);
        self.note(
            Ghost(before),
            Ghost(
                Event::Apply {
                    mutation: mutation@,
                    snapshot: snapshot@,
                    reply: crate::error::plain(r),
                },
            ),
        );
        r
    }

    fn read_back(
        &mut self,
        mutation: &PlannedMutation,
        expected: StateFingerprint,
        identity: TargetIdentity,
        owned: Option<StateFingerprint>,
    ) -> (r: Result<StateFingerprint, SysboostError>)
        requires
            old(self).wf(),
        ensures
            final(self).wf(),
            final(self).goes_on_from(old(self)),
            final(self).active() == old(self).active(),
            noted(
                old(self).history(),
                final(self).history(),
                Event::Verify {
                    mutation: mutation@,
                    expected,
                    identity,
                    owned,
                    reply: crate::error::plain(r),
                },
            ),
    {
        let ghost before = self.world();
        let r = self.backend.verify(&self.execution, mutation, expected, identity);
        self.note(
            Ghost(before),
            Ghost(
                Event::Verify {
                    mutation: mutation@,
                    expected,
                    identity,
                    owned,
                    reply: crate::error::plain(r),
                },
            ),
        );
        r
    }

    fn run_restore(
        &mut self,
        mutation: &PlannedMutation,
        snapshot: &Snapshot,
        ownership: StateFingerprint,
    ) -> (r: Result<RestoreReceipt, SysboostError>)
        requires
            old(self).wf(),
            permitted(
                old(self).history(),
                Event::Restore {
                    mutation: mutation@,
                    snapshot: snapshot@,
                    ownership,
                    reply: arbitrary(),
                },
            ),
        ensures
            final(self).wf(),
            final(self).goes_on_from(old(self)),
            final(self).active() == old(self).active(),
            noted(
                old(self).history(),
                final(self).history(),
                Event::Restore {
                    mutation: mutation@,
                    snapshot: snapshot@,
                    ownership,
                    reply: crate::error::plain(r),
                },
            ),
    {
        let ghost before = self.world();
        let r = self.backend.restore(&self.execution, mutation, snapshot, ownership);
        self.note(
            Ghost(before),
            Ghost(
                Event::Restore {
                    mutation: mutation@,
                    snapshot: snapshot@,
                    ownership,
                    reply: crate::error::plain(r),
                },
            ),
        );
        r
    }
}

impl<B, S, L, G, C> TransactionEngine<B, S, L, G, C> where
    B: MutationBackend,
    S: SessionStateStore,
    L: ExclusiveSessionLock,
    G: SessionIdSource,
    C: Clock,
 {
    /// The backend.
    pub open spec fn held_backend(&self) -> B {
        self.world().backend
    }

    /// The place where records are kept.
    pub open spec fn held_store(&self) -> S {
        self.world().store
    }

    /// The backend, for inspection.
    pub fn backend(&self) -> (r: &B)
        ensures
            *r == self.held_backend(),
    {
        &self.backend
    }

    /// The backend, for setting up what it works on.
    pub fn backend_mut(&mut self) -> (r: &mut B)
        ensures
            *r == old(self).held_backend(),
            final(self).world() == (World { backend: *final(r), ..old(self).world() }),
            final(self).history() == old(self).history(),
            final(self).steps() == old(self).steps(),
            final(self).active() == old(self).active(),
    {
        &mut self.backend
    }

    /// The place where records are kept, for inspection.
    pub fn state_store(&self) -> (r: &S)
        ensures
            *r == self.held_store(),
    {
        &self.state_store
    }

    /// The place where records are kept, for setting it up.
    pub fn state_store_mut(&mut self) -> (r: &mut S)
        ensures
            *r == old(self).held_store(),
            final(self).world() == (World { store: *final(r), ..old(self).world() }),
            final(self).history() == old(self).history(),
            final(self).steps() == old(self).steps(),
            final(self).active() == old(self).active(),
    {
        &mut self.state_store
    }

    fn require_active(&self, session_id: SessionId) -> (r: Result<(), SysboostError>)
        ensures
            match r {
                Ok(_) => lease_refusal(self.active(), session_id) is None,
                Err(e) => lease_refusal(self.active(), session_id) == Some(e@),
            },
    {
        match &self.active {
            Some(lease) => {
                if lease.session_id.same(&session_id) {
                    Ok(())
                } else {
                    Err(
                        SysboostError::new(
                            ErrorCode::AuthorizationError,
                            "requested session is not owned by this coordinator",
                        ).with_stage(Stage::Transport).with_session(lease.session_id),
                    )
                }
            },
            None => Err(
                SysboostError::new(
                    ErrorCode::AuthorizationError,
                    "no mutating-session lease is held by this coordinator",
                ).with_stage(Stage::Transport),
            ),
        }
    }

    fn release_if_restored(&mut self, session_id: SessionId)
        requires
            old(self).wf(),
        ensures
            final(self).wf(),
            final(self).goes_on_from(old(self)),
            final(self).history() == old(self).history(),
            final(self).active() == released(old(self).active(), session_id),
    {
        let held = match &self.active {
            Some(lease) => lease.session_id.same(&session_id),
            None => false,
        };
        if held {
            self.active = None;
        }
    }

    /// Reads what every target of a plan holds.
    fn take_snapshots(&mut self, plan: &Plan, now: Timestamp) -> (r: Result<
        Vec<Snapshot>,
        SysboostError,
    >)
        requires
            old(self).wf(),
        ensures
            final(self).wf(),
            final(self).goes_on_from(old(self)),
            final(self).active() == old(self).active(),
            untouched(old(self).history(), final(self).history()),
            extends(old(self).history(), final(self).history()),
            match r {
                Ok(snapshots) => snapshots@.len() == plan.mutations@.len(),
                Err(_) => true,
            },
            forall|all: Seq<Event>| #[trigger]
                schedule::goes_on(final(self).history(), all) ==> schedule::reading_run(
                    plan@,
                    now,
                    Seq::empty(),
                    all,
                    old(self).history().len() as int,
                ) == match r {
                    Ok(snapshots) => schedule::naming_run(
                        plan@,
                        now,
                        snapshots_view(snapshots@),
                        MAX_IDENTITY_ATTEMPTS as nat,
                        all,
                        final(self).history().len() as int,
                    ),
                    Err(e) => PrepareEnd {
                        at: final(self).history().len() as int,
                        fits: true,
                        result: Err(e@),
                    },
                },
    {
        let mut snapshots: Vec<Snapshot> = Vec::new();
        let n: usize = plan.mutations.len();
        let mut i: usize = 0;
        assert(snapshots_view(snapshots@) =~= Seq::<SnapshotView>::empty());
        while i < n
            invariant
                i <= n,
                n == plan.mutations@.len(),
                forall|all: Seq<Event>| #[trigger]
                    schedule::goes_on(self.history(), all) ==> schedule::reading_run(
                        plan@,
                        now,
                        Seq::empty(),
                        all,
                        old(self).history().len() as int,
                    ) == schedule::reading_run(
                        plan@,
                        now,
                        snapshots_view(snapshots@),
                        all,
                        self.history().len() as int,
                    ),
                self.wf(),
                self.goes_on_from(old(self)),
                self.active() == old(self).active(),
                untouched(old(self).history(), self.history()),
                extends(old(self).history(), self.history()),
                snapshots@.len() == i,
            decreases n - i,
        {
            let mutation = &plan.mutations[i];
            let ghost h = self.history();
            let ghost views = snapshots_view(snapshots@);
            assert(plan@.mutations[i as int] == mutation@);
            let taken = self.take_snapshot(mutation, now);
            proof {
                assert forall|all: Seq<Event>| #[trigger]
                    schedule::goes_on(self.history(), all) implies schedule::goes_on(h, all) by {
                    lemma_goes_on(h, self.history(), all);
                }
            }
            match taken {
                Ok(snapshot) => {
                    match admit_snapshot(mutation, &snapshot) {
                        Ok(_) => {},
                        Err(error) => {
                            return Err(error);
                        },
                    }
                    snapshots.push(snapshot);
                    assert(snapshots_view(snapshots@) =~= views.push(snapshot@));
                },
                Err(error) => {
                    return Err(
                        contextual(error, Stage::Snapshot, None, Some(mutation.mutation_id)),
                    );
                },
            }
            i = i + 1;
        }
        Ok(snapshots)
    }

    /// Creates a record under one new identity; nothing is returned where it is
    /// taken already.
    fn try_identity(&mut self, plan: &Plan, now: Timestamp, snapshots: &Vec<Snapshot>) -> (r: Result<
        Option<SessionId>,
        SysboostError,
    >)
        requires
            old(self).wf(),
            snapshots@.len() == plan.mutations@.len(),
        ensures
            final(self).wf(),
            final(self).goes_on_from(old(self)),
            final(self).active() == old(self).active(),
            untouched(old(self).history(), final(self).history()),
            extends(old(self).history(), final(self).history()),
            forall|all: Seq<Event>, attempts: nat|
                #![trigger schedule::goes_on(final(self).history(), all), schedule::naming_run(
                    plan@,
                    now,
                    snapshots_view(snapshots@),
                    attempts,
                    all,
                    old(self).history().len() as int,
                )]
                attempts > 0 && schedule::goes_on(final(self).history(), all)
                    ==> schedule::naming_run(
                    plan@,
                    now,
                    snapshots_view(snapshots@),
                    attempts,
                    all,
                    old(self).history().len() as int,
                ) == match r {
                    Ok(Some(session_id)) => PrepareEnd {
                        at: final(self).history().len() as int,
                        fits: true,
                        result: Ok(session_id),
                    },
                    Ok(None) => schedule::naming_run(
                        plan@,
                        now,
                        snapshots_view(snapshots@),
                        (attempts - 1) as nat,
                        all,
                        final(self).history().len() as int,
                    ),
                    Err(e) => PrepareEnd {
                        at: final(self).history().len() as int,
                        fits: true,
                        result: Err(e@),
                    },
                },
    {
        let session_id = match self.next_id() {
            Ok(session_id) => session_id,
            Err(error) => {
                return Err(error.with_stage(Stage::DurableIntent));
            },
        };
        let record = prepared(session_id, plan, now, snapshots);
        match self.create(&record) {
            Ok(_) => Ok(Some(session_id)),
            Err(error) => {
                if error.code == ErrorCode::InvariantViolation {
                    Ok(None)
                } else {
                    Err(contextual(error, Stage::DurableIntent, Some(session_id), None))
                }
            },
        }
    }

    /// Creates a record under an identity that is not taken yet.
    fn allocate(&mut self, plan: &Plan, now: Timestamp, snapshots: &Vec<Snapshot>) -> (r: Result<
        SessionId,
        SysboostError,
    >)
        requires
            old(self).wf(),
            snapshots@.len() == plan.mutations@.len(),
        ensures
            final(self).wf(),
            final(self).goes_on_from(old(self)),
            final(self).active() == old(self).active(),
            untouched(old(self).history(), final(self).history()),
            extends(old(self).history(), final(self).history()),
            forall|all: Seq<Event>| #[trigger]
                schedule::goes_on(final(self).history(), all) ==> schedule::naming_run(
                    plan@,
                    now,
                    snapshots_view(snapshots@),
                    MAX_IDENTITY_ATTEMPTS as nat,
                    all,
                    old(self).history().len() as int,
                ) == (PrepareEnd {
                    at: final(self).history().len() as int,
                    fits: true,
                    result: crate::error::plain(r),
                }),
    {
        let ghost h0 = self.history();
        let ghost views = snapshots_view(snapshots@);
        let mut attempt: u32 = 0;
        while attempt < MAX_IDENTITY_ATTEMPTS
            invariant
                h0 == old(self).history(),
                views == snapshots_view(snapshots@),
                snapshots@.len() == plan.mutations@.len(),
                attempt <= MAX_IDENTITY_ATTEMPTS,
                self.wf(),
                self.goes_on_from(old(self)),
                self.active() == old(self).active(),
                untouched(h0, self.history()),
                extends(h0, self.history()),
                forall|all: Seq<Event>| #[trigger]
                    schedule::goes_on(self.history(), all) ==> schedule::naming_run(
                        plan@,
                        now,
                        views,
                        MAX_IDENTITY_ATTEMPTS as nat,
                        all,
                        h0.len() as int,
                    ) == schedule::naming_run(
                        plan@,
                        now,
                        views,
                        (MAX_IDENTITY_ATTEMPTS - attempt) as nat,
                        all,
                        self.history().len() as int,
                    ),
            decreases MAX_IDENTITY_ATTEMPTS - attempt,
        {
            let ghost h = self.history();
            let tried = self.try_identity(plan, now, snapshots);
            proof {
                assert forall|all: Seq<Event>| #[trigger]
                    schedule::goes_on(self.history(), all) implies schedule::goes_on(h, all) by {
                    lemma_goes_on(h, self.history(), all);
                }
            }
            match tried {
                Ok(Some(session_id)) => {
                    return Ok(session_id);
                },
                Ok(None) => {},
                Err(error) => {
                    return Err(error);
                },
            }
            attempt = attempt + 1;
        }
        Err(
            SysboostError::new(
                ErrorCode::InvariantViolation,
                "unable to allocate a unique boost session ID",
            ).with_stage(Stage::DurableIntent),
        )
    }

    /// Gets ready for a new session: takes the lock, and the time, where no session
    /// is unfinished.
    fn open(&mut self) -> (r: Result<(L::Guard, Timestamp), SysboostError>)
        requires
            old(self).wf(),
        ensures
            final(self).wf(),
            final(self).goes_on_from(old(self)),
            final(self).active() == old(self).active(),
            untouched(old(self).history(), final(self).history()),
            extends(old(self).history(), final(self).history()),
            forall|all: Seq<Event>| #[trigger]
                schedule::goes_on(final(self).history(), all) ==> schedule::opening_run(
                    all,
                    old(self).history().len() as int,
                ) == (OpeningEnd {
                    at: final(self).history().len() as int,
                    fits: true,
                    result: match r {
                        Ok(opened) => Ok(opened.1),
                        Err(e) => Err(e@),
                    },
                }),
    {
        let guard = match self.acquire() {
            Ok(guard) => guard,
            Err(error) => {
                return Err(
                    error.with_stage(Stage::DurableIntent).retryable(Retryability::Retry),
                );
            },
        };
        let unfinished = match self.load_unfinished() {
            Ok(records) => records,
            Err(error) => {
                return Err(error.with_stage(Stage::Recovery));
            },
        };
        assert(state::records_view(unfinished@).len() == unfinished@.len());
        if unfinished.len() > 0 {
            return Err(
                SysboostError::new(
                    ErrorCode::AuthorizationError,
                    "an unfinished session requires recovery before a new mutation",
                ).with_stage(Stage::Recovery).retryable(Retryability::AfterRecovery),
            );
        }
        match self.time() {
            Ok(now) => Ok((guard, now)),
            Err(error) => Err(error.with_stage(Stage::Detect)),
        }
    }

    /// Prepares a plan, whatever is done afterwards.
    pub(crate) fn prepare_plan(&mut self, plan: &Plan) -> (r: Result<SessionId, SysboostError>)
        requires
            old(self).wf(),
        ensures
            final(self).wf(),
            final(self).goes_on_from(old(self)),
            untouched(old(self).history(), final(self).history()),
            extends(old(self).history(), final(self).history()),
            final(self).active() == match r {
                Ok(session_id) => Some(session_id),
                Err(_) => old(self).active(),
            },
            forall|all: Seq<Event>| #[trigger]
                schedule::goes_on(final(self).history(), all) ==> schedule::prepare_run(
                    plan@,
                    old(self).active(),
                    all,
                    old(self).history().len() as int,
                ) == (PrepareEnd {
                    at: final(self).history().len() as int,
                    fits: true,
                    result: crate::error::plain(r),
                }),
    {
        proof {
            reveal(schedule::prepare_run);
        }
        if self.active.is_some() {
            return Err(
                SysboostError::new(
                    ErrorCode::AuthorizationError,
                    "this coordinator already owns a mutating session",
                ).retryable(Retryability::Retry),
            );
        }
        match plan.validate_complete() {
            Ok(_) => {},
            Err(error) => {
                return Err(error);
            },
        }
        assert(plan@.mutations.len() == plan.mutations@.len());
        if plan.mutations.len() == 0 {
            return Err(
                SysboostError::new(
                    ErrorCode::AuthorizationError,
                    "a report-only or no-op plan cannot enter the mutation engine",
                ).with_stage(Stage::Plan),
            );
        }
        let (guard, now) = match self.open() {
            Ok(opened) => opened,
            Err(error) => {
                return Err(error);
            },
        };
        let ghost opened = self.history();
        let snapshots = match self.take_snapshots(plan, now) {
            Ok(snapshots) => snapshots,
            Err(error) => {
                proof {
                    assert forall|all: Seq<Event>| #[trigger]
                        schedule::goes_on(self.history(), all) implies schedule::goes_on(
                        opened,
                        all,
                    ) by {
                        lemma_goes_on(opened, self.history(), all);
                    }
                }
                return Err(error);
            },
        };
        let ghost read = self.history();
        let named = self.allocate(plan, now, &snapshots);
        proof {
            assert forall|all: Seq<Event>| #[trigger]
                schedule::goes_on(self.history(), all) implies schedule::goes_on(opened, all)
                && schedule::goes_on(read, all) by {
                lemma_goes_on(read, self.history(), all);
                lemma_goes_on(opened, read, all);
            }
        }
        match named {
            Ok(session_id) => {
                self.active = Some(ActiveLease { session_id, guard });
                Ok(session_id)
            },
            Err(error) => Err(error),
        }
    }

    /// Reads every target of a plan and makes the intent to change them
    /// durable. Nothing is changed. An identity that is taken already is
    /// replaced by the next.
    pub fn prepare(&mut self, plan: &Plan) -> (r: Result<SessionId, SysboostError>)
        requires
            old(self).wf(),
        ensures
            final(self).wf(),
            final(self).goes_on_from(old(self)),
            final(self).came_from(old(self).history().len() as int, old(self).world()),
            untouched(old(self).history(), final(self).history()),
            extends(old(self).history(), final(self).history()),
            final(self).active() == match r {
                Ok(session_id) => Some(session_id),
                Err(_) => old(self).active(),
            },
            schedule::prepare_run(
                plan@,
                old(self).active(),
                final(self).history(),
                old(self).history().len() as int,
            ) == (PrepareEnd {
                at: final(self).history().len() as int,
                fits: true,
                result: crate::error::plain(r),
            }),
    {
        proof {
            self.stands_here();
        }
        let r = self.prepare_plan(plan);
        assert(schedule::goes_on(self.history(), self.history()));
        r
    }
}

/// Where a session stands, by the answer to the question for its record.
pub open spec fn stands(session_id: SessionId, reply: Result<RecordView, ErrorView>) -> Result<
    TransactionStatus,
    ErrorView,
> {
    match reply {
        Ok(record) => Ok(TransactionStatus { session_id, state: record.state }),
        Err(error) => Err(in_context(error, Stage::Recovery, Some(session_id), None)),
    }
}

/// Where a session stands, by the answer to the question for its record.
pub fn status_of(session_id: SessionId, reply: Result<SessionRecord, SysboostError>) -> (r: Result<
    TransactionStatus,
    SysboostError,
>)
    ensures
        crate::error::plain(r) == stands(session_id, crate::error::viewed(reply)),
{
    match reply {
        Ok(record) => Ok(TransactionStatus { session_id, state: record.state }),
        Err(error) => Err(contextual(error, Stage::Recovery, Some(session_id), None)),
    }
}

/// Whether a record is a durable intent of which nothing was applied.
pub open spec fn unapplied(record: RecordView) -> bool {
    &&& record.state == SessionState::IntentDurable
    &&& forall|i: int|
        0 <= i < record.operations.len() ==> (#[trigger] record.operations[i]).state
            == OperationState::IntentRecorded
}

fn is_unapplied(record: &SessionRecord) -> (r: bool)
    ensures
        r == unapplied(record@),
{
    let ghost all = record@.operations;
    if record.state != SessionState::IntentDurable {
        return false;
    }
    let mut i: usize = 0;
    while i < record.operations.len()
        invariant
            i <= record.operations.len(),
            all == record@.operations,
            forall|j: int| 0 <= j < i ==> (#[trigger] all[j]).state == OperationState::IntentRecorded,
        decreases record.operations.len() - i,
    {
        assert(all[i as int] == record.operations@[i as int]@);
        if record.operations[i].state != OperationState::IntentRecorded {
            return false;
        }
        i = i + 1;
    }
    true
}

/// Which error an answer gives while a prepared session is being dropped.
pub open spec fn abort_error(e: Event, session_id: SessionId) -> ErrorView {
    match e {
        Event::Load { reply: Err(error), .. } => in_context(
            error,
            Stage::Recovery,
            Some(session_id),
            None,
        ),
        Event::Remove { reply: Err(error), .. } => in_context(
            error,
            Stage::DurableIntent,
            Some(session_id),
            None,
        ),
        _ => session_error(
            ErrorCode::InvariantViolation,
            "only an unapplied durable intent can be aborted"@,
            Stage::DurableIntent,
            session_id,
            None,
        ),
    }
}

impl<B, S, L, G, C> TransactionEngine<B, S, L, G, C> where
    B: MutationBackend,
    S: SessionStateStore,
    L: ExclusiveSessionLock,
    G: SessionIdSource,
    C: Clock,
 {
    /// Drops a prepared session before anything was applied. Nothing else can be
    /// dropped: only a durable intent of which every change is still intended.
    pub fn abort_prepared(&mut self, session_id: SessionId) -> (r: Result<(), SysboostError>)
        requires
            old(self).wf(),
        ensures
            final(self).wf(),
            final(self).goes_on_from(old(self)),
            final(self).came_from(old(self).history().len() as int, old(self).world()),
            untouched(old(self).history(), final(self).history()),
            extends(old(self).history(), final(self).history()),
            schedule::abort_request(
                session_id,
                old(self).active(),
                final(self).history(),
                old(self).history().len() as int,
            ) == (AbortEnd {
                at: final(self).history().len() as int,
                fits: true,
                result: crate::error::plain(r),
                holds: final(self).active(),
            }),
    {
        proof {
            self.stands_here();
        }
        match self.require_active(session_id) {
            Ok(_) => {},
            Err(error) => {
                return Err(error);
            },
        }
        let record = match self.load(session_id) {
            Ok(record) => record,
            Err(error) => {
                return Err(contextual(error, Stage::Recovery, Some(session_id), None));
            },
        };
        if !is_unapplied(&record) {
            return Err(
                fault(
                    ErrorCode::InvariantViolation,
                    "only an unapplied durable intent can be aborted",
                    Stage::DurableIntent,
                    session_id,
                    None,
                ),
            );
        }
        match self.remove(session_id) {
            Ok(_) => {},
            Err(error) => {
                return Err(contextual(error, Stage::DurableIntent, Some(session_id), None));
            },
        }
        self.active = None;
        Ok(())
    }

    /// Where a session stands, by its durable record. It gives no authority to
    /// change anything.
    pub fn status(&self, session_id: SessionId) -> (r: Result<TransactionStatus, SysboostError>)
        ensures
            exists|reply: Result<RecordView, ErrorView>| #[trigger]
                self.held_store().may_load(session_id, reply) && crate::error::plain(r)
                    == stands(session_id, reply),
    {
        let reply = self.state_store.load(session_id);
        assert(self.held_store().may_load(session_id, crate::error::viewed(reply)));
        status_of(session_id, reply)
    }
}

/// What is handed to a backend to restore a change: the snapshot that was taken
/// before it, and what applying it left.
pub open spec fn call_of(operation: OperationView) -> RestoreCall {
    RestoreCall {
        mutation: operation.mutation,
        snapshot: operation.snapshot->0,
        ownership: operation.apply_receipt->0.ownership_fingerprint,
    }
}

/// Whether a change was applied, with a receipt, and not proven restored.
pub open spec fn restorable(operation: OperationView) -> bool {
    operation.state != OperationState::Restored && operation.apply_receipt is Some
        && operation.snapshot is Some
}

/// Whether it is not known what a change did: it may have been applied without a
/// receipt, or was applied without a snapshot.
pub open spec fn stuck(operation: OperationView) -> bool {
    operation.state != OperationState::Restored && ((operation.state == OperationState::Applying
        && operation.apply_receipt is None) || (operation.apply_receipt is Some
        && operation.snapshot is None))
}

pub open spec fn any_stuck(operations: Seq<OperationView>) -> bool {
    exists|i: int| 0 <= i < operations.len() && stuck(#[trigger] operations[i])
}

/// Whether two states of one change rest on the same evidence.
pub open spec fn same_evidence(a: OperationView, b: OperationView) -> bool {
    a.mutation == b.mutation && a.snapshot == b.snapshot && a.apply_receipt == b.apply_receipt
        && a.verification == b.verification
}

/// Whether the evidence for every change is as it was.
pub open spec fn evidence_kept(before: Seq<OperationView>, after: Seq<OperationView>) -> bool {
    &&& before.len() == after.len()
    &&& forall|i: int| 0 <= i < before.len() ==> same_evidence(before[i], #[trigger] after[i])
}

/// Whether these are positions of restorable changes from the last to the first.
pub open spec fn backwards(order: Seq<int>, operations: Seq<OperationView>) -> bool {
    &&& forall|k: int|
        0 <= k < order.len() ==> 0 <= #[trigger] order[k] < operations.len() && restorable(
            operations[order[k]],
        )
    &&& forall|k: int, l: int|
        0 <= k < l < order.len() ==> #[trigger] order[k] > #[trigger] order[l]
}

/// The calls that restore the changes at the given positions.
pub open spec fn calls(operations: Seq<OperationView>, order: Seq<int>) -> Seq<RestoreCall> {
    order.map_values(|k: int| call_of(operations[k]))
}

/// Whether what was restored are changes of a session, each at most once and
/// from the last to the first, each with its own snapshot and receipt.
pub open spec fn restored_backwards(
    before: Seq<Event>,
    after: Seq<Event>,
    operations: Seq<OperationView>,
) -> bool {
    exists|order: Seq<int>| #[trigger]
        backwards(order, operations) && restores(after) == restores(before) + calls(
            operations,
            order,
        )
}

/// Errors as plain values.
pub open spec fn errors_view(errors: Seq<SysboostError>) -> Seq<ErrorView> {
    errors.map_values(|error: SysboostError| error@)
}

/// Adds an error to those before it.
fn push_error(errors: &mut Vec<SysboostError>, error: SysboostError)
    ensures
        final(errors)@ == old(errors)@.push(error),
        errors_view(final(errors)@) == errors_view(old(errors)@).push(error@),
{
    errors.push(error);
    assert(errors_view(errors@) =~= errors_view(old(errors)@).push(error@));
}

pub(crate) proof fn lemma_goes_on(before: Seq<Event>, after: Seq<Event>, all: Seq<Event>)
    requires
        extends(before, after),
        schedule::goes_on(after, all),
    ensures
        schedule::goes_on(before, all),
{
    assert forall|i: int| #![trigger all[i]] 0 <= i < before.len() implies all[i] == before[i] by {
        assert(after[i] == before[i]);
    }
}

/// The states in which a restoration can be completed.
pub open spec fn finishable(state: SessionState) -> bool {
    state == SessionState::Restoring || state == SessionState::RollingBack || state
        == SessionState::Restored
}

impl<B, S, L, G, C> TransactionEngine<B, S, L, G, C> where
    B: MutationBackend,
    S: SessionStateStore,
    L: ExclusiveSessionLock,
    G: SessionIdSource,
    C: Clock,
 {
    /// Restores one change, if it was applied. Failures are added to those of
    /// the changes after it; the result says whether something is uncertain by
    /// now.
    #[verifier::rlimit(40)]
    fn restore_operation(
        &mut self,
        record: &mut SessionRecord,
        index: usize,
        failures: &mut Vec<SysboostError>,
        doubt: bool,
    ) -> (uncertain: bool)
        requires
            old(self).wf(),
            index < old(record).operations@.len(),
        ensures
            final(self).wf(),
            final(self).goes_on_from(old(self)),
            final(self).active() == old(self).active(),
            extends(old(self).history(), final(self).history()),
            applied(final(self).history()) == applied(old(self).history()),
            restores(final(self).history()) == restores(old(self).history()) || (restorable(
                old(record)@.operations[index as int],
            ) && restores(final(self).history()) == restores(old(self).history()).push(
                call_of(old(record)@.operations[index as int]),
            )),
            final(record)@ == (RecordView {
                operations: final(record)@.operations,
                failures: final(record)@.failures,
                ..old(record)@
            }),
            final(record)@.operations == old(record)@.operations.update(
                index as int,
                final(record)@.operations[index as int],
            ),
            same_evidence(
                old(record)@.operations[index as int],
                final(record)@.operations[index as int],
            ),
            final(failures)@.len() >= old(failures)@.len(),
            final(failures)@.len() == old(failures)@.len() ==> session::undone(
                final(record)@.operations[index as int],
            ),
            uncertain ==> doubt || final(failures)@.len() > old(failures)@.len(),
            final(failures)@.len() > old(failures)@.len() ==> setbacks(final(self).history())
                > setbacks(old(self).history()) || stuck(old(record)@.operations[index as int]),
            forall|all: Seq<Event>| #[trigger]
                schedule::goes_on(final(self).history(), all) ==> schedule::restore_step(
                    Restoration {
                        at: old(self).history().len() as int,
                        fits: true,
                        record: old(record)@,
                        failures: errors_view(old(failures)@),
                        uncertain: doubt,
                    },
                    index as int,
                    all,
                ) == (Restoration {
                    at: final(self).history().len() as int,
                    fits: true,
                    record: final(record)@,
                    failures: errors_view(final(failures)@),
                    uncertain,
                }),
    {
        proof {
            reveal(schedule::restore_step);
        }
        let ghost before = record@;
        let ghost op = record@.operations[index as int];
        assert(op == record.operations@[index as int]@);
        let session_id = record.session_id;
        let mutation_id = record.operations[index].mutation.mutation_id;
        let state = record.operations[index].state;
        if state == OperationState::Restored {
            assert(record@.operations =~= before.operations.update(index as int, op));
            return doubt;
        }
        let ownership = match &record.operations[index].apply_receipt {
            Some(receipt) => receipt.ownership_fingerprint,
            None => {
                let mut uncertain = doubt;
                if state == OperationState::Applying {
                    let error = fault(
                        ErrorCode::JournalCorrupt,
                        "operation may have applied before its receipt became durable",
                        Stage::Recovery,
                        session_id,
                        Some(mutation_id),
                    );
                    record.record_failure(&error);
                    push_error(failures, error);
                    uncertain = true;
                }
                assert(record@.operations =~= before.operations.update(index as int, op));
                return uncertain;
            },
        };
        let mutation = record.operations[index].mutation.clone();
        let snapshot = match &record.operations[index].snapshot {
            Some(snapshot) => snapshot.clone(),
            None => {
                let error = fault(
                    ErrorCode::InvariantViolation,
                    "applied operation is missing its original snapshot",
                    Stage::Restore,
                    session_id,
                    Some(mutation_id),
                );
                record.record_failure(&error);
                push_error(failures, error);
                assert(record@.operations =~= before.operations.update(index as int, op));
                return true;
            },
        };
        let mut uncertain = doubt;
        record.begin_restore_operation(index);
        assert(record.operations@.len() == record@.operations.len());
        if let Err(error) = self.persist(record, Stage::Restore) {
            record.record_failure(&error);
            push_error(failures, error);
            uncertain = true;
        }
        let observed = match self.read_back(
            &mutation,
            snapshot.original_fingerprint,
            snapshot.target_identity,
            Some(ownership),
        ) {
            Ok(observed) => observed,
            Err(error) => {
                let error = contextual(error, Stage::Restore, Some(session_id), Some(mutation_id));
                record.fail_restore(index, &error);
                let _ = self.persist(record, Stage::Restore);
                push_error(failures, error);
                return uncertain;
            },
        };
        match decide_restore(observed, snapshot.original_fingerprint, ownership) {
            RestoreDecision::AlreadyOriginal => {
                record.record_restore(
                    index,
                    RestoreReceipt { mutation_id, restored_fingerprint: observed, verified: true },
                );
                if let Err(error) = self.persist(record, Stage::Restore) {
                    record.record_failure(&error);
                    push_error(failures, error);
                    uncertain = true;
                }
            },
            RestoreDecision::Conflict => {
                let error = fault(
                    ErrorCode::RestoreConflict,
                    "target changed outside the session; compare-and-restore refused to overwrite it",
                    Stage::Restore,
                    session_id,
                    Some(mutation_id),
                );
                record.fail_restore(index, &error);
                let _ = self.persist(record, Stage::Restore);
                push_error(failures, error);
            },
            RestoreDecision::Write => {
                match self.run_restore(&mutation, &snapshot, ownership) {
                    Ok(receipt) => {
                        if accept_restore(&mutation, &snapshot, &receipt) {
                            record.record_restore(index, receipt);
                            if let Err(error) = self.persist(record, Stage::Restore) {
                                record.record_failure(&error);
                                push_error(failures, error);
                                uncertain = true;
                            }
                        } else {
                            let error = fault(
                                ErrorCode::RestoreError,
                                "backend restore did not prove the original fingerprint",
                                Stage::Restore,
                                session_id,
                                Some(mutation_id),
                            );
                            record.fail_restore(index, &error);
                            let _ = self.persist(record, Stage::Restore);
                            push_error(failures, error);
                        }
                    },
                    Err(error) => {
                        let error = contextual(
                            error,
                            Stage::Restore,
                            Some(session_id),
                            Some(mutation_id),
                        );
                        record.fail_restore(index, &error);
                        let _ = self.persist(record, Stage::Restore);
                        push_error(failures, error);
                    },
                }
            },
        }
        uncertain
    }
}

/// The states from which a restoration can be started or resumed.
pub open spec fn restartable(state: SessionState) -> bool {
    match state {
        SessionState::New | SessionState::Detected | SessionState::Planned
        | SessionState::Snapshotted => false,
        _ => true,
    }
}

/// A record on its way to restoration, or why it cannot go there.
pub open spec fn restore_started(record: RecordView, now: Timestamp) -> Result<
    RecordView,
    ErrorView,
> {
    match record.state {
        SessionState::Active => Ok(
            record.stepped(SessionState::Restoring, now, "normal restore started"@),
        ),
        SessionState::Degraded => Ok(
            record.stepped(
                SessionState::RecoveryPending,
                now,
                "retrying degraded restore"@,
            ).stepped(SessionState::Restoring, now, "recovery restore started"@),
        ),
        SessionState::RecoveryPending => Ok(
            record.stepped(SessionState::Restoring, now, "recovery restore resumed"@),
        ),
        SessionState::IntentDurable | SessionState::Applying => Ok(
            record.stepped(SessionState::RollingBack, now, "rollback/recovery started"@),
        ),
        SessionState::RollingBack | SessionState::Restoring | SessionState::Restored => Ok(record),
        _ => Err(
            session_error(
                ErrorCode::InvariantViolation,
                "restore is not legal from durable state "@ + session::state_text(record.state),
                Stage::Restore,
                record.session_id,
                None,
            ),
        ),
    }
}

/// Puts a record on its way to restoration.
pub fn start_restore(record: &mut SessionRecord, now: Timestamp) -> (r: Result<(), SysboostError>)
    ensures
        match r {
            Ok(_) => restore_started(old(record)@, now) == Ok::<RecordView, ErrorView>(
                final(record)@,
            ),
            Err(e) => restore_started(old(record)@, now) == Err::<RecordView, ErrorView>(e@)
                && final(record)@ == old(record)@,
        },
{
    match record.state {
        SessionState::Active => {
            record.transition(SessionState::Restoring, now, "normal restore started")
        },
        SessionState::Degraded => {
            let _ = record.transition(
                SessionState::RecoveryPending,
                now,
                "retrying degraded restore",
            );
            record.transition(SessionState::Restoring, now, "recovery restore started")
        },
        SessionState::RecoveryPending => {
            record.transition(SessionState::Restoring, now, "recovery restore resumed")
        },
        SessionState::IntentDurable | SessionState::Applying => {
            record.transition(SessionState::RollingBack, now, "rollback/recovery started")
        },
        SessionState::RollingBack | SessionState::Restoring | SessionState::Restored => Ok(()),
        state => {
            let mut message = "restore is not legal from durable state ".to_string();
            message.append(state.as_text());
            Err(
                fault(
                    ErrorCode::InvariantViolation,
                    message.as_str(),
                    Stage::Restore,
                    record.session_id,
                    None,
                ),
            )
        },
    }
}

/// A record after a restoration that could not be proven.
pub open spec fn unproven(
    record: RecordView,
    uncertain: bool,
    now: Timestamp,
) -> Result<RecordView, ErrorView> {
    let degraded = if record.state == SessionState::Restoring || record.state
        == SessionState::RollingBack {
        record.stepped(SessionState::Degraded, now, "one or more originals remain unproven"@)
    } else {
        record
    };
    if !uncertain {
        Ok(degraded)
    } else if degraded.state == SessionState::Degraded {
        Ok(
            degraded.stepped(
                SessionState::RecoveryPending,
                now,
                "crash or durability boundary left recovery uncertain"@,
            ),
        )
    } else {
        Err(session::illegal_step())
    }
}

/// Marks a record whose restoration could not be proven.
pub fn mark_unproven(record: &mut SessionRecord, uncertain: bool, now: Timestamp) -> (r: Result<
    (),
    SysboostError,
>)
    ensures
        match r {
            Ok(_) => unproven(old(record)@, uncertain, now) == Ok::<RecordView, ErrorView>(
                final(record)@,
            ),
            Err(e) => unproven(old(record)@, uncertain, now) == Err::<RecordView, ErrorView>(e@)
                && final(record)@ == old(record)@,
        },
        final(record)@.operations == old(record)@.operations,
        final(record)@.session_id == old(record)@.session_id,
{
    if record.state == SessionState::Restoring || record.state == SessionState::RollingBack {
        let _ = record.transition(
            SessionState::Degraded,
            now,
            "one or more originals remain unproven",
        );
    }
    if uncertain {
        return record.transition(
            SessionState::RecoveryPending,
            now,
            "crash or durability boundary left recovery uncertain",
        );
    }
    Ok(())
}

/// Notes all failures in a record.
fn record_failures(record: &mut SessionRecord, failures: &Vec<SysboostError>)
    ensures
        final(record)@ == schedule::with_failures(old(record)@, errors_view(failures@)),
        final(record)@ == (RecordView { failures: final(record)@.failures, ..old(record)@ }),
{
    let ghost all = errors_view(failures@);
    let n: usize = failures.len();
    let mut i: usize = 0;
    while i < n
        invariant
            i <= n,
            n == failures@.len(),
            all == errors_view(failures@),
            record@ == schedule::with_failures(old(record)@, all.take(i as int)),
            record@ == (RecordView { failures: record@.failures, ..old(record)@ }),
        decreases n - i,
    {
        assert(all.take(i + 1).drop_last() =~= all.take(i as int));
        assert(all[i as int] == failures@[i as int]@);
        record.record_failure(&failures[i]);
        i = i + 1;
    }
    assert(all.take(n as int) =~= all);
}

impl<B, S, L, G, C> TransactionEngine<B, S, L, G, C> where
    B: MutationBackend,
    S: SessionStateStore,
    L: ExclusiveSessionLock,
    G: SessionIdSource,
    C: Clock,
 {
    /// Puts a record on its way to restoration, durably.
    fn prepare_restore_state(&mut self, record: &mut SessionRecord) -> (r: Result<
        (),
        SysboostError,
    >)
        requires
            old(self).wf(),
        ensures
            final(self).wf(),
            final(self).goes_on_from(old(self)),
            final(self).active() == old(self).active(),
            untouched(old(self).history(), final(self).history()),
            extends(old(self).history(), final(self).history()),
            final(record)@.session_id == old(record)@.session_id,
            final(record)@.operations == old(record)@.operations,
            r is Ok ==> finishable(final(record)@.state),
            r is Err ==> setbacks(final(self).history()) > setbacks(old(self).history())
                || !restartable(old(record)@.state),
            forall|all: Seq<Event>| #[trigger]
                schedule::goes_on(final(self).history(), all) ==> schedule::resume_run(
                    old(record)@,
                    all,
                    old(self).history().len() as int,
                ) == match r {
                    Ok(_) => schedule::restore_run(
                        final(record)@,
                        all,
                        final(self).history().len() as int,
                    ),
                    Err(e) => RestoreEnd {
                        at: final(self).history().len() as int,
                        fits: true,
                        record: final(record)@,
                        result: Err(e@),
                    },
                },
    {
        proof {
            reveal(schedule::resume_run);
        }
        let now = match self.time() {
            Ok(now) => now,
            Err(error) => {
                return Err(error.with_stage(Stage::Restore));
            },
        };
        match start_restore(record, now) {
            Ok(_) => {},
            Err(error) => {
                return Err(error);
            },
        }
        if record.state == SessionState::Restored {
            return Ok(());
        }
        self.persist(record, Stage::Restore)
    }

    /// Ends a restoration: the session is restored once the record that says so is
    /// kept, unless something failed.
    fn finish_restore(
        &mut self,
        record: &mut SessionRecord,
        failures: &Vec<SysboostError>,
        uncertain: bool,
        now: Timestamp,
    ) -> (r: Result<SessionState, SysboostError>)
        requires
            old(self).wf(),
            uncertain ==> failures@.len() > 0,
            failures@.len() == 0 ==> session::all_undone(old(record)@.operations),
        ensures
            final(self).wf(),
            final(self).goes_on_from(old(self)),
            untouched(old(self).history(), final(self).history()),
            extends(old(self).history(), final(self).history()),
            final(record)@.session_id == old(record)@.session_id,
            final(record)@.operations == old(record)@.operations,
            match r {
                Ok(state) => {
                    &&& state == SessionState::Restored
                    &&& failures@.len() == 0
                    &&& final(record)@.state == SessionState::Restored
                    &&& final(self).history().len() > old(self).history().len()
                    &&& final(self).history().last() == (Event::Replace {
                        record: final(record)@,
                        reply: Ok(()),
                    })
                    &&& final(self).active() == released(
                        old(self).active(),
                        old(record)@.session_id,
                    )
                },
                Err(_) => {
                    &&& final(self).active() == old(self).active()
                    &&& failures@.len() > 0 || setbacks(final(self).history()) > setbacks(
                        old(self).history(),
                    ) || !finishable(old(record)@.state)
                },
            },
            forall|all: Seq<Event>| #[trigger]
                schedule::goes_on(final(self).history(), all) ==> schedule::restore_finished(
                    Restoration {
                        at: old(self).history().len() as int,
                        fits: true,
                        record: old(record)@,
                        failures: errors_view(failures@),
                        uncertain,
                    },
                    now,
                    all,
                ) == (RestoreEnd {
                    at: final(self).history().len() as int,
                    fits: true,
                    record: final(record)@,
                    result: crate::error::plain(r),
                }),
    {
        proof {
            reveal(schedule::restore_finished);
        }
        let session_id = record.session_id;
        if failures.len() == 0 && record.restoration_proven() && !uncertain {
            if record.state != SessionState::Restored {
                match record.transition(
                    SessionState::Restored,
                    now,
                    "all captured originals verified",
                ) {
                    Ok(_) => {},
                    Err(error) => {
                        return Err(error);
                    },
                }
            }
            match self.persist(record, Stage::Restore) {
                Ok(_) => {},
                Err(error) => {
                    return Err(error);
                },
            }
            self.release_if_restored(session_id);
            return Ok(SessionState::Restored);
        }
        assert(failures@.len() > 0);
        record_failures(record, failures);
        match mark_unproven(record, uncertain, now) {
            Ok(_) => {},
            Err(error) => {
                return Err(error);
            },
        }
        let _ = self.persist(record, Stage::Recovery);
        let failure = failures[0].clone();
        assert(errors_view(failures@)[0] == failures@[0]@);
        Err(failure)
    }

    /// Restores the changes of a session from the last to the first.
    ///
    /// Only a change with a receipt is restored, and only while its target holds
    /// what the session left there. The session counts as restored when every
    /// change is proven undone and the record that says so is durable.
    fn restore_record(&mut self, record: &mut SessionRecord) -> (r: Result<
        SessionState,
        SysboostError,
    >)
        requires
            old(self).wf(),
        ensures
            final(self).wf(),
            final(self).goes_on_from(old(self)),
            extends(old(self).history(), final(self).history()),
            applied(final(self).history()) == applied(old(self).history()),
            restored_backwards(
                old(self).history(),
                final(self).history(),
                old(record)@.operations,
            ),
            final(record)@.session_id == old(record)@.session_id,
            evidence_kept(old(record)@.operations, final(record)@.operations),
            match r {
                Ok(state) => {
                    &&& state == SessionState::Restored
                    &&& final(record)@.state == SessionState::Restored
                    &&& session::all_undone(final(record)@.operations)
                    &&& final(self).history().len() > old(self).history().len()
                    &&& final(self).history().last() == (Event::Replace {
                        record: final(record)@,
                        reply: Ok(()),
                    })
                    &&& final(self).active() == released(
                        old(self).active(),
                        old(record)@.session_id,
                    )
                },
                Err(_) => {
                    &&& final(self).active() == old(self).active()
                    &&& setbacks(final(self).history()) > setbacks(old(self).history())
                        || any_stuck(old(record)@.operations) || !finishable(old(record)@.state)
                },
            },
            forall|all: Seq<Event>| #[trigger]
                schedule::goes_on(final(self).history(), all) ==> schedule::restore_run(
                    old(record)@,
                    all,
                    old(self).history().len() as int,
                ) == (RestoreEnd {
                    at: final(self).history().len() as int,
                    fits: true,
                    record: final(record)@,
                    result: crate::error::plain(r),
                }),
    {
        proof {
            reveal(schedule::restore_run);
        }
        let session_id = record.session_id;
        let mut failures: Vec<SysboostError> = Vec::new();
        let mut uncertain = false;
        let now = match self.time() {
            Ok(now) => now,
            Err(_) => Timestamp::from_unix_millis(0),
        };
        let ghost timed = self.history();
        let ghost ops = record@.operations;
        let ghost begun = Restoration {
            at: self.history().len() as int,
            fits: true,
            record: record@,
            failures: Seq::empty(),
            uncertain: false,
        };
        assert(errors_view(failures@) =~= Seq::empty());
        let ghost mut order: Seq<int> = Seq::empty();
        let n: usize = record.operations.len();
        let mut index: usize = n;
        proof {
            assert(restores(self.history()) + calls(ops, order) =~= restores(self.history()));
        }
        while index > 0
            invariant
                index <= n,
                n == ops.len(),
                ops == old(record)@.operations,
                self.wf(),
                self.goes_on_from(old(self)),
                self.active() == old(self).active(),
                extends(old(self).history(), self.history()),
                extends(timed, self.history()),
                applied(self.history()) == applied(old(self).history()),
                record.operations@.len() == n,
                record@.operations.len() == n,
                record@.session_id == session_id,
                record@.state == old(record)@.state,
                session_id == old(record)@.session_id,
                forall|i: int| 0 <= i < index ==> #[trigger] record@.operations[i] == ops[i],
                evidence_kept(ops, record@.operations),
                backwards(order, ops),
                forall|k: int| 0 <= k < order.len() ==> #[trigger] order[k] >= index,
                restores(self.history()) == restores(old(self).history()) + calls(ops, order),
                uncertain ==> failures@.len() > 0,
                failures@.len() == 0 ==> forall|i: int|
                    index <= i < n ==> session::undone(#[trigger] record@.operations[i]),
                failures@.len() > 0 ==> setbacks(self.history()) > setbacks(old(self).history())
                    || any_stuck(ops),
                forall|all: Seq<Event>| #[trigger]
                    schedule::goes_on(self.history(), all) ==> schedule::restore_down(
                        begun,
                        n as int,
                        index as int,
                        all,
                    ) == (Restoration {
                        at: self.history().len() as int,
                        fits: true,
                        record: record@,
                        failures: errors_view(failures@),
                        uncertain,
                    }),
            decreases index,
        {
            index = index - 1;
            let ghost h = self.history();
            let ghost op = record@.operations[index as int];
            assert(op == ops[index as int]);
            uncertain = self.restore_operation(record, index, &mut failures, uncertain);
            assert(record@.operations.len() == n);
            assert(record.operations@.len() == record@.operations.len());
            proof {
                assert(calls(ops, order.push(index as int)) =~= calls(ops, order).push(
                    call_of(op),
                ));
                if restores(self.history()) != restores(h) {
                    assert(restores(self.history()) =~= restores(old(self).history()) + calls(
                        ops,
                        order.push(index as int),
                    ));
                    order = order.push(index as int);
                }
                assert forall|all: Seq<Event>| #[trigger]
                    schedule::goes_on(self.history(), all) implies schedule::restore_down(
                    begun,
                    n as int,
                    index as int,
                    all,
                ) == (Restoration {
                    at: self.history().len() as int,
                    fits: true,
                    record: record@,
                    failures: errors_view(failures@),
                    uncertain,
                }) by {
                    lemma_goes_on(h, self.history(), all);
                }
            }
        }
        let ghost h = self.history();
        let ghost left = Restoration {
            at: h.len() as int,
            fits: true,
            record: record@,
            failures: errors_view(failures@),
            uncertain,
        };
        let r = self.finish_restore(record, &failures, uncertain, now);
        proof {
            assert forall|all: Seq<Event>| #[trigger]
                schedule::goes_on(self.history(), all) implies schedule::restore_run(
                old(record)@,
                all,
                old(self).history().len() as int,
            ) == (RestoreEnd {
                at: self.history().len() as int,
                fits: true,
                record: record@,
                result: crate::error::plain(r),
            }) by {
                lemma_goes_on(h, self.history(), all);
                lemma_goes_on(timed, h, all);
                assert(all[old(self).history().len() as int] == timed.last());
                assert(schedule::restore_down(begun, n as int, 0, all) == left);
            }
        }
        r
    }
}

impl<B, S, L, G, C> TransactionEngine<B, S, L, G, C> where
    B: MutationBackend,
    S: SessionStateStore,
    L: ExclusiveSessionLock,
    G: SessionIdSource,
    C: Clock,
 {
    /// Puts a record on its way to restoration, durably, and restores it.
    fn resume(&mut self, record: &mut SessionRecord) -> (r: Result<SessionState, SysboostError>)
        requires
            old(self).wf(),
        ensures
            final(self).wf(),
            final(self).goes_on_from(old(self)),
            extends(old(self).history(), final(self).history()),
            applied(final(self).history()) == applied(old(self).history()),
            restored_backwards(
                old(self).history(),
                final(self).history(),
                old(record)@.operations,
            ),
            match r {
                Ok(state) => {
                    &&& state == SessionState::Restored
                    &&& final(record)@.session_id == old(record)@.session_id
                    &&& final(record)@.state == SessionState::Restored
                    &&& evidence_kept(old(record)@.operations, final(record)@.operations)
                    &&& session::all_undone(final(record)@.operations)
                    &&& final(self).history().len() > old(self).history().len()
                    &&& final(self).history().last() == (Event::Replace {
                        record: final(record)@,
                        reply: Ok(()),
                    })
                    &&& final(self).active() == released(
                        old(self).active(),
                        old(record)@.session_id,
                    )
                },
                Err(_) => {
                    &&& final(self).active() == old(self).active()
                    &&& setbacks(final(self).history()) > setbacks(old(self).history())
                        || any_stuck(old(record)@.operations) || !restartable(old(record)@.state)
                },
            },
            forall|all: Seq<Event>| #[trigger]
                schedule::goes_on(final(self).history(), all) ==> schedule::resume_run(
                    old(record)@,
                    all,
                    old(self).history().len() as int,
                ) == (RestoreEnd {
                    at: final(self).history().len() as int,
                    fits: true,
                    record: final(record)@,
                    result: crate::error::plain(r),
                }),
    {
        match self.prepare_restore_state(record) {
            Ok(_) => {},
            Err(error) => {
                proof {
                    lemma_nothing_restored(
                        old(self).history(),
                        self.history(),
                        old(record)@.operations,
                    );
                }
                return Err(error);
            },
        }
        let ghost started = self.history();
        let r = self.restore_record(record);
        proof {
            assert forall|all: Seq<Event>| #[trigger]
                schedule::goes_on(self.history(), all) implies schedule::resume_run(
                old(record)@,
                all,
                old(self).history().len() as int,
            ) == (RestoreEnd {
                at: self.history().len() as int,
                fits: true,
                record: record@,
                result: crate::error::plain(r),
            }) by {
                lemma_goes_on(started, self.history(), all);
            }
        }
        r
    }
}

/// A record of which an apply failed.
pub open spec fn rollback_started(record: RecordView, now: Timestamp) -> RecordView {
    match record.state {
        SessionState::Applying | SessionState::IntentDurable => record.stepped(
            SessionState::RollingBack,
            now,
            "apply failure triggered reverse rollback"@,
        ),
        SessionState::Active => record.stepped(
            SessionState::Restoring,
            now,
            "apply durability failure triggered normal restore"@,
        ),
        _ => record,
    }
}

/// Puts a record of which an apply failed on its way to restoration.
pub fn start_rollback(record: &mut SessionRecord, now: Timestamp)
    ensures
        final(record)@ == rollback_started(old(record)@, now),
{
    match record.state {
        SessionState::Applying | SessionState::IntentDurable => {
            let _ = record.transition(
                SessionState::RollingBack,
                now,
                "apply failure triggered reverse rollback",
            );
        },
        SessionState::Active => {
            let _ = record.transition(
                SessionState::Restoring,
                now,
                "apply durability failure triggered normal restore",
            );
        },
        _ => {},
    }
}

/// Whether there is nothing to be done for a change any more.
pub open spec fn settled(operation: OperationView) -> bool {
    operation.state == OperationState::Verified || operation.state == OperationState::Restored
}

/// Whether a change can be applied: it is intended, and it is known what its
/// target held before.
pub open spec fn appliable(operation: OperationView) -> bool {
    operation.state == OperationState::IntentRecorded && operation.snapshot is Some
}

/// Whether a session can be applied.
pub open spec fn ready(record: RecordView) -> bool {
    record.state == SessionState::IntentDurable && startable(record.operations)
}

/// Whether every change can be applied or needs nothing any more.
pub open spec fn startable(operations: Seq<OperationView>) -> bool {
    forall|i: int|
        0 <= i < operations.len() ==> settled(#[trigger] operations[i]) || appliable(operations[i])
}

/// The changes that are still to be made, in order.
pub open spec fn pending(operations: Seq<OperationView>) -> Seq<MutationView>
    decreases operations.len(),
{
    if operations.len() == 0 {
        Seq::empty()
    } else if settled(operations.last()) {
        pending(operations.drop_last())
    } else {
        pending(operations.drop_last()).push(operations.last().mutation)
    }
}

/// Whether what was applied are the first changes of those still to be made, in
/// their order.
pub open spec fn applied_in_order(
    before: Seq<Event>,
    after: Seq<Event>,
    operations: Seq<OperationView>,
) -> bool {
    exists|k: int|
        0 <= k <= operations.len() && applied(after) == applied(before) + pending(
            #[trigger] operations.take(k),
        )
}

/// Whether two states of a session are about the same changes with the same
/// snapshots.
pub open spec fn same_changes(a: Seq<OperationView>, b: Seq<OperationView>) -> bool {
    &&& a.len() == b.len()
    &&& forall|i: int|
        0 <= i < a.len() ==> a[i].mutation == (#[trigger] b[i]).mutation && a[i].snapshot
            == b[i].snapshot
}

/// Whether nothing was restored but changes of a session, backwards, each with
/// the snapshot that was taken before it.
pub open spec fn only_undone(
    before: Seq<Event>,
    after: Seq<Event>,
    operations: Seq<OperationView>,
) -> bool {
    exists|left: Seq<OperationView>| #[trigger]
        same_changes(operations, left) && restored_backwards(before, after, left)
}

proof fn lemma_nothing_restored(
    before: Seq<Event>,
    after: Seq<Event>,
    operations: Seq<OperationView>,
)
    requires
        restores(after) == restores(before),
    ensures
        restored_backwards(before, after, operations),
        only_undone(before, after, operations),
{
    let none = Seq::<int>::empty();
    assert(backwards(none, operations));
    assert(restores(before) + calls(operations, none) =~= restores(before));
    assert(same_changes(operations, operations));
}

proof fn lemma_restored_after(
    before: Seq<Event>,
    middle: Seq<Event>,
    after: Seq<Event>,
    operations: Seq<OperationView>,
    left: Seq<OperationView>,
)
    requires
        restores(middle) == restores(before),
        same_changes(operations, left),
        restored_backwards(middle, after, left),
    ensures
        only_undone(before, after, operations),
{
    let order = choose|order: Seq<int>| #[trigger]
        backwards(order, left) && restores(after) == restores(middle) + calls(left, order);
    assert(backwards(order, left) && restores(after) == restores(before) + calls(left, order));
    assert(restored_backwards(before, after, left));
}

/// Why an apply went no further.
enum ApplyFailure {
    /// It ends here.
    Stop(SysboostError),
    /// Everything is to be rolled back.
    RollBack(SysboostError),
}

/// Why an apply goes no further, if it does not, as plain values.
spec fn halt_of(r: Result<(), ApplyFailure>) -> Option<Halt> {
    match r {
        Ok(_) => None,
        Err(ApplyFailure::Stop(error)) => Some(Halt::Stop(error@)),
        Err(ApplyFailure::RollBack(error)) => Some(Halt::RollBack(error@)),
    }
}

/// What reading back after an apply says.
pub fn judge_readback(
    mutation_id: MutationId,
    expected: StateFingerprint,
    observed: Option<StateFingerprint>,
) -> (r: VerificationResult)
    ensures
        r.mutation_id == mutation_id,
        r.expected == expected,
        r.observed == observed,
        r.matched == (observed == Some(expected)),
{
    let matched = match &observed {
        Some(seen) => seen.same(&expected),
        None => false,
    };
    VerificationResult { mutation_id, expected, observed, matched }
}

impl<B, S, L, G, C> TransactionEngine<B, S, L, G, C> where
    B: MutationBackend,
    S: SessionStateStore,
    L: ExclusiveSessionLock,
    G: SessionIdSource,
    C: Clock,
 {
    /// Rolls everything back that was applied before a failure. The failure is
    /// returned in any case; where the rollback failed too, both together.
    fn rollback_after_failure(&mut self, record: SessionRecord, trigger: SysboostError) -> (r:
        SysboostError)
        requires
            old(self).wf(),
        ensures
            final(self).wf(),
            final(self).goes_on_from(old(self)),
            extends(old(self).history(), final(self).history()),
            applied(final(self).history()) == applied(old(self).history()),
            restored_backwards(
                old(self).history(),
                final(self).history(),
                record@.operations,
            ),
            final(self).active() == old(self).active() || final(self).active() == released(
                old(self).active(),
                record@.session_id,
            ),
            forall|all: Seq<Event>| #[trigger]
                schedule::goes_on(final(self).history(), all) ==> schedule::rollback_run(
                    record@,
                    trigger@,
                    old(self).active(),
                    all,
                    old(self).history().len() as int,
                ) == (Ending {
                    at: final(self).history().len() as int,
                    fits: true,
                    result: Err(r@),
                    holds: final(self).active(),
                }),
    {
        proof {
            reveal(schedule::rollback_run);
        }
        let ghost failed = record@;
        let ghost cause = trigger@;
        let mut record = record;
        let session_id = record.session_id;
        let now = match self.time() {
            Ok(now) => now,
            Err(_) => Timestamp::from_unix_millis(0),
        };
        start_rollback(&mut record, now);
        if let Err(error) = self.persist(&record, Stage::Recovery) {
            record.record_failure(&error);
        }
        let ghost started = self.history();
        let r = match self.restore_record(&mut record) {
            Ok(_) => trigger,
            Err(rollback) => combine_failure(trigger, rollback, session_id),
        };
        proof {
            assert forall|all: Seq<Event>| #[trigger]
                schedule::goes_on(self.history(), all) implies schedule::rollback_run(
                failed,
                cause,
                old(self).active(),
                all,
                old(self).history().len() as int,
            ) == (Ending {
                at: self.history().len() as int,
                fits: true,
                result: Err(r@),
                holds: self.active(),
            }) by {
                lemma_goes_on(started, self.history(), all);
            }
        }
        r
    }

    /// Applies one change and reads it back.
    #[verifier::rlimit(40)]
    fn apply_operation(
        &mut self,
        session_id: SessionId,
        record: &mut SessionRecord,
        index: usize,
    ) -> (r: Result<(), ApplyFailure>)
        requires
            old(self).wf(),
            index < old(record).operations@.len(),
            old(record)@.state == SessionState::Applying,
        ensures
            final(self).wf(),
            final(self).goes_on_from(old(self)),
            final(self).active() == old(self).active(),
            extends(old(self).history(), final(self).history()),
            restores(final(self).history()) == restores(old(self).history()),
            final(record)@ == (RecordView {
                operations: final(record)@.operations,
                failures: final(record)@.failures,
                ..old(record)@
            }),
            final(record)@.operations == old(record)@.operations.update(
                index as int,
                final(record)@.operations[index as int],
            ),
            final(record)@.operations[index as int].mutation
                == old(record)@.operations[index as int].mutation,
            final(record)@.operations[index as int].snapshot
                == old(record)@.operations[index as int].snapshot,
            settled(old(record)@.operations[index as int]) ==> r is Ok && final(self).history()
                == old(self).history() && final(record)@ == old(record)@,
            !settled(old(record)@.operations[index as int]) ==> match r {
                Ok(_) => {
                    &&& appliable(old(record)@.operations[index as int])
                    &&& applied(final(self).history()) == applied(old(self).history()).push(
                        old(record)@.operations[index as int].mutation,
                    )
                    &&& setbacks(final(self).history()) == setbacks(old(self).history())
                    &&& final(record)@.operations[index as int].state == OperationState::Verified
                },
                Err(failure) => {
                    &&& setbacks(final(self).history()) > setbacks(old(self).history())
                        || !appliable(old(record)@.operations[index as int])
                    &&& applied(final(self).history()) == applied(old(self).history()) || applied(
                        final(self).history(),
                    ) == applied(old(self).history()).push(
                        old(record)@.operations[index as int].mutation,
                    )
                },
            },
            forall|all: Seq<Event>| #[trigger]
                schedule::goes_on(final(self).history(), all) ==> schedule::apply_step(
                    Applying {
                        at: old(self).history().len() as int,
                        fits: true,
                        record: old(record)@,
                        halt: None,
                    },
                    index as int,
                    session_id,
                    all,
                ) == (Applying {
                    at: final(self).history().len() as int,
                    fits: true,
                    record: final(record)@,
                    halt: halt_of(r),
                }),
    {
        proof {
            reveal(schedule::apply_step);
        }
        let ghost before = record@;
        let ghost op = record@.operations[index as int];
        assert(op == record.operations@[index as int]@);
        assert(record@.operations =~= before.operations.update(index as int, op));
        let mutation_id = record.operations[index].mutation.mutation_id;
        match record.operations[index].state {
            OperationState::Verified | OperationState::Restored => {
                return Ok(());
            },
            OperationState::Applying => {
                let error = fault(
                    ErrorCode::JournalCorrupt,
                    "crash-state shows an apply with no durable completion",
                    Stage::Recovery,
                    session_id,
                    Some(mutation_id),
                );
                record.record_failure(&error);
                return Err(ApplyFailure::RollBack(error));
            },
            OperationState::IntentRecorded => {},
            _ => {
                let error = fault(
                    ErrorCode::InvariantViolation,
                    "operation is not at durable intent before apply",
                    Stage::Apply,
                    session_id,
                    Some(mutation_id),
                );
                record.record_failure(&error);
                return Err(ApplyFailure::RollBack(error));
            },
        }
        record.begin_apply(index);
        assert(record.operations@.len() == record@.operations.len());
        if let Err(error) = self.persist(record, Stage::Apply) {
            record.record_failure(&error);
            return Err(ApplyFailure::RollBack(error));
        }
        let mutation = record.operations[index].mutation.clone();
        assert(record@.operations[index as int] == record.operations@[index as int]@);
        let snapshot = match &record.operations[index].snapshot {
            Some(snapshot) => snapshot.clone(),
            None => {
                return Err(
                    ApplyFailure::Stop(
                        fault(
                            ErrorCode::InvariantViolation,
                            "durable intent operation is missing its snapshot",
                            Stage::Apply,
                            session_id,
                            Some(mutation_id),
                        ),
                    ),
                );
            },
        };
        proof {
            assert(record@.operations[index as int].state == OperationState::Applying);
            assert(announces(record@, mutation@, snapshot@));
        }
        let receipt = match self.run_apply(&mutation, &snapshot) {
            Ok(receipt) => receipt,
            Err(error) => {
                let error = contextual(error, Stage::Apply, Some(session_id), Some(mutation_id));
                if error.retryability != Retryability::Unknown {
                    record.fail_operation(index, &error);
                } else {
                    // Without a receipt the change stays where it is, so that
                    // nothing is ever restored on a guess.
                    record.record_failure(&error);
                }
                let _ = self.persist(record, Stage::Apply);
                return Err(ApplyFailure::RollBack(error));
            },
        };
        let accepted = accept_receipt(&mutation, &receipt);
        record.record_apply(index, receipt);
        assert(record.operations@.len() == record@.operations.len());
        if !accepted {
            let error = fault(
                ErrorCode::ApplyError,
                "backend apply receipt failed its typed identity or precondition checks",
                Stage::Apply,
                session_id,
                Some(mutation_id),
            );
            record.fail_operation(index, &error);
            let _ = self.persist(record, Stage::Apply);
            return Err(ApplyFailure::RollBack(error));
        }
        if let Err(error) = self.persist(record, Stage::Apply) {
            record.record_failure(&error);
            return Err(ApplyFailure::RollBack(error));
        }
        let reply = self.read_back(
            &mutation,
            receipt.ownership_fingerprint,
            snapshot.target_identity,
            None,
        );
        match reply {
            Ok(observed) => {
                let verification = judge_readback(
                    mutation_id,
                    receipt.ownership_fingerprint,
                    Some(observed),
                );
                record.record_verification(index, verification);
                assert(record.operations@.len() == record@.operations.len());
                if !verification.matched {
                    let error = fault(
                        ErrorCode::VerificationError,
                        "apply readback did not match the session-owned value",
                        Stage::Verify,
                        session_id,
                        Some(mutation_id),
                    );
                    record.fail_operation(index, &error);
                    let _ = self.persist(record, Stage::Verify);
                    return Err(ApplyFailure::RollBack(error));
                }
            },
            Err(error) => {
                let error = contextual(error, Stage::Verify, Some(session_id), Some(mutation_id));
                let verification = judge_readback(
                    mutation_id,
                    receipt.ownership_fingerprint,
                    None,
                );
                record.record_verification(index, verification);
                assert(record.operations@.len() == record@.operations.len());
                record.fail_operation(index, &error);
                let _ = self.persist(record, Stage::Verify);
                return Err(ApplyFailure::RollBack(error));
            },
        }
        if let Err(error) = self.persist(record, Stage::Verify) {
            record.record_failure(&error);
            return Err(ApplyFailure::RollBack(error));
        }
        Ok(())
    }
}

/// Whether a session may be applied from its durable state: `None` where it may,
/// else what is returned without doing anything.
pub open spec fn apply_reply(record: RecordView, session_id: SessionId) -> Option<
    Result<SessionState, ErrorView>,
> {
    match record.state {
        SessionState::IntentDurable => None,
        SessionState::Active => Some(Ok(SessionState::Active)),
        SessionState::Restored => Some(Ok(SessionState::Restored)),
        _ => Some(
            Err(
                session_error(
                    ErrorCode::InvariantViolation,
                    "apply is not legal from durable state "@ + session::state_text(record.state),
                    Stage::Apply,
                    session_id,
                    None,
                ),
            ),
        ),
    }
}

/// What applying a session does: nothing unless the lock is held for it, and
/// then what its durable record allows.
pub open spec fn apply_outcome(
    before: Seq<Event>,
    held: Option<SessionId>,
    after: Seq<Event>,
    holds: Option<SessionId>,
    session_id: SessionId,
    r: Result<SessionState, ErrorView>,
) -> bool {
    match lease_refusal(held, session_id) {
        Some(refusal) => {
            &&& r == Err::<SessionState, ErrorView>(refusal)
            &&& after == before
            &&& holds == held
        },
        None => {
            &&& after.len() > before.len()
            &&& match after[before.len() as int] {
                Event::Load { session_id: asked, reply } => {
                    &&& asked == session_id
                    &&& match reply {
                        Ok(record) => match apply_reply(record, session_id) {
                            Some(answer) => r == answer && after.len() == before.len() + 1,
                            None => apply_done(before, after, record, r),
                        },
                        Err(error) => after.len() == before.len() + 1 && r == Err::<
                            SessionState,
                            ErrorView,
                        >(in_context(error, Stage::Recovery, Some(session_id), None)),
                    }
                },
                _ => false,
            }
            &&& r == Ok::<SessionState, ErrorView>(SessionState::Active) ==> holds == Some(
                session_id,
            )
            &&& r == Ok::<SessionState, ErrorView>(SessionState::Restored) ==> holds is None
            &&& schedule::apply_request(session_id, held, after, before.len() as int) == (Ending {
                at: after.len() as int,
                fits: true,
                result: r,
                holds,
            })
        },
    }
}

/// What an apply from a durable intent does.
///
/// It applies the changes that are still to be made in their order, and it
/// succeeds exactly when all of them can be applied and nothing stood in the
/// way. Then the session is durably active and every change is settled.
/// Otherwise nothing but changes of this session is restored, backwards.
pub open spec fn apply_done(
    before: Seq<Event>,
    after: Seq<Event>,
    record: RecordView,
    r: Result<SessionState, ErrorView>,
) -> bool {
    &&& applied_in_order(before, after, record.operations)
    &&& only_undone(before, after, record.operations)
    &&& r is Ok <==> ready(record) && setbacks(after) == setbacks(before)
    &&& r is Ok ==> {
        &&& r == Ok::<SessionState, ErrorView>(SessionState::Active)
        &&& applied(after) == applied(before) + pending(record.operations)
        &&& restores(after) == restores(before)
        &&& match after.last() {
            Event::Replace { record: kept, reply } => {
                &&& reply is Ok
                &&& kept.session_id == record.session_id
                &&& kept.state == SessionState::Active
                &&& kept.operations.len() == record.operations.len()
                &&& forall|i: int|
                    0 <= i < kept.operations.len() ==> settled(#[trigger] kept.operations[i])
            },
            _ => false,
        }
    }
}

impl<B, S, L, G, C> TransactionEngine<B, S, L, G, C> where
    B: MutationBackend,
    S: SessionStateStore,
    L: ExclusiveSessionLock,
    G: SessionIdSource,
    C: Clock,
 {
    /// Applies the changes of a session in their order, up to the first that cannot
    /// be applied.
    fn apply_operations(&mut self, session_id: SessionId, record: &mut SessionRecord) -> (r: Result<
        (),
        ApplyFailure,
    >)
        requires
            old(self).wf(),
            old(record)@.state == SessionState::Applying,
        ensures
            final(self).wf(),
            final(self).goes_on_from(old(self)),
            final(self).active() == old(self).active(),
            extends(old(self).history(), final(self).history()),
            restores(final(self).history()) == restores(old(self).history()),
            applied_in_order(
                old(self).history(),
                final(self).history(),
                old(record)@.operations,
            ),
            final(record)@.session_id == old(record)@.session_id,
            final(record)@.state == SessionState::Applying,
            same_changes(old(record)@.operations, final(record)@.operations),
            match r {
                Ok(_) => {
                    &&& startable(old(record)@.operations)
                    &&& setbacks(final(self).history()) == setbacks(old(self).history())
                    &&& applied(final(self).history()) == applied(old(self).history()) + pending(
                        old(record)@.operations,
                    )
                    &&& forall|i: int|
                        0 <= i < final(record)@.operations.len() ==> settled(
                            #[trigger] final(record)@.operations[i],
                        )
                },
                Err(_) => setbacks(final(self).history()) > setbacks(old(self).history())
                    || !startable(old(record)@.operations),
            },
            forall|all: Seq<Event>| #[trigger]
                schedule::goes_on(final(self).history(), all) ==> schedule::apply_up(
                    Applying {
                        at: old(self).history().len() as int,
                        fits: true,
                        record: old(record)@,
                        halt: None,
                    },
                    old(record)@.operations.len() as int,
                    session_id,
                    all,
                ) == (Applying {
                    at: final(self).history().len() as int,
                    fits: true,
                    record: final(record)@,
                    halt: halt_of(r),
                }),
    {
        let ghost h0 = self.history();
        let ghost ops = record@.operations;
        let ghost begun = Applying {
            at: h0.len() as int,
            fits: true,
            record: record@,
            halt: None,
        };
        proof {
            assert(pending(ops.take(0)) =~= Seq::empty());
            assert(applied(h0) + pending(ops.take(0)) =~= applied(h0));
        }
        let n: usize = record.operations.len();
        let mut index: usize = 0;
        while index < n
            invariant
                index <= n,
                n == ops.len(),
                record.operations@.len() == n,
                record@.operations.len() == n,
                h0 == old(self).history(),
                ops == old(record)@.operations,
                begun == (Applying {
                    at: h0.len() as int,
                    fits: true,
                    record: old(record)@,
                    halt: None,
                }),
                self.wf(),
                self.goes_on_from(old(self)),
                self.active() == old(self).active(),
                extends(h0, self.history()),
                restores(self.history()) == restores(h0),
                setbacks(self.history()) == setbacks(h0),
                applied(self.history()) == applied(h0) + pending(ops.take(index as int)),
                record@.session_id == old(record)@.session_id,
                record@.state == SessionState::Applying,
                forall|i: int| index <= i < n ==> #[trigger] record@.operations[i] == ops[i],
                forall|i: int| 0 <= i < index ==> settled(#[trigger] record@.operations[i]),
                same_changes(ops, record@.operations),
                forall|i: int|
                    0 <= i < index ==> settled(#[trigger] ops[i]) || appliable(ops[i]),
                forall|all: Seq<Event>| #[trigger]
                    schedule::goes_on(self.history(), all) ==> schedule::apply_up(
                        begun,
                        index as int,
                        session_id,
                        all,
                    ) == (Applying {
                        at: self.history().len() as int,
                        fits: true,
                        record: record@,
                        halt: None,
                    }),
            decreases n - index,
        {
            let ghost op = record@.operations[index as int];
            let ghost h = self.history();
            assert(op == ops[index as int]);
            assert(ops.take(index + 1).drop_last() =~= ops.take(index as int));
            let step = self.apply_operation(session_id, record, index);
            assert(record@.operations.len() == n);
            assert(record.operations@.len() == record@.operations.len());
            let ghost reached = Applying {
                at: self.history().len() as int,
                fits: true,
                record: record@,
                halt: halt_of(step),
            };
            proof {
                if !settled(op) {
                    assert(pending(ops.take(index + 1)) == pending(ops.take(index as int)).push(
                        op.mutation,
                    ));
                    assert((applied(h0) + pending(ops.take(index as int))).push(op.mutation)
                        =~= applied(h0) + pending(ops.take(index + 1)));
                }
                assert forall|all: Seq<Event>| #[trigger]
                    schedule::goes_on(self.history(), all) implies schedule::apply_up(
                    begun,
                    index + 1,
                    session_id,
                    all,
                ) == reached by {
                    lemma_goes_on(h, self.history(), all);
                }
            }
            if step.is_err() {
                proof {
                    assert forall|all: Seq<Event>| #[trigger]
                        schedule::goes_on(self.history(), all) implies schedule::apply_up(
                        begun,
                        n as int,
                        session_id,
                        all,
                    ) == reached by {
                        schedule::halted_applies_stay(
                            begun,
                            index + 1,
                            n as int,
                            session_id,
                            all,
                        );
                    }
                }
                return step;
            }
            index = index + 1;
        }
        proof {
            assert(ops.take(n as int) =~= ops);
        }
        Ok(())
    }

    /// Ends an apply: the session is active once the record that says so is kept,
    /// and rolled back where something failed.
    fn finish_apply(&mut self, record: SessionRecord, step: Result<(), ApplyFailure>) -> (r: Result<
        SessionState,
        SysboostError,
    >)
        requires
            old(self).wf(),
            step is Ok ==> record@.state == SessionState::Applying,
        ensures
            final(self).wf(),
            final(self).goes_on_from(old(self)),
            extends(old(self).history(), final(self).history()),
            applied(final(self).history()) == applied(old(self).history()),
            restored_backwards(old(self).history(), final(self).history(), record@.operations),
            r is Ok <==> step is Ok && setbacks(final(self).history()) == setbacks(
                old(self).history(),
            ),
            r is Ok ==> {
                &&& r->Ok_0 == SessionState::Active
                &&& final(self).active() == old(self).active()
                &&& restores(final(self).history()) == restores(old(self).history())
                &&& match final(self).history().last() {
                    Event::Replace { record: kept, reply } => {
                        &&& reply is Ok
                        &&& kept.session_id == record@.session_id
                        &&& kept.state == SessionState::Active
                        &&& kept.operations == record@.operations
                    },
                    _ => false,
                }
            },
            final(self).active() == old(self).active() || final(self).active() == released(
                old(self).active(),
                record@.session_id,
            ),
            forall|all: Seq<Event>| #[trigger]
                schedule::goes_on(final(self).history(), all) ==> schedule::apply_finished(
                    Applying {
                        at: old(self).history().len() as int,
                        fits: true,
                        record: record@,
                        halt: halt_of(step),
                    },
                    old(self).active(),
                    all,
                ) == (Ending {
                    at: final(self).history().len() as int,
                    fits: true,
                    result: crate::error::plain(r),
                    holds: final(self).active(),
                }),
    {
        proof {
            reveal(schedule::apply_finished);
        }
        let mut record = record;
        match step {
            Ok(_) => {},
            Err(ApplyFailure::Stop(error)) => {
                proof {
                    lemma_nothing_restored(
                        old(self).history(),
                        self.history(),
                        record@.operations,
                    );
                }
                return Err(error);
            },
            Err(ApplyFailure::RollBack(error)) => {
                return Err(self.rollback_after_failure(record, error));
            },
        }
        let ghost ops = record@.operations;
        let now = match self.time() {
            Ok(now) => now,
            Err(error) => {
                proof {
                    lemma_nothing_restored(old(self).history(), self.history(), ops);
                }
                return Err(error.with_stage(Stage::Verify));
            },
        };
        match record.transition(
            SessionState::Active,
            now,
            "all ordered applies and readbacks verified",
        ) {
            Ok(_) => {},
            Err(error) => {
                assert(false);
                return Err(error);
            },
        }
        if let Err(error) = self.persist(&record, Stage::Verify) {
            record.record_failure(&error);
            let ghost h = self.history();
            let failure = self.rollback_after_failure(record, error);
            proof {
                assert forall|all: Seq<Event>| #[trigger]
                    schedule::goes_on(self.history(), all) implies schedule::goes_on(h, all) by {
                    lemma_goes_on(h, self.history(), all);
                }
            }
            return Err(failure);
        }
        proof {
            lemma_nothing_restored(old(self).history(), self.history(), ops);
        }
        Ok(SessionState::Active)
    }

    /// Applies all changes of a session that stands at its durable intent.
    fn apply_record(&mut self, session_id: SessionId, intent: SessionRecord) -> (r: Result<
        SessionState,
        SysboostError,
    >)
        requires
            old(self).wf(),
            intent@.state == SessionState::IntentDurable,
        ensures
            final(self).wf(),
            final(self).goes_on_from(old(self)),
            extends(old(self).history(), final(self).history()),
            apply_done(old(self).history(), final(self).history(), intent@, crate::error::plain(r)),
            r is Ok ==> final(self).active() == old(self).active(),
            final(self).active() == old(self).active() || final(self).active() == released(
                old(self).active(),
                intent@.session_id,
            ),
            forall|all: Seq<Event>| #[trigger]
                schedule::goes_on(final(self).history(), all) ==> schedule::apply_run(
                    intent@,
                    session_id,
                    old(self).active(),
                    all,
                    old(self).history().len() as int,
                ) == (Ending {
                    at: final(self).history().len() as int,
                    fits: true,
                    result: crate::error::plain(r),
                    holds: final(self).active(),
                }),
    {
        let mut record = intent;
        let ghost loaded = record@;
        let ghost h0 = self.history();
        let ghost ops = record@.operations;
        proof {
            assert(pending(ops.take(0)) =~= Seq::empty());
            assert(applied(h0) + pending(ops.take(0)) =~= applied(h0));
        }
        let now = match self.time() {
            Ok(now) => now,
            Err(error) => {
                proof {
                    lemma_nothing_restored(h0, self.history(), ops);
                }
                return Err(error.with_stage(Stage::Apply));
            },
        };
        match record.transition(
            SessionState::Applying,
            now,
            "ordered mutation application started",
        ) {
            Ok(_) => {},
            Err(error) => {
                assert(false);
                return Err(error);
            },
        }
        let kept = self.persist(&record, Stage::Apply);
        let ghost h1 = self.history();
        let step = match kept {
            Ok(_) => self.apply_operations(session_id, &mut record),
            Err(error) => {
                record.record_failure(&error);
                Err(ApplyFailure::RollBack(error))
            },
        };
        let ghost h2 = self.history();
        let ghost left = record@.operations;
        assert(same_changes(ops, left));
        let r = self.finish_apply(record, step);
        proof {
            lemma_restored_after(h0, h2, self.history(), ops, left);
            assert forall|all: Seq<Event>| #[trigger]
                schedule::goes_on(self.history(), all) implies schedule::apply_run(
                loaded,
                session_id,
                old(self).active(),
                all,
                h0.len() as int,
            ) == (Ending {
                at: self.history().len() as int,
                fits: true,
                result: crate::error::plain(r),
                holds: self.active(),
            }) by {
                lemma_goes_on(h2, self.history(), all);
                lemma_goes_on(h1, h2, all);
            }
        }
        r
    }

    /// Applies a prepared session. A session that is active already stays
    /// active; one that is restored is released.
    pub fn apply(&mut self, session_id: SessionId) -> (r: Result<SessionState, SysboostError>)
        requires
            old(self).wf(),
        ensures
            final(self).wf(),
            final(self).goes_on_from(old(self)),
            final(self).came_from(old(self).history().len() as int, old(self).world()),
            extends(old(self).history(), final(self).history()),
            apply_outcome(
                old(self).history(),
                old(self).active(),
                final(self).history(),
                final(self).active(),
                session_id,
                crate::error::plain(r),
            ),
    {
        proof {
            self.stands_here();
        }
        match self.require_active(session_id) {
            Ok(_) => {},
            Err(error) => {
                return Err(error);
            },
        }
        let record = match self.load(session_id) {
            Ok(record) => record,
            Err(error) => {
                return Err(contextual(error, Stage::Recovery, Some(session_id), None));
            },
        };
        match record.state {
            SessionState::IntentDurable => {},
            SessionState::Active => {
                return Ok(SessionState::Active);
            },
            SessionState::Restored => {
                self.release_if_restored(session_id);
                return Ok(SessionState::Restored);
            },
            state => {
                let mut message = "apply is not legal from durable state ".to_string();
                message.append(state.as_text());
                return Err(
                    fault(
                        ErrorCode::InvariantViolation,
                        message.as_str(),
                        Stage::Apply,
                        session_id,
                        None,
                    ),
                );
            },
        }
        let ghost h = self.history();
        let r = self.apply_record(session_id, record);
        proof {
            assert(schedule::goes_on(self.history(), self.history()));
            lemma_goes_on(h, self.history(), self.history());
        }
        r
    }
}

/// What a restoration from a durable record does.
///
/// It changes nothing, restores changes of this session backwards, and succeeds
/// when the record can be restored and nothing stood in the way. On success the
/// session is durably proven restored.
pub open spec fn restore_done(
    before: Seq<Event>,
    after: Seq<Event>,
    record: RecordView,
    r: Result<SessionState, ErrorView>,
) -> bool {
    &&& applied(after) == applied(before)
    &&& restored_backwards(before, after, record.operations)
    &&& r is Err ==> setbacks(after) > setbacks(before) || any_stuck(record.operations)
        || !restartable(record.state)
    &&& r is Ok ==> {
        &&& r == Ok::<SessionState, ErrorView>(SessionState::Restored)
        &&& match after.last() {
            Event::Replace { record: kept, reply } => {
                &&& reply is Ok
                &&& kept.session_id == record.session_id
                &&& kept.state == SessionState::Restored
                &&& evidence_kept(record.operations, kept.operations)
                &&& session::all_undone(kept.operations)
            },
            _ => false,
        }
    }
}

/// What restoring a session does. Without the lock it can only find that the
/// session is restored already.
pub open spec fn restore_outcome(
    before: Seq<Event>,
    held: Option<SessionId>,
    after: Seq<Event>,
    holds: Option<SessionId>,
    session_id: SessionId,
    r: Result<SessionState, ErrorView>,
) -> bool {
    if held is Some && held != Some(session_id) {
        &&& r == Err::<SessionState, ErrorView>(lease_refusal(held, session_id)->0)
        &&& after == before
        &&& holds == held
    } else {
        &&& after.len() > before.len()
        &&& match after[before.len() as int] {
            Event::Load { session_id: asked, reply } => {
                &&& asked == session_id
                &&& match reply {
                    Ok(record) => if record.state == SessionState::Restored {
                        r == Ok::<SessionState, ErrorView>(SessionState::Restored) && after.len()
                            == before.len() + 1
                    } else if held is None {
                        r == Err::<SessionState, ErrorView>(lease_refusal(None, session_id)->0)
                            && after.len() == before.len() + 1
                    } else {
                        restore_done(before, after, record, r)
                    },
                    Err(error) => after.len() == before.len() + 1 && r == Err::<
                        SessionState,
                        ErrorView,
                    >(in_context(error, Stage::Recovery, Some(session_id), None)),
                }
            },
            _ => false,
        }
        &&& holds == if r is Ok {
            None
        } else {
            held
        }
        &&& schedule::restore_request(session_id, held, after, before.len() as int) == (Ending {
            at: after.len() as int,
            fits: true,
            result: r,
            holds,
        })
    }
}

/// The number by which sessions are ordered.
pub open spec fn session_key(session_id: SessionId) -> nat {
    crate::bytes::be_value(session_id.bytes@)
}

/// A record put behind all that do not come after it.
pub open spec fn inserted(records: Seq<RecordView>, record: RecordView) -> Seq<RecordView>
    decreases records.len(),
{
    if records.len() == 0 || session_key(records.last().session_id) <= session_key(
        record.session_id,
    ) {
        records.push(record)
    } else {
        inserted(records.drop_last(), record).push(records.last())
    }
}

/// Records in the order of their sessions.
pub open spec fn by_session(records: Seq<RecordView>) -> Seq<RecordView>
    decreases records.len(),
{
    if records.len() == 0 {
        records
    } else {
        inserted(by_session(records.drop_last()), records.last())
    }
}

/// Whether records stand in the order of their sessions.
pub open spec fn in_session_order(records: Seq<RecordView>) -> bool {
    forall|i: int, j: int|
        0 <= i < j < records.len() ==> session_key((#[trigger] records[i]).session_id)
            <= session_key((#[trigger] records[j]).session_id)
}

proof fn lemma_inserted(records: Seq<RecordView>, record: RecordView)
    requires
        in_session_order(records),
    ensures
        in_session_order(inserted(records, record)),
        inserted(records, record).len() == records.len() + 1,
        inserted(records, record).to_multiset() == records.to_multiset().insert(record),
        inserted(records, record).len() > 0,
        session_key(inserted(records, record).last().session_id) == session_key(record.session_id)
            || (records.len() > 0 && inserted(records, record).last() == records.last()),
    decreases records.len(),
{
    broadcast use vstd::seq_lib::group_to_multiset_ensures;

    if records.len() == 0 || session_key(records.last().session_id) <= session_key(
        record.session_id,
    ) {
        assert forall|i: int, j: int| 0 <= i < j < records.push(record).len() implies session_key(
            (#[trigger] records.push(record)[i]).session_id,
        ) <= session_key((#[trigger] records.push(record)[j]).session_id) by {
            if j == records.len() {
                assert(session_key(records[i].session_id) <= session_key(
                    records.last().session_id,
                )) by {
                    if i < records.len() - 1 {
                        assert(records[records.len() - 1] == records.last());
                    }
                }
            }
        }
    } else {
        let rest = records.drop_last();
        let last = records.last();
        lemma_inserted(rest, record);
        let placed = inserted(rest, record);
        assert forall|i: int, j: int| 0 <= i < j < placed.push(last).len() implies session_key(
            (#[trigger] placed.push(last)[i]).session_id,
        ) <= session_key((#[trigger] placed.push(last)[j]).session_id) by {
            if j == placed.len() {
                assert(session_key(placed[i].session_id) <= session_key(placed.last().session_id))
                    by {
                    if i < placed.len() - 1 {
                        assert(placed[placed.len() - 1] == placed.last());
                    }
                }
                if rest.len() > 0 {
                    assert(rest.last() == records[records.len() - 2]);
                    assert(last == records[records.len() - 1]);
                }
            }
        }
        assert(records =~= rest.push(last));
        assert(rest.to_multiset().insert(record).insert(last)
            =~= rest.to_multiset().insert(last).insert(record));
    }
}

/// Unfinished sessions are recovered in the order of their identities, each as
/// often as it was found.
pub proof fn recovery_order(records: Seq<RecordView>)
    ensures
        in_session_order(by_session(records)),
        by_session(records).len() == records.len(),
        by_session(records).to_multiset() == records.to_multiset(),
    decreases records.len(),
{
    broadcast use vstd::seq_lib::group_to_multiset_ensures;

    if records.len() > 0 {
        recovery_order(records.drop_last());
        lemma_inserted(by_session(records.drop_last()), records.last());
        assert(records =~= records.drop_last().push(records.last()));
    }
}

/// Puts a record behind all that do not come after it.
fn insert_record(records: &mut Vec<SessionRecord>, record: SessionRecord)
    ensures
        state::records_view(final(records)@) == inserted(state::records_view(old(records)@), record@),
{
    let ghost all = state::records_view(records@);
    let key: u128 = crate::bytes::read_be(&record.session_id.bytes);
    let mut at: usize = records.len();
    proof {
        assert(all.take(all.len() as int) =~= all);
        assert(all.skip(all.len() as int) =~= Seq::empty());
        assert(inserted(all, record@) =~= inserted(all.take(all.len() as int), record@) + all.skip(
            all.len() as int,
        ));
    }
    while at > 0
        invariant_except_break
            inserted(all, record@) == inserted(all.take(at as int), record@) + all.skip(at as int),
        invariant
            at <= records@.len(),
            all == state::records_view(records@),
            all.len() == records@.len(),
            key == session_key(record.session_id),
        ensures
            inserted(all, record@) == all.take(at as int).push(record@) + all.skip(at as int),
        decreases at,
    {
        let other: u128 = crate::bytes::read_be(&records[at - 1].session_id.bytes);
        let ghost head = all.take(at as int);
        assert(head.last() == all[at - 1]);
        assert(all[at - 1] == records@[at - 1]@);
        if other <= key {
            break;
        }
        proof {
            assert(head.drop_last() =~= all.take(at - 1));
            assert(inserted(all.take(at - 1), record@).push(all[at - 1]) + all.skip(at as int)
                =~= inserted(all.take(at - 1), record@) + all.skip(at - 1));
        }
        at = at - 1;
    }
    records.insert(at, record);
    assert(state::records_view(records@) =~= all.take(at as int).push(record@) + all.skip(at as int));
}

/// Puts records in the order of their sessions.
pub(crate) fn sort_records(records: Vec<SessionRecord>) -> (r: Vec<SessionRecord>)
    ensures
        state::records_view(r@) == by_session(state::records_view(records@)),
{
    let ghost all = state::records_view(records@);
    let mut rest = records;
    let mut sorted: Vec<SessionRecord> = Vec::new();
    let n: usize = rest.len();
    let mut i: usize = 0;
    proof {
        assert(all.take(0) =~= Seq::empty());
        assert(state::records_view(sorted@) =~= Seq::empty());
        assert(all.skip(0) =~= all);
    }
    while i < n
        invariant
            i <= n,
            n == all.len(),
            rest@.len() == n - i,
            state::records_view(rest@) == all.skip(i as int),
            state::records_view(sorted@) == by_session(all.take(i as int)),
        decreases n - i,
    {
        let ghost before = rest@;
        let record = rest.remove(0);
        proof {
            assert(record == before[0]);
            assert(state::records_view(before)[0] == all[i as int]);
            assert(state::records_view(rest@) =~= state::records_view(before).skip(1));
            assert(all.skip(i as int).skip(1) =~= all.skip(i + 1));
            assert(all.take(i + 1).drop_last() =~= all.take(i as int));
            assert(all.take(i + 1).last() == all[i as int]);
        }
        insert_record(&mut sorted, record);
        i = i + 1;
    }
    assert(all.take(n as int) =~= all);
    sorted
}

/// Whether a record can be restored, as far as the record goes.
pub open spec fn recoverable(record: RecordView) -> bool {
    restartable(record.state) && !any_stuck(record.operations)
}

/// Which error an answer gives before any recovery.
pub open spec fn recovery_error(e: Event) -> ErrorView {
    match e {
        Event::Acquire { reply: Err(error) } => ErrorView {
            stage: Some(Stage::Recovery),
            retryability: Retryability::Retry,
            ..error
        },
        Event::LoadUnfinished { reply: Err(error) } => error,
        _ => arbitrary(),
    }
}

/// What a recovery of unfinished sessions does.
///
/// Every session is tried, in the order of the identities, also after another
/// one failed. The lock is given back only when all are restored; otherwise it
/// stays held. A failure means that something stood in the way, or that a record
/// does not say what was done.
pub open spec fn recovery_done(
    before: Seq<Event>,
    after: Seq<Event>,
    records: Seq<RecordView>,
    active: Option<SessionId>,
    r: Result<Seq<TransactionStatus>, ErrorView>,
) -> bool {
    match r {
        Ok(statuses) => {
            &&& active is None
            &&& statuses.len() == records.len()
            &&& forall|i: int|
                0 <= i < statuses.len() ==> (#[trigger] statuses[i]) == (TransactionStatus {
                    session_id: by_session(records)[i].session_id,
                    state: SessionState::Restored,
                })
        },
        Err(_) => {
            &&& active is Some
            &&& setbacks(after) > setbacks(before) || exists|i: int|
                0 <= i < records.len() && !recoverable(#[trigger] by_session(records)[i])
        },
    }
}

/// An error that may be missing, as plain values.
spec fn error_view_of(error: Option<SysboostError>) -> Option<ErrorView> {
    match error {
        Some(error) => Some(error@),
        None => None,
    }
}

/// The first session that is not restored, or the first at all.
fn unresolved(statuses: &Vec<TransactionStatus>) -> (r: SessionId)
    requires
        statuses@.len() > 0,
    ensures
        r == schedule::unresolved(statuses@),
{
    let mut i: usize = 0;
    while i < statuses.len()
        invariant
            i <= statuses@.len(),
            schedule::first_unresolved(statuses@, 0) == schedule::first_unresolved(
                statuses@,
                i as int,
            ),
        decreases statuses@.len() - i,
    {
        if statuses[i].state != SessionState::Restored {
            return statuses[i].session_id;
        }
        i = i + 1;
    }
    statuses[0].session_id
}

impl<B, S, L, G, C> TransactionEngine<B, S, L, G, C> where
    B: MutationBackend,
    S: SessionStateStore,
    L: ExclusiveSessionLock,
    G: SessionIdSource,
    C: Clock,
 {
    /// Restores a session. Once it is durably restored, restoring it again says
    /// so and does nothing.
    pub fn restore(&mut self, session_id: SessionId) -> (r: Result<SessionState, SysboostError>)
        requires
            old(self).wf(),
        ensures
            final(self).wf(),
            final(self).goes_on_from(old(self)),
            final(self).came_from(old(self).history().len() as int, old(self).world()),
            extends(old(self).history(), final(self).history()),
            restore_outcome(
                old(self).history(),
                old(self).active(),
                final(self).history(),
                final(self).active(),
                session_id,
                crate::error::plain(r),
            ),
    {
        proof {
            self.stands_here();
        }
        if self.active.is_none() {
            match self.load(session_id) {
                Ok(record) => {
                    if record.state == SessionState::Restored {
                        return Ok(SessionState::Restored);
                    }
                },
                Err(error) => {
                    return Err(contextual(error, Stage::Recovery, Some(session_id), None));
                },
            }
        }
        match self.require_active(session_id) {
            Ok(_) => {},
            Err(error) => {
                return Err(error);
            },
        }
        let mut record = match self.load(session_id) {
            Ok(record) => record,
            Err(error) => {
                return Err(contextual(error, Stage::Recovery, Some(session_id), None));
            },
        };
        if record.state == SessionState::Restored {
            self.release_if_restored(session_id);
            return Ok(SessionState::Restored);
        }
        let ghost h = self.history();
        let r = self.resume(&mut record);
        proof {
            assert(schedule::goes_on(self.history(), self.history()));
            lemma_goes_on(h, self.history(), self.history());
        }
        if r.is_ok() {
            self.release_if_restored(session_id);
        }
        r
    }

    /// Restores all unfinished sessions after a restart.
    pub fn recover_unfinished(&mut self) -> (r: Result<Vec<TransactionStatus>, SysboostError>)
        requires
            old(self).wf(),
        ensures
            final(self).wf(),
            final(self).goes_on_from(old(self)),
            final(self).came_from(old(self).history().len() as int, old(self).world()),
            extends(old(self).history(), final(self).history()),
            applied(final(self).history()) == applied(old(self).history()),
            old(self).active() is Some ==> {
                &&& r is Err
                &&& r->Err_0@ == crate::error::error_view(
                    ErrorCode::AuthorizationError,
                    "cannot recover while this coordinator owns an active session"@,
                )
                &&& final(self).history() == old(self).history()
                &&& final(self).active() == old(self).active()
            },
            old(self).active() is None ==> {
                let before = old(self).history();
                let after = final(self).history();
                &&& after.len() > before.len()
                &&& match after[before.len() as int] {
                    Event::Acquire { reply: Ok(_) } => {
                        &&& after.len() > before.len() + 1
                        &&& match after[before.len() as int + 1] {
                            Event::LoadUnfinished { reply: Ok(records) } => recovery_done(
                                before,
                                after,
                                records,
                                final(self).active(),
                                match r {
                                    Ok(statuses) => Ok(statuses@),
                                    Err(e) => Err(e@),
                                },
                            ),
                            Event::LoadUnfinished { reply: Err(_) } => r is Err && r->Err_0@
                                == recovery_error(after[before.len() as int + 1]) && final(self).active()
                                is None,
                            _ => false,
                        }
                    },
                    Event::Acquire { reply: Err(_) } => r is Err && r->Err_0@ == recovery_error(
                        after[before.len() as int],
                    ) && final(self).active() is None,
                    _ => false,
                }
            },
            schedule::recover_request(
                old(self).active(),
                final(self).history(),
                old(self).history().len() as int,
            ) == (RecoverEnd {
                at: final(self).history().len() as int,
                fits: true,
                result: match r {
                    Ok(statuses) => Ok(statuses@),
                    Err(e) => Err(e@),
                },
                holds: final(self).active(),
            }),
    {
        proof {
            self.stands_here();
        }
        if self.active.is_some() {
            return Err(
                SysboostError::new(
                    ErrorCode::AuthorizationError,
                    "cannot recover while this coordinator owns an active session",
                ),
            );
        }
        let guard = match self.acquire() {
            Ok(guard) => guard,
            Err(error) => {
                return Err(error.with_stage(Stage::Recovery).retryable(Retryability::Retry));
            },
        };
        let records = match self.load_unfinished() {
            Ok(records) => records,
            Err(error) => {
                return Err(error);
            },
        };
        let ghost found = state::records_view(records@);
        let ghost all = by_session(found);
        let ghost h1 = self.history();
        let mut rest = sort_records(records);
        proof {
            recovery_order(found);
            assert(state::records_view(rest@).len() == rest@.len());
            assert(all.skip(0) =~= all);
        }
        let n: usize = rest.len();
        let mut statuses: Vec<TransactionStatus> = Vec::new();
        let mut first_error: Option<SysboostError> = None;
        let mut i: usize = 0;
        let ghost begun = Recovery {
            at: h1.len() as int,
            fits: true,
            statuses: Seq::empty(),
            error: None,
        };
        assert(statuses@ =~= Seq::empty());
        while i < n
            invariant
                begun == (Recovery {
                    at: h1.len() as int,
                    fits: true,
                    statuses: Seq::empty(),
                    error: None,
                }),
                forall|events: Seq<Event>| #[trigger]
                    schedule::goes_on(self.history(), events) ==> schedule::recover_up(
                        begun,
                        all,
                        i as int,
                        events,
                    ) == (Recovery {
                        at: self.history().len() as int,
                        fits: true,
                        statuses: statuses@,
                        error: error_view_of(first_error),
                    }),
                i <= n,
                n == all.len(),
                n == found.len(),
                rest@.len() == n - i,
                state::records_view(rest@) == all.skip(i as int),
                self.wf(),
                self.goes_on_from(old(self)),
                self.active() is None,
                extends(h1, self.history()),
                applied(self.history()) == applied(h1),
                statuses@.len() == i,
                forall|j: int|
                    0 <= j < i ==> (#[trigger] statuses@[j]).session_id == all[j].session_id,
                first_error is None ==> forall|j: int|
                    0 <= j < i ==> (#[trigger] statuses@[j]).state == SessionState::Restored,
                first_error is Some ==> i > 0 && (setbacks(self.history()) > setbacks(h1)
                    || exists|j: int| 0 <= j < n && !recoverable(#[trigger] all[j])),
            decreases n - i,
        {
            let ghost before = rest@;
            let mut record = rest.remove(0);
            proof {
                assert(record == before[0]);
                assert(state::records_view(before)[0] == all[i as int]);
                assert(state::records_view(rest@) =~= state::records_view(before).skip(1));
                assert(all.skip(i as int).skip(1) =~= all.skip(i + 1));
            }
            let session_id = record.session_id;
            assert(session_id == all[i as int].session_id);
            let ghost started = record@;
            assert(started == all[i as int]);
            let ghost h = self.history();
            let ghost seen = statuses@;
            let step = self.resume(&mut record);
            let state = match step {
                Ok(state) => state,
                Err(error) => {
                    assert(!recoverable(all[i as int]) || setbacks(self.history()) > setbacks(h1));
                    if first_error.is_none() {
                        first_error = Some(error);
                    }
                    record.state
                },
            };
            statuses.push(TransactionStatus { session_id, state });
            proof {
                assert forall|events: Seq<Event>| #[trigger]
                    schedule::goes_on(self.history(), events) implies schedule::recover_up(
                    begun,
                    all,
                    i + 1,
                    events,
                ) == (Recovery {
                    at: self.history().len() as int,
                    fits: true,
                    statuses: statuses@,
                    error: error_view_of(first_error),
                }) by {
                    lemma_goes_on(h, self.history(), events);
                    assert(statuses@ == seen.push(TransactionStatus { session_id, state }));
                }
            }
            i = i + 1;
        }
        proof {
            assert(schedule::goes_on(self.history(), self.history()));
            lemma_goes_on(h1, self.history(), self.history());
        }
        match first_error {
            None => Ok(statuses),
            Some(error) => {
                let session_id = unresolved(&statuses);
                self.active = Some(ActiveLease { session_id, guard });
                Err(error)
            },
        }
    }
}

/// What is restored is decided by what stands there: the original is left alone, a
/// value of the session's own is written over, and a value of anyone else's never.
pub proof fn only_own_values_are_written_over(
    observed: StateFingerprint,
    original: StateFingerprint,
    ownership: StateFingerprint,
)
    ensures
        decision_spec(observed, original, ownership) == RestoreDecision::Write <==> observed
            == ownership && observed != original,
        decision_spec(observed, original, ownership) == RestoreDecision::AlreadyOriginal
            <==> observed == original,
        decision_spec(observed, original, ownership) == RestoreDecision::Conflict <==> observed
            != original && observed != ownership,
{
}

/// What a backend says counts only if it is about the mutation that was asked for: a
/// snapshot of its target taken while that stood as planned, a receipt of its
/// application over what was planned, and a receipt of its restoration that puts
/// back what the snapshot holds and was verified.
pub proof fn answers_are_about_what_was_asked(
    mutation: MutationView,
    snapshot: SnapshotView,
    applied: ApplyReceipt,
    restored: RestoreReceipt,
)
    ensures
        snapshot_refusal(mutation, snapshot) is None <==> {
            &&& snapshot.mutation_id == mutation.mutation_id
            &&& snapshot.target == mutation.target
            &&& snapshot.equality == mutation.equality
            &&& snapshot.original_fingerprint == mutation.precondition
        },
        receipt_fits(mutation, applied) <==> {
            &&& applied.mutation_id == mutation.mutation_id
            &&& applied.observed_precondition == mutation.precondition
            &&& applied.observed_postcondition == applied.ownership_fingerprint
        },
        restore_proven(mutation, snapshot, restored) <==> {
            &&& restored.mutation_id == mutation.mutation_id
            &&& restored.verified
            &&& restored.restored_fingerprint == snapshot.original_fingerprint
        },
{
}

} // verus!
