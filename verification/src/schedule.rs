//! What the coordinator does, answer by answer.
//!
//! Each function here follows a list of events from a position in it: whether
//! every call was the one that was due, what the record says afterwards, and what
//! comes of it. Calls and results depend on nothing but the plan or the record and
//! the answers.

use vstd::prelude::*;

use crate::clock::Timestamp;
use crate::error::{ErrorCode, ErrorView, Retryability, Stage};
use crate::ids::{SessionId, StateFingerprint, TargetIdentity};
use crate::mutation::{
    ApplyReceipt, MutationView, PlanDataView, RestoreReceipt, SnapshotView, VerificationResult,
};
use crate::session;
use crate::session::{OperationState, OperationView, RecordView, SessionState};
use crate::transaction;
use crate::transaction::{Event, RestoreDecision, TransactionStatus};

verus! {

/// A call without its answer.
#[allow(inconsistent_fields)]
#[verifier::ext_equal]
pub enum Call {
    Acquire,
    LoadUnfinished,
    Now,
    NextId,
    Snapshot { mutation: MutationView, now: Timestamp },
    Create { record: RecordView },
    Replace { record: RecordView },
    Load { session_id: SessionId },
    Remove { session_id: SessionId },
    Apply { mutation: MutationView, snapshot: SnapshotView },
    Verify { mutation: MutationView, expected: StateFingerprint, identity: TargetIdentity },
    Restore { mutation: MutationView, snapshot: SnapshotView, ownership: StateFingerprint },
    Owns { backend: Seq<char> },
    Admit { mutation: MutationView, identity: TargetIdentity },
}

/// The call of an event.
pub open spec fn call(e: Event) -> Call {
    match e {
        Event::Acquire { .. } => Call::Acquire,
        Event::LoadUnfinished { .. } => Call::LoadUnfinished,
        Event::Now { .. } => Call::Now,
        Event::NextId { .. } => Call::NextId,
        Event::Snapshot { mutation, now, .. } => Call::Snapshot { mutation, now },
        Event::Create { record, .. } => Call::Create { record },
        Event::Replace { record, .. } => Call::Replace { record },
        Event::Load { session_id, .. } => Call::Load { session_id },
        Event::Remove { session_id, .. } => Call::Remove { session_id },
        Event::Apply { mutation, snapshot, .. } => Call::Apply { mutation, snapshot },
        Event::Verify { mutation, expected, identity, .. } => Call::Verify {
            mutation,
            expected,
            identity,
        },
        Event::Restore { mutation, snapshot, ownership, .. } => Call::Restore {
            mutation,
            snapshot,
            ownership,
        },
        Event::Owns { backend, .. } => Call::Owns { backend },
        Event::Admit { mutation, identity, .. } => Call::Admit { mutation, identity },
    }
}

/// Whether a call was made at a position.
pub open spec fn asked(events: Seq<Event>, at: int, c: Call) -> bool {
    0 <= at < events.len() && call(events[at]) == c
}

/// Whether a list of events goes on from another.
pub open spec fn goes_on(events: Seq<Event>, all: Seq<Event>) -> bool {
    &&& events.len() <= all.len()
    &&& forall|i: int| #![trigger all[i]] 0 <= i < events.len() ==> all[i] == events[i]
}

/// The time that an answer gives; without one it is the epoch.
pub open spec fn time_or_epoch(reply: Result<Timestamp, ErrorView>) -> Timestamp {
    match reply {
        Ok(now) => now,
        Err(_) => Timestamp { millis: 0 },
    }
}

/// How far a restoration has come.
#[verifier::ext_equal]
pub struct Restoration {
    /// Where the next event is.
    pub at: int,
    /// Whether every call so far was the one that was due.
    pub fits: bool,
    pub record: RecordView,
    pub failures: Seq<ErrorView>,
    pub uncertain: bool,
}

/// The record is kept. Where that fails the failure is noted, and it is uncertain
/// what is durable.
pub open spec fn kept(s: Restoration, events: Seq<Event>) -> Restoration {
    let here = Restoration {
        at: s.at + 1,
        fits: s.fits && asked(events, s.at, Call::Replace { record: s.record }),
        ..s
    };
    match events[s.at]->Replace_reply {
        Ok(_) => here,
        Err(error) => {
            let e = transaction::in_context(
                error,
                Stage::Restore,
                Some(s.record.session_id),
                None,
            );
            Restoration {
                record: s.record.with_failure(e),
                failures: s.failures.push(e),
                uncertain: true,
                ..here
            }
        },
    }
}

/// Restoring a change is given up. The record that says so is kept, and nothing
/// depends on whether that succeeds.
pub open spec fn given_up(s: Restoration, i: int, error: ErrorView, events: Seq<Event>) -> Restoration {
    let record = s.record.with_operation(
        i,
        OperationView { state: OperationState::RestoreFailed, ..s.record.operations[i] },
    ).with_failure(error);
    Restoration {
        at: s.at + 1,
        fits: s.fits && asked(events, s.at, Call::Replace { record }),
        record,
        failures: s.failures.push(error),
        ..s
    }
}

/// A change is proven restored, and the record that says so is kept.
pub open spec fn proven(s: Restoration, i: int, receipt: RestoreReceipt, events: Seq<Event>) -> Restoration {
    kept(
        Restoration {
            record: s.record.with_operation(
                i,
                OperationView {
                    restore_receipt: Some(receipt),
                    state: OperationState::Restored,
                    ..s.record.operations[i]
                },
            ),
            ..s
        },
        events,
    )
}

/// The target of a change is compared with what it held before and with what the
/// session left there, and is given back the former only where it holds the
/// latter.
pub open spec fn compared(s: Restoration, i: int, op: OperationView, events: Seq<Event>) -> Restoration {
    let id = s.record.session_id;
    let of = Some(op.mutation.mutation_id);
    let snapshot = op.snapshot->0;
    let ownership = op.apply_receipt->0.ownership_fingerprint;
    let here = Restoration {
        at: s.at + 1,
        fits: s.fits && asked(
            events,
            s.at,
            Call::Verify {
                mutation: op.mutation,
                expected: snapshot.original_fingerprint,
                identity: snapshot.target_identity,
            },
        ),
        ..s
    };
    match events[s.at]->Verify_reply {
        Err(error) => given_up(
            here,
            i,
            transaction::in_context(error, Stage::Restore, Some(id), of),
            events,
        ),
        Ok(observed) => match transaction::decision_spec(
            observed,
            snapshot.original_fingerprint,
            ownership,
        ) {
            RestoreDecision::AlreadyOriginal => proven(
                here,
                i,
                RestoreReceipt {
                    mutation_id: op.mutation.mutation_id,
                    restored_fingerprint: observed,
                    verified: true,
                },
                events,
            ),
            RestoreDecision::Conflict => given_up(
                here,
                i,
                transaction::session_error(
                    ErrorCode::RestoreConflict,
                    "target changed outside the session; compare-and-restore refused to overwrite it"@,
                    Stage::Restore,
                    id,
                    of,
                ),
                events,
            ),
            RestoreDecision::Write => {
                let next = Restoration {
                    at: here.at + 1,
                    fits: here.fits && asked(
                        events,
                        here.at,
                        Call::Restore { mutation: op.mutation, snapshot, ownership },
                    ),
                    ..here
                };
                match events[here.at]->Restore_reply {
                    Ok(receipt) => if transaction::restore_proven(op.mutation, snapshot, receipt) {
                        proven(next, i, receipt, events)
                    } else {
                        given_up(
                            next,
                            i,
                            transaction::session_error(
                                ErrorCode::RestoreError,
                                "backend restore did not prove the original fingerprint"@,
                                Stage::Restore,
                                id,
                                of,
                            ),
                            events,
                        )
                    },
                    Err(error) => given_up(
                        next,
                        i,
                        transaction::in_context(error, Stage::Restore, Some(id), of),
                        events,
                    ),
                }
            },
        },
    }
}

/// A failure is noted about a change of which it is not known what it did.
pub open spec fn doubted(s: Restoration, error: ErrorView) -> Restoration {
    Restoration {
        record: s.record.with_failure(error),
        failures: s.failures.push(error),
        uncertain: true,
        ..s
    }
}

/// One change is restored, if it was applied.
#[verifier::opaque]
pub open spec fn restore_step(s: Restoration, i: int, events: Seq<Event>) -> Restoration {
    let op = s.record.operations[i];
    let id = s.record.session_id;
    let of = Some(op.mutation.mutation_id);
    if op.state == OperationState::Restored {
        s
    } else if op.apply_receipt is None {
        if op.state == OperationState::Applying {
            doubted(
                s,
                transaction::session_error(
                    ErrorCode::JournalCorrupt,
                    "operation may have applied before its receipt became durable"@,
                    Stage::Recovery,
                    id,
                    of,
                ),
            )
        } else {
            s
        }
    } else if op.snapshot is None {
        doubted(
            s,
            transaction::session_error(
                ErrorCode::InvariantViolation,
                "applied operation is missing its original snapshot"@,
                Stage::Restore,
                id,
                of,
            ),
        )
    } else {
        let begun = Restoration {
            record: s.record.with_operation(
                i,
                OperationView { state: OperationState::Restoring, ..op },
            ),
            ..s
        };
        compared(kept(begun, events), i, op, events)
    }
}

/// The last changes are restored, from the last of all to the one at a position.
pub open spec fn restore_down(s: Restoration, n: int, k: int, events: Seq<Event>) -> Restoration
    decreases n - k,
{
    if k >= n {
        s
    } else {
        restore_step(restore_down(s, n, k + 1, events), k, events)
    }
}

/// A record with more failures.
pub open spec fn with_failures(record: RecordView, failures: Seq<ErrorView>) -> RecordView
    decreases failures.len(),
{
    if failures.len() == 0 {
        record
    } else {
        with_failures(record, failures.drop_last()).with_failure(failures.last())
    }
}

/// What comes of a restoration.
#[verifier::ext_equal]
pub struct RestoreEnd {
    pub at: int,
    pub fits: bool,
    pub record: RecordView,
    pub result: Result<SessionState, ErrorView>,
}

/// The end of a restoration. Without a failure the session counts as restored
/// once the record that says so is kept. With one it is degraded, or waits for
/// recovery where something is uncertain, and the first failure is the result.
#[verifier::opaque]
pub open spec fn restore_finished(s: Restoration, now: Timestamp, events: Seq<Event>) -> RestoreEnd {
    if s.failures.len() == 0 {
        if s.record.state == SessionState::Restored || session::may_follow(
            s.record.state,
            SessionState::Restored,
        ) {
            let record = if s.record.state == SessionState::Restored {
                s.record
            } else {
                s.record.stepped(
                    SessionState::Restored,
                    now,
                    "all captured originals verified"@,
                )
            };
            RestoreEnd {
                at: s.at + 1,
                fits: s.fits && asked(events, s.at, Call::Replace { record }),
                record,
                result: match events[s.at]->Replace_reply {
                    Ok(_) => Ok(SessionState::Restored),
                    Err(error) => Err(
                        transaction::in_context(
                            error,
                            Stage::Restore,
                            Some(record.session_id),
                            None,
                        ),
                    ),
                },
            }
        } else {
            RestoreEnd {
                at: s.at,
                fits: s.fits,
                record: s.record,
                result: Err(session::illegal_step()),
            }
        }
    } else {
        let noted = with_failures(s.record, s.failures);
        match transaction::unproven(noted, s.uncertain, now) {
            Ok(record) => RestoreEnd {
                at: s.at + 1,
                fits: s.fits && asked(events, s.at, Call::Replace { record }),
                record,
                result: Err(s.failures[0]),
            },
            Err(error) => RestoreEnd {
                at: s.at,
                fits: s.fits,
                record: noted,
                result: Err(error),
            },
        }
    }
}

/// A restoration of all changes of a session, from the last to the first.
#[verifier::opaque]
pub open spec fn restore_run(record: RecordView, events: Seq<Event>, at: int) -> RestoreEnd {
    let begun = Restoration {
        at: at + 1,
        fits: asked(events, at, Call::Now),
        record,
        failures: Seq::empty(),
        uncertain: false,
    };
    restore_finished(
        restore_down(begun, record.operations.len() as int, 0, events),
        time_or_epoch(events[at]->Now_reply),
        events,
    )
}

/// Whether a record was replaced durably by an event.
pub open spec fn is_replaced(e: Event, record: RecordView) -> bool {
    call(e) == (Call::Replace { record }) && e->Replace_reply is Ok
}

/// Whether a change that was applied and not restored yet is proven restored: the target
/// was read to hold the original again, by the coordinator or by the backend that gave it
/// back.
pub open spec fn proven_restored(before: OperationView, after: OperationView) -> bool {
    before.apply_receipt is Some && before.state != OperationState::Restored ==> {
        &&& after.mutation == before.mutation
        &&& after.snapshot == before.snapshot
        &&& after.snapshot is Some
        &&& after.restore_receipt is Some
        &&& transaction::restore_proven(
            after.mutation,
            after.snapshot->0,
            after.restore_receipt->0,
        )
    }
}

pub(crate) proof fn lemma_restore_step(s: Restoration, i: int, events: Seq<Event>)
    requires
        0 <= i < s.record.operations.len(),
    ensures
        ({
            let next = restore_step(s, i, events);
            &&& next.record.operations.len() == s.record.operations.len()
            &&& next.record.state == s.record.state
            &&& next.record.session_id == s.record.session_id
            &&& next.failures.len() >= s.failures.len()
            &&& next.fits ==> s.fits
            &&& next.failures.len() == 0 ==> session::undone(next.record.operations[i])
            &&& next.failures.len() == 0 ==> proven_restored(
                s.record.operations[i],
                next.record.operations[i],
            )
            &&& forall|j: int|
                0 <= j < s.record.operations.len() && j != i
                    ==> #[trigger] next.record.operations[j] == s.record.operations[j]
        }),
{
    reveal(restore_step);
}

pub(crate) proof fn lemma_restore_down(s: Restoration, n: int, k: int, events: Seq<Event>)
    requires
        0 <= k <= n == s.record.operations.len(),
    ensures
        ({
            let next = restore_down(s, n, k, events);
            &&& next.record.operations.len() == n
            &&& next.record.state == s.record.state
            &&& next.record.session_id == s.record.session_id
            &&& next.failures.len() >= s.failures.len()
            &&& next.failures.len() == 0 ==> forall|j: int|
                k <= j < n ==> {
                    &&& session::undone(#[trigger] next.record.operations[j])
                    &&& proven_restored(s.record.operations[j], next.record.operations[j])
                }
            &&& forall|j: int|
                0 <= j < k ==> #[trigger] next.record.operations[j] == s.record.operations[j]
        }),
    decreases n - k,
{
    if k < n {
        lemma_restore_down(s, n, k + 1, events);
        lemma_restore_step(restore_down(s, n, k + 1, events), k, events);
    }
}

/// A session counts as restored only when every one of its changes is undone, each that
/// was applied is proven to have left its target with the original, and the record that
/// says so was made durable last.
pub proof fn restored_means_undone(record: RecordView, events: Seq<Event>, at: int)
    requires
        restore_run(record, events, at).fits,
        restore_run(record, events, at).result is Ok,
    ensures
        restore_run(record, events, at).record.session_id == record.session_id,
        restore_run(record, events, at).record.state == SessionState::Restored,
        session::all_undone(restore_run(record, events, at).record.operations),
        restore_run(record, events, at).record.operations.len() == record.operations.len(),
        forall|i: int|
            0 <= i < record.operations.len() ==> proven_restored(
                #[trigger] record.operations[i],
                restore_run(record, events, at).record.operations[i],
            ),
        is_replaced(
            events[restore_run(record, events, at).at - 1],
            restore_run(record, events, at).record,
        ),
{
    reveal(restore_run);
    reveal(restore_finished);
    let begun = Restoration {
        at: at + 1,
        fits: asked(events, at, Call::Now),
        record,
        failures: Seq::empty(),
        uncertain: false,
    };
    lemma_restore_down(begun, record.operations.len() as int, 0, events);
}

/// A record is put on its way to restoration, durably, and restored.
#[verifier::opaque]
pub open spec fn resume_run(record: RecordView, events: Seq<Event>, at: int) -> RestoreEnd {
    let fits = asked(events, at, Call::Now);
    match events[at]->Now_reply {
        Err(error) => RestoreEnd {
            at: at + 1,
            fits,
            record,
            result: Err(ErrorView { stage: Some(Stage::Restore), ..error }),
        },
        Ok(now) => match transaction::restore_started(record, now) {
            Err(error) => RestoreEnd { at: at + 1, fits, record, result: Err(error) },
            Ok(started) => if started.state == SessionState::Restored {
                let end = restore_run(started, events, at + 1);
                RestoreEnd { fits: fits && end.fits, ..end }
            } else {
                let kept = fits && asked(events, at + 1, Call::Replace { record: started });
                match events[at + 1]->Replace_reply {
                    Err(error) => RestoreEnd {
                        at: at + 2,
                        fits: kept,
                        record: started,
                        result: Err(
                            transaction::in_context(
                                error,
                                Stage::Restore,
                                Some(started.session_id),
                                None,
                            ),
                        ),
                    },
                    Ok(_) => {
                        let end = restore_run(started, events, at + 2);
                        RestoreEnd { fits: kept && end.fits, ..end }
                    },
                }
            },
        },
    }
}

/// What comes of a request to the coordinator, and which session is held for
/// afterwards.
#[verifier::ext_equal]
pub struct Ending {
    pub at: int,
    pub fits: bool,
    pub result: Result<SessionState, ErrorView>,
    pub holds: Option<SessionId>,
}

/// Everything is rolled back after a failed apply. Where that succeeds the failure
/// that caused it is the result, and the lock is given back; else both failures
/// are reported together.
#[verifier::opaque]
pub open spec fn rollback_run(
    record: RecordView,
    trigger: ErrorView,
    held: Option<SessionId>,
    events: Seq<Event>,
    at: int,
) -> Ending {
    let started = transaction::rollback_started(record, time_or_epoch(events[at]->Now_reply));
    let left = match events[at + 1]->Replace_reply {
        Ok(_) => started,
        Err(error) => started.with_failure(
            transaction::in_context(error, Stage::Recovery, Some(record.session_id), None),
        ),
    };
    let end = restore_run(left, events, at + 2);
    Ending {
        at: end.at,
        fits: asked(events, at, Call::Now) && asked(
            events,
            at + 1,
            Call::Replace { record: started },
        ) && end.fits,
        result: Err(
            match end.result {
                Ok(_) => trigger,
                Err(rollback) => transaction::combined(trigger, rollback, record.session_id),
            },
        ),
        holds: match end.result {
            Ok(_) => transaction::released(held, record.session_id),
            Err(_) => held,
        },
    }
}

/// After a failed apply either every change is undone, by a record that was made
/// durable last, and the lock is given back; or the lock stays held, and what
/// failed and why it could not be rolled back are reported together.
pub proof fn failed_applies_are_undone_or_reported(
    record: RecordView,
    trigger: ErrorView,
    held: Option<SessionId>,
    events: Seq<Event>,
    at: int,
)
    requires
        rollback_run(record, trigger, held, events, at).fits,
    ensures
        ({
            let end = rollback_run(record, trigger, held, events, at);
            ||| {
                &&& end.result == Err::<SessionState, ErrorView>(trigger)
                &&& end.holds == transaction::released(held, record.session_id)
                &&& call(events[end.at - 1]) is Replace
                &&& events[end.at - 1]->Replace_reply is Ok
                &&& (events[end.at - 1]->Replace_record).session_id == record.session_id
                &&& (events[end.at - 1]->Replace_record).state == SessionState::Restored
                &&& session::all_undone((events[end.at - 1]->Replace_record).operations)
            }
            ||| {
                &&& end.holds == held
                &&& exists|rollback: ErrorView|
                    end.result == Err::<SessionState, ErrorView>(
                        #[trigger] transaction::combined(trigger, rollback, record.session_id),
                    )
            }
        }),
{
    reveal(rollback_run);
    let started = transaction::rollback_started(record, time_or_epoch(events[at]->Now_reply));
    let left = match events[at + 1]->Replace_reply {
        Ok(_) => started,
        Err(error) => started.with_failure(
            transaction::in_context(error, Stage::Recovery, Some(record.session_id), None),
        ),
    };
    if restore_run(left, events, at + 2).result is Ok {
        restored_means_undone(left, events, at + 2);
    } else {
        let rollback = restore_run(left, events, at + 2).result->Err_0;
        assert(rollback_run(record, trigger, held, events, at).result == Err::<
            SessionState,
            ErrorView,
        >(transaction::combined(trigger, rollback, record.session_id)));
    }
}

/// Why an apply goes no further.
pub enum Halt {
    /// It ends here.
    Stop(ErrorView),
    /// Everything is rolled back.
    RollBack(ErrorView),
}

/// How far an apply has come.
#[verifier::ext_equal]
pub struct Applying {
    pub at: int,
    pub fits: bool,
    pub record: RecordView,
    pub halt: Option<Halt>,
}

/// The record is kept in a step of an apply; where that fails everything is
/// rolled back.
pub open spec fn apply_kept(s: Applying, stage: Stage, events: Seq<Event>) -> Applying {
    let here = Applying {
        at: s.at + 1,
        fits: s.fits && asked(events, s.at, Call::Replace { record: s.record }),
        ..s
    };
    match events[s.at]->Replace_reply {
        Ok(_) => here,
        Err(error) => {
            let e = transaction::in_context(error, stage, Some(s.record.session_id), None);
            Applying { record: s.record.with_failure(e), halt: Some(Halt::RollBack(e)), ..here }
        },
    }
}

/// A change failed. The record that says so is kept, and everything is rolled
/// back whether that succeeds or not.
pub open spec fn apply_failed(
    s: Applying,
    record: RecordView,
    error: ErrorView,
    events: Seq<Event>,
) -> Applying {
    Applying {
        at: s.at + 1,
        fits: s.fits && asked(events, s.at, Call::Replace { record }),
        record,
        halt: Some(Halt::RollBack(error)),
    }
}

/// A record with a change marked as failed.
pub open spec fn failed(record: RecordView, i: int, error: ErrorView) -> RecordView {
    record.with_operation(
        i,
        OperationView { state: OperationState::Failed, ..record.operations[i] },
    ).with_failure(error)
}

/// A record with what reading back said.
pub open spec fn read(record: RecordView, i: int, verification: VerificationResult) -> RecordView {
    record.with_operation(
        i,
        OperationView {
            verification: Some(verification),
            state: if verification.matched {
                OperationState::Verified
            } else {
                record.operations[i].state
            },
            ..record.operations[i]
        },
    )
}

/// A change is read back after it was made.
pub open spec fn verified(
    s: Applying,
    i: int,
    session_id: SessionId,
    receipt: ApplyReceipt,
    events: Seq<Event>,
) -> Applying {
    let op = s.record.operations[i];
    let of = Some(op.mutation.mutation_id);
    let expected = receipt.ownership_fingerprint;
    let here = Applying {
        at: s.at + 1,
        fits: s.fits && asked(
            events,
            s.at,
            Call::Verify {
                mutation: op.mutation,
                expected,
                identity: (op.snapshot->0).target_identity,
            },
        ),
        ..s
    };
    match events[s.at]->Verify_reply {
        Ok(observed) => {
            let record = read(
                s.record,
                i,
                VerificationResult {
                    mutation_id: op.mutation.mutation_id,
                    expected,
                    observed: Some(observed),
                    matched: observed == expected,
                },
            );
            if observed == expected {
                apply_kept(Applying { record, ..here }, Stage::Verify, events)
            } else {
                let error = transaction::session_error(
                    ErrorCode::VerificationError,
                    "apply readback did not match the session-owned value"@,
                    Stage::Verify,
                    session_id,
                    of,
                );
                apply_failed(here, failed(record, i, error), error, events)
            }
        },
        Err(reply) => {
            let error = transaction::in_context(reply, Stage::Verify, Some(session_id), of);
            let record = read(
                s.record,
                i,
                VerificationResult {
                    mutation_id: op.mutation.mutation_id,
                    expected,
                    observed: None,
                    matched: false,
                },
            );
            apply_failed(here, failed(record, i, error), error, events)
        },
    }
}

/// A change is made, right after the record that announces it was kept.
pub open spec fn made(s: Applying, i: int, session_id: SessionId, events: Seq<Event>) -> Applying {
    let op = s.record.operations[i];
    let of = Some(op.mutation.mutation_id);
    let here = Applying {
        at: s.at + 1,
        fits: s.fits && asked(
            events,
            s.at,
            Call::Apply { mutation: op.mutation, snapshot: op.snapshot->0 },
        ),
        ..s
    };
    match events[s.at]->Apply_reply {
        Err(reply) => {
            let error = transaction::in_context(reply, Stage::Apply, Some(session_id), of);
            let record = if error.retryability != Retryability::Unknown {
                failed(s.record, i, error)
            } else {
                s.record.with_failure(error)
            };
            apply_failed(here, record, error, events)
        },
        Ok(receipt) => {
            let record = s.record.with_operation(
                i,
                OperationView {
                    apply_receipt: Some(receipt),
                    state: OperationState::Applied,
                    ..op
                },
            );
            if transaction::receipt_fits(op.mutation, receipt) {
                let next = apply_kept(Applying { record, ..here }, Stage::Apply, events);
                if next.halt is Some {
                    next
                } else {
                    verified(next, i, session_id, receipt, events)
                }
            } else {
                let error = transaction::session_error(
                    ErrorCode::ApplyError,
                    "backend apply receipt failed its typed identity or precondition checks"@,
                    Stage::Apply,
                    session_id,
                    of,
                );
                apply_failed(here, failed(record, i, error), error, events)
            }
        },
    }
}

/// One change is applied, unless there is nothing to be done for it any more.
#[verifier::opaque]
pub open spec fn apply_step(s: Applying, i: int, session_id: SessionId, events: Seq<Event>) -> Applying {
    let op = s.record.operations[i];
    let of = Some(op.mutation.mutation_id);
    match op.state {
        OperationState::Verified | OperationState::Restored => s,
        OperationState::IntentRecorded => {
            let begun = Applying {
                record: s.record.with_operation(
                    i,
                    OperationView { state: OperationState::Applying, ..op },
                ),
                ..s
            };
            let next = apply_kept(begun, Stage::Apply, events);
            if next.halt is Some {
                next
            } else if op.snapshot is None {
                Applying {
                    halt: Some(
                        Halt::Stop(
                            transaction::session_error(
                                ErrorCode::InvariantViolation,
                                "durable intent operation is missing its snapshot"@,
                                Stage::Apply,
                                session_id,
                                of,
                            ),
                        ),
                    ),
                    ..next
                }
            } else {
                made(next, i, session_id, events)
            }
        },
        OperationState::Applying => {
            let error = transaction::session_error(
                ErrorCode::JournalCorrupt,
                "crash-state shows an apply with no durable completion"@,
                Stage::Recovery,
                session_id,
                of,
            );
            Applying {
                record: s.record.with_failure(error),
                halt: Some(Halt::RollBack(error)),
                ..s
            }
        },
        _ => {
            let error = transaction::session_error(
                ErrorCode::InvariantViolation,
                "operation is not at durable intent before apply"@,
                Stage::Apply,
                session_id,
                of,
            );
            Applying {
                record: s.record.with_failure(error),
                halt: Some(Halt::RollBack(error)),
                ..s
            }
        },
    }
}

/// The first changes are applied in their order, up to the first that cannot be.
pub open spec fn apply_up(s: Applying, k: int, session_id: SessionId, events: Seq<Event>) -> Applying
    decreases k,
{
    if k <= 0 {
        s
    } else {
        let before = apply_up(s, k - 1, session_id, events);
        if before.halt is Some {
            before
        } else {
            apply_step(before, k - 1, session_id, events)
        }
    }
}

/// Nothing is applied any more once an apply goes no further.
pub proof fn halted_applies_stay(
    s: Applying,
    k: int,
    n: int,
    session_id: SessionId,
    events: Seq<Event>,
)
    requires
        k <= n,
        apply_up(s, k, session_id, events).halt is Some,
    ensures
        apply_up(s, n, session_id, events) == apply_up(s, k, session_id, events),
    decreases n - k,
{
    if k < n {
        halted_applies_stay(s, k, n - 1, session_id, events);
        if n <= 0 {
            assert(apply_up(s, n, session_id, events) == s);
        }
    }
}

/// The end of an apply: once every change is verified, the session is active as
/// soon as the record that says so is kept.
#[verifier::opaque]
pub open spec fn apply_finished(s: Applying, held: Option<SessionId>, events: Seq<Event>) -> Ending {
    match s.halt {
        Some(Halt::Stop(error)) => Ending {
            at: s.at,
            fits: s.fits,
            result: Err(error),
            holds: held,
        },
        Some(Halt::RollBack(error)) => {
            let end = rollback_run(s.record, error, held, events, s.at);
            Ending { fits: s.fits && end.fits, ..end }
        },
        None => {
            let fits = s.fits && asked(events, s.at, Call::Now);
            match events[s.at]->Now_reply {
                Err(error) => Ending {
                    at: s.at + 1,
                    fits,
                    result: Err(ErrorView { stage: Some(Stage::Verify), ..error }),
                    holds: held,
                },
                Ok(now) => {
                    let record = s.record.stepped(
                        SessionState::Active,
                        now,
                        "all ordered applies and readbacks verified"@,
                    );
                    let active = apply_kept(
                        Applying { at: s.at + 1, fits, record, halt: None },
                        Stage::Verify,
                        events,
                    );
                    match active.halt {
                        Some(Halt::RollBack(error)) => {
                            let end = rollback_run(active.record, error, held, events, active.at);
                            Ending { fits: active.fits && end.fits, ..end }
                        },
                        _ => Ending {
                            at: active.at,
                            fits: active.fits,
                            result: Ok(SessionState::Active),
                            holds: held,
                        },
                    }
                },
            }
        },
    }
}

/// All changes of a session that stands at its durable intent are applied.
pub open spec fn apply_run(
    record: RecordView,
    session_id: SessionId,
    held: Option<SessionId>,
    events: Seq<Event>,
    at: int,
) -> Ending {
    let fits = asked(events, at, Call::Now);
    match events[at]->Now_reply {
        Err(error) => Ending {
            at: at + 1,
            fits,
            result: Err(ErrorView { stage: Some(Stage::Apply), ..error }),
            holds: held,
        },
        Ok(now) => {
            let started = record.stepped(
                SessionState::Applying,
                now,
                "ordered mutation application started"@,
            );
            let begun = apply_kept(
                Applying { at: at + 1, fits, record: started, halt: None },
                Stage::Apply,
                events,
            );
            if begun.halt is Some {
                apply_finished(begun, held, events)
            } else {
                apply_finished(
                    apply_up(begun, record.operations.len() as int, session_id, events),
                    held,
                    events,
                )
            }
        },
    }
}

/// A session is applied on request. Nothing is done unless the lock is held for
/// it, and then what its durable record allows.
pub open spec fn apply_request(
    session_id: SessionId,
    held: Option<SessionId>,
    events: Seq<Event>,
    at: int,
) -> Ending {
    match transaction::lease_refusal(held, session_id) {
        Some(refusal) => Ending { at, fits: true, result: Err(refusal), holds: held },
        None => {
            let fits = asked(events, at, Call::Load { session_id });
            match events[at]->Load_reply {
                Err(error) => Ending {
                    at: at + 1,
                    fits,
                    result: Err(
                        transaction::in_context(error, Stage::Recovery, Some(session_id), None),
                    ),
                    holds: held,
                },
                Ok(record) => match transaction::apply_reply(record, session_id) {
                    Some(answer) => Ending {
                        at: at + 1,
                        fits,
                        result: answer,
                        holds: if record.state == SessionState::Restored {
                            transaction::released(held, session_id)
                        } else {
                            held
                        },
                    },
                    None => {
                        let end = apply_run(record, session_id, held, events, at + 1);
                        Ending { fits: fits && end.fits, ..end }
                    },
                },
            }
        },
    }
}

/// A session is restored on request. Without the lock it can only be found to be
/// restored already.
pub open spec fn restore_request(
    session_id: SessionId,
    held: Option<SessionId>,
    events: Seq<Event>,
    at: int,
) -> Ending {
    if held is Some && held != Some(session_id) {
        Ending {
            at,
            fits: true,
            result: Err(transaction::lease_refusal(held, session_id)->0),
            holds: held,
        }
    } else {
        let fits = asked(events, at, Call::Load { session_id });
        match events[at]->Load_reply {
            Err(error) => Ending {
                at: at + 1,
                fits,
                result: Err(
                    transaction::in_context(error, Stage::Recovery, Some(session_id), None),
                ),
                holds: held,
            },
            Ok(record) => if record.state == SessionState::Restored {
                Ending { at: at + 1, fits, result: Ok(SessionState::Restored), holds: None }
            } else if held is None {
                Ending {
                    at: at + 1,
                    fits,
                    result: Err(transaction::lease_refusal(None, session_id)->0),
                    holds: None,
                }
            } else {
                let end = resume_run(record, events, at + 1);
                Ending {
                    at: end.at,
                    fits: fits && end.fits,
                    result: end.result,
                    holds: match end.result {
                        Ok(_) => None,
                        Err(_) => held,
                    },
                }
            },
        }
    }
}

/// What comes of preparing a plan.
#[verifier::ext_equal]
pub struct PrepareEnd {
    pub at: int,
    pub fits: bool,
    pub result: Result<SessionId, ErrorView>,
}

/// A record is created under a new identity. One that is taken already is
/// replaced by the next, a bounded number of times.
pub open spec fn naming_run(
    plan: PlanDataView,
    now: Timestamp,
    snapshots: Seq<SnapshotView>,
    attempts: nat,
    events: Seq<Event>,
    at: int,
) -> PrepareEnd
    decreases attempts,
{
    if attempts == 0 {
        PrepareEnd {
            at,
            fits: true,
            result: Err(
                crate::error::staged(
                    ErrorCode::InvariantViolation,
                    "unable to allocate a unique boost session ID"@,
                    Stage::DurableIntent,
                ),
            ),
        }
    } else {
        let fits = asked(events, at, Call::NextId);
        match events[at]->NextId_reply {
            Err(error) => PrepareEnd {
                at: at + 1,
                fits,
                result: Err(ErrorView { stage: Some(Stage::DurableIntent), ..error }),
            },
            Ok(session_id) => {
                let record = transaction::prepared_record(session_id, plan, now, snapshots);
                let created = fits && asked(events, at + 1, Call::Create { record });
                match events[at + 1]->Create_reply {
                    Ok(_) => PrepareEnd { at: at + 2, fits: created, result: Ok(session_id) },
                    Err(error) => if error.code == ErrorCode::InvariantViolation {
                        let end = naming_run(
                            plan,
                            now,
                            snapshots,
                            (attempts - 1) as nat,
                            events,
                            at + 2,
                        );
                        PrepareEnd { fits: created && end.fits, ..end }
                    } else {
                        PrepareEnd {
                            at: at + 2,
                            fits: created,
                            result: Err(
                                transaction::in_context(
                                    error,
                                    Stage::DurableIntent,
                                    Some(session_id),
                                    None,
                                ),
                            ),
                        }
                    },
                }
            },
        }
    }
}

/// What every target of a plan holds is read, in order, up to the first that is
/// refused.
pub open spec fn reading_run(
    plan: PlanDataView,
    now: Timestamp,
    snapshots: Seq<SnapshotView>,
    events: Seq<Event>,
    at: int,
) -> PrepareEnd
    decreases plan.mutations.len() - snapshots.len(),
{
    if snapshots.len() >= plan.mutations.len() {
        naming_run(
            plan,
            now,
            snapshots,
            transaction::MAX_IDENTITY_ATTEMPTS as nat,
            events,
            at,
        )
    } else {
        let mutation = plan.mutations[snapshots.len() as int];
        let fits = asked(events, at, Call::Snapshot { mutation, now });
        match events[at]->Snapshot_reply {
            Err(error) => PrepareEnd {
                at: at + 1,
                fits,
                result: Err(
                    transaction::in_context(
                        error,
                        Stage::Snapshot,
                        None,
                        Some(mutation.mutation_id),
                    ),
                ),
            },
            Ok(snapshot) => match transaction::snapshot_refusal(mutation, snapshot) {
                Some(refusal) => PrepareEnd { at: at + 1, fits, result: Err(refusal) },
                None => {
                    let end = reading_run(plan, now, snapshots.push(snapshot), events, at + 1);
                    PrepareEnd { fits: fits && end.fits, ..end }
                },
            },
        }
    }
}

/// What comes of getting ready for a new session.
#[verifier::ext_equal]
pub struct OpeningEnd {
    pub at: int,
    pub fits: bool,
    pub result: Result<Timestamp, ErrorView>,
}

/// The lock is taken, and the time, where no session is unfinished.
pub open spec fn opening_run(events: Seq<Event>, at: int) -> OpeningEnd {
    let locked = asked(events, at, Call::Acquire);
    let alone = locked && asked(events, at + 1, Call::LoadUnfinished);
    let timed = alone && asked(events, at + 2, Call::Now);
    match events[at]->Acquire_reply {
        Err(error) => OpeningEnd {
            at: at + 1,
            fits: locked,
            result: Err(
                ErrorView {
                    stage: Some(Stage::DurableIntent),
                    retryability: Retryability::Retry,
                    ..error
                },
            ),
        },
        Ok(_) => match events[at + 1]->LoadUnfinished_reply {
            Err(error) => OpeningEnd {
                at: at + 2,
                fits: alone,
                result: Err(ErrorView { stage: Some(Stage::Recovery), ..error }),
            },
            Ok(records) => if records.len() > 0 {
                OpeningEnd {
                    at: at + 2,
                    fits: alone,
                    result: Err(
                        ErrorView {
                            retryability: Retryability::AfterRecovery,
                            ..crate::error::staged(
                                ErrorCode::AuthorizationError,
                                "an unfinished session requires recovery before a new mutation"@,
                                Stage::Recovery,
                            )
                        },
                    ),
                }
            } else {
                OpeningEnd {
                    at: at + 3,
                    fits: timed,
                    result: match events[at + 2]->Now_reply {
                        Ok(now) => Ok(now),
                        Err(error) => Err(ErrorView { stage: Some(Stage::Detect), ..error }),
                    },
                }
            },
        },
    }
}

/// A plan is prepared: under the lock, and only where no session is unfinished,
/// every target is read and the intent to change them is made durable.
#[verifier::opaque]
pub open spec fn prepare_run(
    plan: PlanDataView,
    held: Option<SessionId>,
    events: Seq<Event>,
    at: int,
) -> PrepareEnd {
    match transaction::plan_refusal(held, plan) {
        Some(refusal) => PrepareEnd { at, fits: true, result: Err(refusal) },
        None => {
            let opened = opening_run(events, at);
            match opened.result {
                Err(error) => PrepareEnd {
                    at: opened.at,
                    fits: opened.fits,
                    result: Err(error),
                },
                Ok(now) => {
                    let end = reading_run(plan, now, Seq::empty(), events, opened.at);
                    PrepareEnd { fits: opened.fits && end.fits, ..end }
                },
            }
        },
    }
}

/// Whether a record was made durable by an event.
pub open spec fn is_created(e: Event, record: RecordView) -> bool {
    call(e) == (Call::Create { record }) && e->Create_reply is Ok
}

proof fn lemma_named(
    plan: PlanDataView,
    now: Timestamp,
    snapshots: Seq<SnapshotView>,
    attempts: nat,
    events: Seq<Event>,
    at: int,
)
    requires
        naming_run(plan, now, snapshots, attempts, events, at).fits,
        naming_run(plan, now, snapshots, attempts, events, at).result is Ok,
    ensures
        ({
            let end = naming_run(plan, now, snapshots, attempts, events, at);
            &&& at < end.at <= events.len()
            &&& is_created(
                events[end.at - 1],
                transaction::prepared_record(end.result->Ok_0, plan, now, snapshots),
            )
        }),
    decreases attempts,
{
    match events[at + 1]->Create_reply {
        Ok(_) => {},
        Err(_) => {
            lemma_named(plan, now, snapshots, (attempts - 1) as nat, events, at + 2);
        },
    }
}

proof fn lemma_read(
    plan: PlanDataView,
    now: Timestamp,
    snapshots: Seq<SnapshotView>,
    events: Seq<Event>,
    at: int,
) -> (all: Seq<SnapshotView>)
    requires
        snapshots.len() <= plan.mutations.len(),
        forall|i: int|
            0 <= i < snapshots.len() ==> transaction::snapshot_refusal(
                plan.mutations[i],
                #[trigger] snapshots[i],
            ) is None,
        reading_run(plan, now, snapshots, events, at).fits,
        reading_run(plan, now, snapshots, events, at).result is Ok,
    ensures
        transaction::all_admitted(plan.mutations, all),
        forall|i: int| 0 <= i < snapshots.len() ==> #[trigger] all[i] == snapshots[i],
        forall|i: int|
            snapshots.len() <= i < all.len() ==> events[at + i - snapshots.len()] == (
            Event::Snapshot { mutation: plan.mutations[i], now, reply: Ok(#[trigger] all[i]) }),
        ({
            let end = reading_run(plan, now, snapshots, events, at);
            &&& at < end.at <= events.len()
            &&& is_created(
                events[end.at - 1],
                transaction::prepared_record(end.result->Ok_0, plan, now, all),
            )
        }),
    decreases plan.mutations.len() - snapshots.len(),
{
    if snapshots.len() >= plan.mutations.len() {
        lemma_named(
            plan,
            now,
            snapshots,
            transaction::MAX_IDENTITY_ATTEMPTS as nat,
            events,
            at,
        );
        snapshots
    } else {
        let snapshot = events[at]->Snapshot_reply->Ok_0;
        let all = lemma_read(plan, now, snapshots.push(snapshot), events, at + 1);
        assert forall|i: int| 0 <= i < snapshots.len() implies #[trigger] all[i] == snapshots[i] by {
            assert(snapshots.push(snapshot)[i] == snapshots[i]);
        }
        assert(all[snapshots.len() as int] == snapshots.push(snapshot)[snapshots.len() as int]);
        assert forall|i: int| snapshots.len() <= i < all.len() implies events[at + i
            - snapshots.len()] == (Event::Snapshot {
            mutation: plan.mutations[i],
            now,
            reply: Ok(#[trigger] all[i]),
        }) by {
            if i > snapshots.len() {
                assert(events[at + 1 + i - (snapshots.len() + 1)] == (Event::Snapshot {
                    mutation: plan.mutations[i],
                    now,
                    reply: Ok(all[i]),
                }));
            }
        }
        all
    }
}

/// A plan is prepared only once what every one of its targets holds was read from
/// the backend, was what planning saw, and stands in a record that was made
/// durable.
pub proof fn prepared_intents_are_complete(
    plan: PlanDataView,
    held: Option<SessionId>,
    events: Seq<Event>,
    at: int,
)
    requires
        prepare_run(plan, held, events, at).fits,
        prepare_run(plan, held, events, at).result is Ok,
    ensures
        held is None,
        exists|now: Timestamp, snapshots: Seq<SnapshotView>|
            {
                &&& transaction::all_admitted(plan.mutations, snapshots)
                &&& forall|i: int|
                    0 <= i < snapshots.len() ==> events[at + 3 + i] == (Event::Snapshot {
                        mutation: plan.mutations[i],
                        now,
                        reply: Ok(#[trigger] snapshots[i]),
                    })
                &&& is_created(
                    events[prepare_run(plan, held, events, at).at - 1],
                    #[trigger] transaction::prepared_record(
                        prepare_run(plan, held, events, at).result->Ok_0,
                        plan,
                        now,
                        snapshots,
                    ),
                )
            },
{
    reveal(prepare_run);
    let now = opening_run(events, at).result->Ok_0;
    let all = lemma_read(plan, now, Seq::empty(), events, at + 3);
    assert forall|i: int| 0 <= i < all.len() implies events[at + 3 + i] == (Event::Snapshot {
        mutation: plan.mutations[i],
        now,
        reply: Ok(#[trigger] all[i]),
    }) by {
        assert(events[at + 3 + i - 0] == (Event::Snapshot {
            mutation: plan.mutations[i],
            now,
            reply: Ok(all[i]),
        }));
    }
    let record = transaction::prepared_record(
        prepare_run(plan, held, events, at).result->Ok_0,
        plan,
        now,
        all,
    );
    assert(is_created(events[prepare_run(plan, held, events, at).at - 1], record));
}

/// How far a recovery has come.
#[verifier::ext_equal]
pub struct Recovery {
    pub at: int,
    pub fits: bool,
    pub statuses: Seq<TransactionStatus>,
    pub error: Option<ErrorView>,
}

/// One unfinished session is restored. The first failure is remembered.
pub open spec fn recover_step(s: Recovery, record: RecordView, events: Seq<Event>) -> Recovery {
    let end = resume_run(record, events, s.at);
    Recovery {
        at: end.at,
        fits: s.fits && end.fits,
        statuses: s.statuses.push(
            TransactionStatus {
                session_id: record.session_id,
                state: match end.result {
                    Ok(state) => state,
                    Err(_) => end.record.state,
                },
            },
        ),
        error: match (s.error, end.result) {
            (None, Err(e)) => Some(e),
            (error, _) => error,
        },
    }
}

/// The first sessions are restored, each whatever came of those before it.
pub open spec fn recover_up(s: Recovery, records: Seq<RecordView>, k: int, events: Seq<Event>) -> Recovery
    decreases k,
{
    if k <= 0 {
        s
    } else {
        recover_step(recover_up(s, records, k - 1, events), records[k - 1], events)
    }
}

/// The position of the first session that is not restored, from a position on;
/// where all are, none.
pub open spec fn first_unresolved(statuses: Seq<TransactionStatus>, i: int) -> Option<int>
    decreases statuses.len() - i,
{
    if i >= statuses.len() {
        None
    } else if statuses[i].state != SessionState::Restored {
        Some(i)
    } else {
        first_unresolved(statuses, i + 1)
    }
}

/// The session that the lock stays held for after a failed recovery.
pub open spec fn unresolved(statuses: Seq<TransactionStatus>) -> SessionId {
    match first_unresolved(statuses, 0) {
        Some(i) => statuses[i].session_id,
        None => statuses[0].session_id,
    }
}

/// What comes of a recovery.
#[verifier::ext_equal]
pub struct RecoverEnd {
    pub at: int,
    pub fits: bool,
    pub result: Result<Seq<TransactionStatus>, ErrorView>,
    pub holds: Option<SessionId>,
}

/// All unfinished sessions are restored, in the order of their identities. The
/// lock is given back only where all of them are.
pub open spec fn recover_request(held: Option<SessionId>, events: Seq<Event>, at: int) -> RecoverEnd {
    if held is Some {
        RecoverEnd {
            at,
            fits: true,
            result: Err(
                crate::error::error_view(
                    ErrorCode::AuthorizationError,
                    "cannot recover while this coordinator owns an active session"@,
                ),
            ),
            holds: held,
        }
    } else {
        let locked = asked(events, at, Call::Acquire);
        let listed = locked && asked(events, at + 1, Call::LoadUnfinished);
        match events[at]->Acquire_reply {
            Err(_) => RecoverEnd {
                at: at + 1,
                fits: locked,
                result: Err(transaction::recovery_error(events[at])),
                holds: None,
            },
            Ok(_) => match events[at + 1]->LoadUnfinished_reply {
                Err(_) => RecoverEnd {
                    at: at + 2,
                    fits: listed,
                    result: Err(transaction::recovery_error(events[at + 1])),
                    holds: None,
                },
                Ok(records) => {
                    let begun = Recovery {
                        at: at + 2,
                        fits: listed,
                        statuses: Seq::empty(),
                        error: None,
                    };
                    let s = recover_up(
                        begun,
                        transaction::by_session(records),
                        records.len() as int,
                        events,
                    );
                    RecoverEnd {
                        at: s.at,
                        fits: s.fits,
                        result: match s.error {
                            None => Ok(s.statuses),
                            Some(error) => Err(error),
                        },
                        holds: match s.error {
                            None => None,
                            Some(_) => Some(unresolved(s.statuses)),
                        },
                    }
                },
            },
        }
    }
}

/// What comes of dropping a prepared session.
#[verifier::ext_equal]
pub struct AbortEnd {
    pub at: int,
    pub fits: bool,
    pub result: Result<(), ErrorView>,
    pub holds: Option<SessionId>,
}

/// A prepared session is dropped on request, if nothing of it was applied.
pub open spec fn abort_request(
    session_id: SessionId,
    held: Option<SessionId>,
    events: Seq<Event>,
    at: int,
) -> AbortEnd {
    match transaction::lease_refusal(held, session_id) {
        Some(refusal) => AbortEnd { at, fits: true, result: Err(refusal), holds: held },
        None => {
            let loaded = asked(events, at, Call::Load { session_id });
            let removed = loaded && asked(events, at + 1, Call::Remove { session_id });
            match events[at]->Load_reply {
                Ok(record) => if transaction::unapplied(record) {
                    match events[at + 1]->Remove_reply {
                        Ok(_) => AbortEnd {
                            at: at + 2,
                            fits: removed,
                            result: Ok(()),
                            holds: None,
                        },
                        Err(_) => AbortEnd {
                            at: at + 2,
                            fits: removed,
                            result: Err(transaction::abort_error(events[at + 1], session_id)),
                            holds: held,
                        },
                    }
                } else {
                    AbortEnd {
                        at: at + 1,
                        fits: loaded,
                        result: Err(transaction::abort_error(events[at], session_id)),
                        holds: held,
                    }
                },
                Err(_) => AbortEnd {
                    at: at + 1,
                    fits: loaded,
                    result: Err(transaction::abort_error(events[at], session_id)),
                    holds: held,
                },
            }
        },
    }
}

} // verus!
