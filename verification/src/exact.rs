//! Whatever becomes of a session, once it is restored the host is as it was.

use vstd::prelude::*;

use crate::backend::MutationBackend;
use crate::clock::{Clock, Timestamp};
use crate::error::{ErrorCode, ErrorView, Retryability, Stage};
use crate::ids::{SessionId, StateFingerprint, TargetIdentity};
use crate::mutation::{
    ApplyReceipt, MutationView, PlanDataView, RestoreReceipt, SnapshotView, VerificationResult,
};
use crate::privilege;
use crate::privilege::{PrivilegeService, SessionHandle};
use crate::schedule;
use crate::schedule::{Applying, Call, Ending, Halt, PrepareEnd, RecoverEnd, Recovery, Restoration};
use crate::session;
use crate::session::{OperationState, OperationView, RecordView, SessionState};
use crate::state::{ExclusiveSessionLock, SessionIdSource, SessionStateStore};
use crate::trace;
use crate::trace::{Step, World};
use crate::transaction;
use crate::transaction::{Event, TransactionEngine, TransactionStatus};

verus! {

/// What became of a change of a session.
pub enum Mark {
    /// It was not made.
    Never,
    /// It was made, and left this in its target.
    Left(StateFingerprint),
    /// It was made, and its target holds the original again.
    Back,
}

/// A backend over a host in memory: what it does goes by what the host holds, and by
/// nothing else.
pub(crate) trait InMemory: MutationBackend + Sized {
    type Model;

    /// What the host holds.
    spec fn held(&self) -> Self::Model;

    /// Whether what is held is all that the backend goes by.
    spec fn sound(held: Self::Model) -> bool;

    /// What snapshotting a change gives.
    spec fn snapshot_by(held: Self::Model, mutation: MutationView, now: Timestamp) -> Result<
        SnapshotView,
        ErrorView,
    >;

    /// What applying a change leaves and answers.
    spec fn apply_by(held: Self::Model, mutation: MutationView, snapshot: SnapshotView) -> (
        Self::Model,
        Result<ApplyReceipt, ErrorView>,
    );

    /// What reading back a change answers.
    spec fn verify_by(
        held: Self::Model,
        mutation: MutationView,
        identity: TargetIdentity,
    ) -> Result<StateFingerprint, ErrorView>;

    /// What restoring a change leaves and answers.
    spec fn restore_by(
        held: Self::Model,
        mutation: MutationView,
        snapshot: SnapshotView,
        ownership: StateFingerprint,
    ) -> (Self::Model, Result<RestoreReceipt, ErrorView>);

    /// Whether a change can be given back if it is made to what is held.
    spec fn suits(held: Self::Model, mutation: MutationView, snapshot: SnapshotView) -> bool;

    /// Whether snapshots were taken of a host for changes that can be told from what was
    /// there.
    spec fn planned(
        start: Self::Model,
        mutations: Seq<MutationView>,
        snapshots: Seq<SnapshotView>,
    ) -> bool;

    /// Whether a host holds what it held at the start, but for what some changes left in
    /// their targets.
    spec fn stands(
        start: Self::Model,
        mutations: Seq<MutationView>,
        snapshots: Seq<SnapshotView>,
        made: Seq<Mark>,
        held: Self::Model,
    ) -> bool;

    /// Whether a host is as it was.
    spec fn same(start: Self::Model, held: Self::Model) -> bool;

    proof fn lemma_begin(
        start: Self::Model,
        mutations: Seq<MutationView>,
        snapshots: Seq<SnapshotView>,
        made: Seq<Mark>,
    )
        requires
            Self::planned(start, mutations, snapshots),
            made.len() == mutations.len(),
            forall|j: int| 0 <= j < made.len() ==> (#[trigger] made[j]) is Never,
        ensures
            Self::stands(start, mutations, snapshots, made, start),
    ;

    proof fn lemma_made(
        start: Self::Model,
        mutations: Seq<MutationView>,
        snapshots: Seq<SnapshotView>,
        made: Seq<Mark>,
        held: Self::Model,
        k: int,
    )
        requires
            mutations.len() == snapshots.len(),
            Self::planned(start, mutations, snapshots),
            Self::stands(start, mutations, snapshots, made, held),
            made.len() == mutations.len(),
            0 <= k < mutations.len(),
            forall|j: int| 0 <= j < k ==> (#[trigger] made[j]) is Left,
            forall|j: int| k <= j < made.len() ==> (#[trigger] made[j]) is Never,
            Self::suits(held, mutations[k], snapshots[k]),
        ensures
            ({
                let (after, reply) = Self::apply_by(held, mutations[k], snapshots[k]);
                match reply {
                    Ok(receipt) => {
                        &&& receipt.ownership_fingerprint != snapshots[k].original_fingerprint
                        &&& Self::stands(
                            start,
                            mutations,
                            snapshots,
                            made.update(k, Mark::Left(receipt.ownership_fingerprint)),
                            after,
                        )
                    },
                    Err(e) => e.retryability != Retryability::Unknown ==> Self::stands(
                        start,
                        mutations,
                        snapshots,
                        made,
                        after,
                    ),
                }
            }),
    ;

    proof fn lemma_seen(
        start: Self::Model,
        mutations: Seq<MutationView>,
        snapshots: Seq<SnapshotView>,
        made: Seq<Mark>,
        held: Self::Model,
        k: int,
    )
        requires
            mutations.len() == snapshots.len(),
            Self::planned(start, mutations, snapshots),
            Self::stands(start, mutations, snapshots, made, held),
            made.len() == mutations.len(),
            0 <= k < mutations.len(),
            !(made[k] is Never),
        ensures
            Self::verify_by(held, mutations[k], snapshots[k].target_identity) == Ok::<
                StateFingerprint,
                ErrorView,
            >(
                match made[k] {
                    Mark::Left(owned) => owned,
                    _ => snapshots[k].original_fingerprint,
                },
            ),
            made[k] != Mark::Left(snapshots[k].original_fingerprint),
    ;

    proof fn lemma_undone(
        start: Self::Model,
        mutations: Seq<MutationView>,
        snapshots: Seq<SnapshotView>,
        made: Seq<Mark>,
        held: Self::Model,
        k: int,
        owned: StateFingerprint,
    )
        requires
            mutations.len() == snapshots.len(),
            Self::planned(start, mutations, snapshots),
            Self::stands(start, mutations, snapshots, made, held),
            made.len() == mutations.len(),
            0 <= k < mutations.len(),
            made[k] == Mark::Left(owned),
        ensures
            ({
                let (after, reply) = Self::restore_by(held, mutations[k], snapshots[k], owned);
                ||| Self::stands(start, mutations, snapshots, made.update(k, Mark::Back), after)
                ||| reply is Err && Self::stands(start, mutations, snapshots, made, after)
            }),
    ;

    proof fn lemma_nothing_left(
        start: Self::Model,
        mutations: Seq<MutationView>,
        snapshots: Seq<SnapshotView>,
        made: Seq<Mark>,
        held: Self::Model,
    )
        requires
            mutations.len() == snapshots.len(),
            Self::planned(start, mutations, snapshots),
            Self::stands(start, mutations, snapshots, made, held),
            made.len() == mutations.len(),
            forall|j: int| 0 <= j < made.len() ==> !((#[trigger] made[j]) is Left),
        ensures
            Self::same(start, held),
    ;

    proof fn lemma_snapshot(
        &self,
        mutation: MutationView,
        now: Timestamp,
        reply: Result<SnapshotView, ErrorView>,
    )
        requires
            Self::sound(self.held()),
            self.may_snapshot(mutation, now, reply),
            (self.conduct().snapshots)(self.shown(), mutation, now, reply),
        ensures
            reply == Self::snapshot_by(self.held(), mutation, now),
    ;

    proof fn lemma_apply(
        &self,
        after: &Self,
        mutation: MutationView,
        snapshot: SnapshotView,
        reply: Result<ApplyReceipt, ErrorView>,
    )
        requires
            Self::sound(self.held()),
            self.may_apply(after.shown(), mutation, snapshot, reply),
            after.conduct() == self.conduct(),
            (self.conduct().applies)(self.shown(), after.shown(), mutation, snapshot, reply),
        ensures
            (after.held(), reply) == Self::apply_by(self.held(), mutation, snapshot),
            Self::sound(after.held()),
    ;

    proof fn lemma_verify(
        &self,
        mutation: MutationView,
        expected: StateFingerprint,
        identity: TargetIdentity,
        reply: Result<StateFingerprint, ErrorView>,
    )
        requires
            Self::sound(self.held()),
            self.may_verify(mutation, expected, identity, reply),
            (self.conduct().verifies)(self.shown(), mutation, identity, reply),
        ensures
            reply == Self::verify_by(self.held(), mutation, identity),
    ;

    proof fn lemma_restore(
        &self,
        after: &Self,
        mutation: MutationView,
        snapshot: SnapshotView,
        ownership: StateFingerprint,
        reply: Result<RestoreReceipt, ErrorView>,
    )
        requires
            Self::sound(self.held()),
            self.may_restore(after.shown(), mutation, snapshot, ownership, reply),
            after.conduct() == self.conduct(),
            (self.conduct().restores)(
                self.shown(),
                after.shown(),
                mutation,
                snapshot,
                ownership,
                reply,
            ),
        ensures
            (after.held(), reply) == Self::restore_by(self.held(), mutation, snapshot, ownership),
            Self::sound(after.held()),
    ;
}

/// What an event does to a host.
spec fn host_step<B: InMemory>(before: B::Model, e: Event, after: B::Model) -> bool {
    match e {
        Event::Snapshot { mutation, now, reply } => reply == B::snapshot_by(before, mutation, now)
            && after == before,
        Event::Apply { mutation, snapshot, reply } => (after, reply) == B::apply_by(
            before,
            mutation,
            snapshot,
        ),
        Event::Verify { mutation, identity, reply, .. } => reply == B::verify_by(
            before,
            mutation,
            identity,
        ) && after == before,
        Event::Restore { mutation, snapshot, ownership, reply } => (after, reply) == B::restore_by(
            before,
            mutation,
            snapshot,
            ownership,
        ),
        _ => after == before,
    }
}

/// Whether a host goes through these states by these events.
spec fn hosts_follow<B: InMemory>(
    models: Seq<B::Model>,
    events: Seq<Event>,
    lo: int,
    hi: int,
) -> bool {
    &&& 0 <= lo <= hi <= events.len()
    &&& hi < models.len()
    &&& forall|k: int| lo <= k < hi ==> host_step::<B>(models[k], #[trigger] events[k], models[k + 1])
}

proof fn lemma_answered_step<B, S, L, G, C>(step: Step<B, S, L, G, C>) where
    B: InMemory,
    S: SessionStateStore,
    L: ExclusiveSessionLock,
    G: SessionIdSource,
    C: Clock,

    requires
        trace::answered(step),
        B::sound(step.before.backend.held()),
    ensures
        host_step::<B>(step.before.backend.held(), step.event, step.after.backend.held()),
        B::sound(step.after.backend.held()),
{
    let backend = step.before.backend;
    let after = step.after.backend;
    match step.event {
        Event::Snapshot { mutation, now, reply } => {
            backend.lemma_snapshot(mutation, now, reply);
        },
        Event::Verify { mutation, expected, identity, reply, .. } => {
            backend.lemma_verify(mutation, expected, identity, reply);
        },
        Event::Apply { mutation, snapshot, reply } => {
            backend.lemma_apply(&after, mutation, snapshot, reply);
        },
        Event::Restore { mutation, snapshot, ownership, reply } => {
            backend.lemma_restore(&after, mutation, snapshot, ownership, reply);
        },
        _ => {},
    }
}

/// Whether every change was made to what it suits.
spec fn all_suit<B: InMemory>(
    models: Seq<B::Model>,
    events: Seq<Event>,
    lo: int,
    hi: int,
) -> bool {
    forall|k: int|
        lo <= k < hi && #[trigger] events[k] is Apply ==> B::suits(
            models[k],
            events[k]->Apply_mutation,
            events[k]->Apply_snapshot,
        )
}

/// Whether snapshots were taken of a host for changes, each of which was planned for
/// what the host held.
pub(crate) open spec fn captured<B: InMemory>(
    model: B::Model,
    mutations: Seq<MutationView>,
    snapshots: Seq<SnapshotView>,
    now: Timestamp,
) -> bool {
    &&& mutations.len() == snapshots.len()
    &&& forall|i: int|
        0 <= i < mutations.len() ==> {
            &&& B::snapshot_by(model, #[trigger] mutations[i], now) == Ok::<
                SnapshotView,
                ErrorView,
            >(snapshots[i])
            &&& snapshots[i].original_fingerprint == mutations[i].precondition
        }
}

/// The states that a host goes through, by the steps of a coordinator.
proof fn lemma_models<B, S, L, G, C>(
    history: Seq<Event>,
    steps: Seq<Step<B, S, L, G, C>>,
    since: int,
    start: World<B, S, L, G, C>,
    end: World<B, S, L, G, C>,
) -> (models: Seq<B::Model>) where
    B: InMemory,
    S: SessionStateStore,
    L: ExclusiveSessionLock,
    G: SessionIdSource,
    C: Clock,

    requires
        trace::faithful(history, steps),
        trace::leads(steps, since, start, end),
        B::sound(start.backend.held()),
    ensures
        B::sound(end.backend.held()),
        models.len() == history.len() + 1,
        models[since] == start.backend.held(),
        models[history.len() as int] == end.backend.held(),
        hosts_follow::<B>(models, history, since, history.len() as int),
        forall|k: int|
            since <= k < history.len() ==> models[k] == (#[trigger] steps[k]).before.backend.held(),
{
    reveal(trace::faithful);
    reveal(trace::leads);
    let n = history.len() as int;
    let models = Seq::new(
        history.len() + 1,
        |k: int|
            if k < n {
                steps[k].before.backend.held()
            } else {
                end.backend.held()
            },
    );
    assert forall|k: int| since <= k < n implies host_step::<B>(
        models[k],
        #[trigger] history[k],
        models[k + 1],
    ) by {
        assert(trace::answered(steps[k]));
        lemma_sound(history, steps, since, start, end, k);
        lemma_answered_step(steps[k]);
        if k + 1 < n {
            assert(steps[k + 1].before == steps[k].after);
        }
    }
    if since < n {
        assert(trace::answered(steps[n - 1]));
        lemma_sound(history, steps, since, start, end, n - 1);
        lemma_answered_step(steps[n - 1]);
    }
    models
}

/// What is held stays all that the backend goes by.
proof fn lemma_sound<B, S, L, G, C>(
    history: Seq<Event>,
    steps: Seq<Step<B, S, L, G, C>>,
    since: int,
    start: World<B, S, L, G, C>,
    end: World<B, S, L, G, C>,
    k: int,
) where
    B: InMemory,
    S: SessionStateStore,
    L: ExclusiveSessionLock,
    G: SessionIdSource,
    C: Clock,

    requires
        trace::faithful(history, steps),
        trace::leads(steps, since, start, end),
        B::sound(start.backend.held()),
        since <= k < history.len(),
    ensures
        B::sound(steps[k].before.backend.held()),
    decreases k - since,
{
    reveal(trace::faithful);
    reveal(trace::leads);
    if k > since {
        lemma_sound(history, steps, since, start, end, k - 1);
        assert(trace::answered(steps[k - 1]));
        lemma_answered_step(steps[k - 1]);
        assert(steps[k].before == steps[k - 1].after);
    }
}

proof fn lemma_nothing_applied(history: Seq<Event>, since: int)
    requires
        0 <= since <= history.len(),
    ensures
        transaction::applied(history.take(since)).len() <= transaction::applied(history).len(),
        transaction::restores(history.take(since)).len() <= transaction::restores(history).len(),
        transaction::applied(history.take(since)).len() == transaction::applied(history).len()
            && transaction::restores(history.take(since)).len() == transaction::restores(
            history,
        ).len() ==> forall|k: int|
            since <= k < history.len() ==> !(#[trigger] history[k] is Apply)
                && !(history[k] is Restore),
    decreases history.len(),
{
    if since < history.len() {
        let shorter = history.drop_last();
        assert(shorter.take(since) =~= history.take(since));
        lemma_nothing_applied(shorter, since);
        if transaction::applied(history.take(since)).len() == transaction::applied(history).len()
            && transaction::restores(history.take(since)).len() == transaction::restores(
            history,
        ).len() {
            assert forall|k: int| since <= k < history.len() implies !(#[trigger] history[k] is Apply)
                && !(history[k] is Restore) by {
                if k < shorter.len() {
                    assert(shorter[k] == history[k]);
                } else {
                    assert(history[k] == history.last());
                }
            }
        }
    } else {
        assert(history.take(since) =~= history);
    }
}

/// While nothing is applied and nothing restored, a host stays as it is.
proof fn lemma_still<B: InMemory>(models: Seq<B::Model>, events: Seq<Event>, lo: int, hi: int, k: int)
    requires
        hosts_follow::<B>(models, events, lo, hi),
        lo <= k <= hi,
        forall|i: int|
            lo <= i < hi ==> !(#[trigger] events[i] is Apply) && !(events[i] is Restore),
    ensures
        models[k] == models[lo],
    decreases k - lo,
{
    if k > lo {
        lemma_still::<B>(models, events, lo, hi, k - 1);
        assert(host_step::<B>(models[k - 1], events[k - 1], models[k]));
    }
}

/// What fits in the end fitted from the beginning, and nothing is undone twice.
proof fn lemma_down_fits(begun: Restoration, n: int, k: int, events: Seq<Event>)
    requires
        0 <= k <= n == begun.record.operations.len(),
        schedule::restore_down(begun, n, k, events).fits,
    ensures
        begun.fits,
        begun.at <= schedule::restore_down(begun, n, k, events).at,
    decreases n - k,
{
    if k < n {
        reveal(schedule::restore_step);
        schedule::lemma_restore_down(begun, n, k + 1, events);
        schedule::lemma_restore_step(
            schedule::restore_down(begun, n, k + 1, events),
            k,
            events,
        );
        lemma_down_fits(begun, n, k + 1, events);
    }
}

proof fn lemma_prepare_phase<B: InMemory>(
    events: Seq<Event>,
    models: Seq<B::Model>,
    lo: int,
    at: int,
    to: int,
    plan: PlanDataView,
    held: Option<SessionId>,
    session_id: SessionId,
) -> (seen: (Timestamp, Seq<SnapshotView>))
    requires
        0 <= lo <= at <= to <= events.len(),
        hosts_follow::<B>(models, events, lo, events.len() as int),
        transaction::untouched(events.take(lo), events),
        schedule::prepare_run(plan, held, events, at) == (PrepareEnd {
            at: to,
            fits: true,
            result: Ok(session_id),
        }),
    ensures
        ({
            let (now, snapshots) = seen;
            let record = transaction::prepared_record(session_id, plan, now, snapshots);
            &&& at < to
            &&& models[events.len() as int] == models[lo]
            &&& captured::<B>(models[lo], plan.mutations, snapshots, now)
            &&& schedule::is_created(events[to - 1], record)
        }),
{
    let n = events.len() as int;
    let model = models[lo];
    schedule::prepared_intents_are_complete(plan, held, events, at);
    let (now, snapshots) = choose|now: Timestamp, snapshots: Seq<SnapshotView>|
        {
            &&& transaction::all_admitted(plan.mutations, snapshots)
            &&& forall|i: int|
                0 <= i < snapshots.len() ==> events[at + 3 + i] == (Event::Snapshot {
                    mutation: plan.mutations[i],
                    now,
                    reply: Ok(#[trigger] snapshots[i]),
                })
            &&& schedule::is_created(
                events[to - 1],
                #[trigger] transaction::prepared_record(session_id, plan, now, snapshots),
            )
        };
    lemma_nothing_applied(events, lo);
    lemma_still::<B>(models, events, lo, n, n);
    lemma_prepared_len(plan, held, events, at);
    assert forall|i: int| 0 <= i < plan.mutations.len() implies {
        &&& B::snapshot_by(model, #[trigger] plan.mutations[i], now) == Ok::<SnapshotView, ErrorView>(
            snapshots[i],
        )
        &&& snapshots[i].original_fingerprint == plan.mutations[i].precondition
    } by {
        let k = at + 3 + i;
        assert(transaction::snapshot_refusal(plan.mutations[i], snapshots[i]) is None);
        assert(events[k] == (Event::Snapshot {
            mutation: plan.mutations[i],
            now,
            reply: Ok(snapshots[i]),
        }));
        lemma_still::<B>(models, events, lo, n, k);
        assert(host_step::<B>(models[k], events[k], models[k + 1]));
    }
    (now, snapshots)
}

/// A plan is read to its end before its record is created.
proof fn lemma_prepared_len(
    plan: PlanDataView,
    held: Option<SessionId>,
    events: Seq<Event>,
    at: int,
)
    requires
        schedule::prepare_run(plan, held, events, at).fits,
        schedule::prepare_run(plan, held, events, at).result is Ok,
    ensures
        at + 3 + plan.mutations.len() < schedule::prepare_run(plan, held, events, at).at,
{
    reveal(schedule::prepare_run);
    let now = schedule::opening_run(events, at).result->Ok_0;
    lemma_read_len(plan, now, Seq::empty(), events, at + 3);
}

proof fn lemma_read_len(
    plan: PlanDataView,
    now: Timestamp,
    snapshots: Seq<SnapshotView>,
    events: Seq<Event>,
    at: int,
)
    requires
        snapshots.len() <= plan.mutations.len(),
        schedule::reading_run(plan, now, snapshots, events, at).result is Ok,
    ensures
        at + (plan.mutations.len() - snapshots.len()) < schedule::reading_run(
            plan,
            now,
            snapshots,
            events,
            at,
        ).at,
    decreases plan.mutations.len() - snapshots.len(),
{
    if snapshots.len() < plan.mutations.len() {
        let snapshot = events[at]->Snapshot_reply->Ok_0;
        lemma_read_len(plan, now, snapshots.push(snapshot), events, at + 1);
    } else {
        lemma_naming_len(
            plan,
            now,
            snapshots,
            transaction::MAX_IDENTITY_ATTEMPTS as nat,
            events,
            at,
        );
    }
}

proof fn lemma_naming_len(
    plan: PlanDataView,
    now: Timestamp,
    snapshots: Seq<SnapshotView>,
    attempts: nat,
    events: Seq<Event>,
    at: int,
)
    requires
        schedule::naming_run(plan, now, snapshots, attempts, events, at).result is Ok,
    ensures
        at < schedule::naming_run(plan, now, snapshots, attempts, events, at).at,
    decreases attempts,
{
    if attempts > 0 && events[at]->NextId_reply is Ok && events[at + 1]->Create_reply is Err {
        lemma_naming_len(plan, now, snapshots, (attempts - 1) as nat, events, at + 2);
    }
}

/// What may be durable after an event: a record that was kept, or one that was offered
/// and refused, of which it is not known.
pub open spec fn offered(records: Set<RecordView>, e: Event) -> Set<RecordView> {
    match e {
        Event::Create { record, reply } => if reply is Ok {
            Set::empty().insert(record)
        } else {
            records.insert(record)
        },
        Event::Replace { record, reply } => if reply is Ok {
            Set::empty().insert(record)
        } else {
            records.insert(record)
        },
        _ => records,
    }
}

/// What may be durable after some events.
pub open spec fn durable(records: Set<RecordView>, events: Seq<Event>, lo: int, hi: int) -> Set<
    RecordView,
>
    decreases hi - lo,
{
    if hi <= lo {
        records
    } else {
        offered(durable(records, events, lo, hi - 1), events[hi - 1])
    }
}

/// Whether every record that came back is one that may be durable, and no other session
/// is unfinished.
pub open spec fn recalled(records: Set<RecordView>, events: Seq<Event>, lo: int, hi: int) -> bool {
    forall|k: int|
        lo <= k < hi ==> match #[trigger] events[k] {
            Event::Load { reply: Ok(record), .. } => durable(records, events, lo, k).contains(
                record,
            ),
            Event::LoadUnfinished { reply: Ok(found) } => {
                &&& found.len() <= 1
                &&& forall|i: int|
                    0 <= i < found.len() ==> durable(records, events, lo, k).contains(
                        #[trigger] found[i],
                    )
            },
            _ => true,
        }
}

/// Whether a place for records gives back, of a session, no record but one that may be
/// durable: the one that it took last, or one that it was offered since and refused. What
/// may be durable in it is given by `kept`. No other session is unfinished in it.
pub open spec fn remembers<S: SessionStateStore>(
    kept: spec_fn(S) -> Set<RecordView>,
    session_id: SessionId,
) -> bool {
    &&& forall|a: S, b: S, record: RecordView, reply: Result<(), ErrorView>|
        #![trigger a.may_create(&b, record, reply)]
        a.may_create(&b, record, reply) && record.session_id == session_id ==> kept(b).subset_of(
            offered(kept(a), Event::Create { record, reply }),
        )
    &&& forall|a: S, b: S, record: RecordView, reply: Result<(), ErrorView>|
        #![trigger a.may_replace(&b, record, reply)]
        a.may_replace(&b, record, reply) && record.session_id == session_id ==> kept(b).subset_of(
            offered(kept(a), Event::Replace { record, reply }),
        )
    &&& forall|a: S, b: S, forgotten: SessionId, reply: Result<(), ErrorView>|
        #![trigger a.may_remove(&b, forgotten, reply)]
        a.may_remove(&b, forgotten, reply) ==> kept(b).subset_of(kept(a))
    &&& forall|a: S, record: RecordView|
        #![trigger a.may_load(session_id, Ok::<RecordView, ErrorView>(record))]
        a.may_load(session_id, Ok::<RecordView, ErrorView>(record)) ==> kept(a).contains(record)
    &&& forall|a: S, found: Seq<RecordView>|
        #![trigger a.may_list(Ok::<Seq<RecordView>, ErrorView>(found))]
        a.may_list(Ok::<Seq<RecordView>, ErrorView>(found)) ==> {
            &&& found.len() <= 1
            &&& forall|i: int| 0 <= i < found.len() ==> kept(a).contains(#[trigger] found[i])
        }
}

/// Whether the record that an event is about, if it is about one, is that of a session.
pub open spec fn concerns(e: Event, session: SessionId) -> bool {
    match e {
        Event::Load { session_id, .. } => session_id == session,
        Event::Create { record, .. } => record.session_id == session,
        Event::Replace { record, .. } => record.session_id == session,
        _ => true,
    }
}

/// A place that remembers the records of a session gives back, throughout the history of
/// a coordinator that deals with that session, no record but one that may be durable.
pub proof fn what_is_remembered_is_recalled<B, S, L, G, C>(
    engine: TransactionEngine<B, S, L, G, C>,
    since: int,
    start: World<B, S, L, G, C>,
    session_id: SessionId,
    kept: spec_fn(S) -> Set<RecordView>,
    records: Set<RecordView>,
) where
    B: MutationBackend,
    S: SessionStateStore,
    L: ExclusiveSessionLock,
    G: SessionIdSource,
    C: Clock,

    requires
        engine.wf(),
        engine.came_from(since, start),
        remembers(kept, session_id),
        kept(start.store).subset_of(records),
        forall|k: int|
            since <= k < engine.history().len() ==> concerns(
                #[trigger] engine.history()[k],
                session_id,
            ),
    ensures
        recalled(records, engine.history(), since, engine.history().len() as int),
        kept(engine.world().store).subset_of(
            durable(records, engine.history(), since, engine.history().len() as int),
        ),
{
    reveal(trace::faithful);
    reveal(trace::leads);
    let history = engine.history();
    let steps = engine.steps();
    let n = history.len() as int;
    assert forall|k: int| since <= k < n implies match #[trigger] history[k] {
        Event::Load { reply: Ok(record), .. } => durable(records, history, since, k).contains(
            record,
        ),
        Event::LoadUnfinished { reply: Ok(found) } => {
            &&& found.len() <= 1
            &&& forall|i: int|
                0 <= i < found.len() ==> durable(records, history, since, k).contains(
                    #[trigger] found[i],
                )
        },
        _ => true,
    } by {
        lemma_remembered(engine, since, start, session_id, kept, records, k);
        assert(trace::answered(steps[k]));
        assert(concerns(history[k], session_id));
    }
    if since < n {
        lemma_remembered(engine, since, start, session_id, kept, records, n - 1);
        lemma_remembered_step(steps[n - 1], session_id, kept, durable(records, history, since, n - 1));
    }
}

/// What is kept before a step may be durable.
proof fn lemma_remembered<B, S, L, G, C>(
    engine: TransactionEngine<B, S, L, G, C>,
    since: int,
    start: World<B, S, L, G, C>,
    session_id: SessionId,
    kept: spec_fn(S) -> Set<RecordView>,
    records: Set<RecordView>,
    k: int,
) where
    B: MutationBackend,
    S: SessionStateStore,
    L: ExclusiveSessionLock,
    G: SessionIdSource,
    C: Clock,

    requires
        engine.wf(),
        engine.came_from(since, start),
        remembers(kept, session_id),
        kept(start.store).subset_of(records),
        forall|k: int|
            since <= k < engine.history().len() ==> concerns(
                #[trigger] engine.history()[k],
                session_id,
            ),
        since <= k < engine.history().len(),
    ensures
        kept(engine.steps()[k].before.store).subset_of(
            durable(records, engine.history(), since, k),
        ),
    decreases k - since,
{
    reveal(trace::faithful);
    reveal(trace::leads);
    if k > since {
        let p = k - 1;
        lemma_remembered(engine, since, start, session_id, kept, records, p);
        assert(trace::answered(engine.steps()[p]));
        assert(concerns(engine.history()[p], session_id));
        assert(engine.steps()[k].before == engine.steps()[p].after);
        lemma_remembered_step(
            engine.steps()[p],
            session_id,
            kept,
            durable(records, engine.history(), since, p),
        );
    }
}

proof fn lemma_remembered_step<B, S, L, G, C>(
    step: Step<B, S, L, G, C>,
    session_id: SessionId,
    kept: spec_fn(S) -> Set<RecordView>,
    records: Set<RecordView>,
) where
    B: MutationBackend,
    S: SessionStateStore,
    L: ExclusiveSessionLock,
    G: SessionIdSource,
    C: Clock,

    requires
        trace::answered(step),
        remembers(kept, session_id),
        concerns(step.event, session_id),
        kept(step.before.store).subset_of(records),
    ensures
        kept(step.after.store).subset_of(offered(records, step.event)),
{
    match step.event {
        Event::Create { record, reply } => {
            assert(step.before.store.may_create(&step.after.store, record, reply));
        },
        Event::Replace { record, reply } => {
            assert(step.before.store.may_replace(&step.after.store, record, reply));
        },
        Event::Remove { session_id: forgotten, reply } => {
            assert(step.before.store.may_remove(&step.after.store, forgotten, reply));
        },
        _ => {},
    }
}

/// A session and what happens to it: what its targets were, what was done, and what the
/// host held at each step.
#[verifier::reject_recursive_types(M)]
struct Life<M> {
    session_id: SessionId,
    start: M,
    mutations: Seq<MutationView>,
    snapshots: Seq<SnapshotView>,
    records: Set<RecordView>,
    events: Seq<Event>,
    models: Seq<M>,
    lo: int,
    hi: int,
}

/// Whether an operation of a record says what became of a change.
spec fn fits_operation(
    op: OperationView,
    mutation: MutationView,
    snapshot: SnapshotView,
    made: Mark,
) -> bool {
    &&& op.mutation == mutation
    &&& op.snapshot == Some(snapshot)
    &&& match made {
        Mark::Never => op.apply_receipt is None,
        Mark::Left(owned) => {
            &&& !session::undone(op)
            &&& op.apply_receipt matches Some(receipt) ==> receipt.ownership_fingerprint == owned
        },
        Mark::Back => true,
    }
}

/// Whether a session with this record has nothing left in any target, by its state.
spec fn at_rest(state: SessionState) -> bool {
    state == SessionState::Restored || state == SessionState::IntentDurable
}

/// Whether a record says what became of each change.
spec fn fits<M>(l: Life<M>, record: RecordView, made: Seq<Mark>) -> bool {
    &&& record.session_id == l.session_id
    &&& record.operations.len() == l.mutations.len()
    &&& made.len() == l.mutations.len()
    &&& forall|i: int|
        0 <= i < l.mutations.len() ==> fits_operation(
            #[trigger] record.operations[i],
            l.mutations[i],
            l.snapshots[i],
            made[i],
        )
    &&& at_rest(record.state) ==> session::all_undone(record.operations)
    &&& record.state == SessionState::IntentDurable ==> forall|i: int|
        0 <= i < made.len() ==> (#[trigger] made[i]) is Never
    &&& record.state == SessionState::IntentDurable ==> forall|i: int|
        0 <= i < made.len() ==> (#[trigger] record.operations[i]).state
            == OperationState::IntentRecorded
}

/// Whether a record leaves open what became of a change.
spec fn in_doubt<M>(l: Life<M>, record: RecordView, i: int) -> bool {
    &&& record.session_id == l.session_id
    &&& record.operations.len() == l.mutations.len()
    &&& 0 <= i < l.mutations.len()
    &&& record.operations[i].state == OperationState::Applying
    &&& record.operations[i].apply_receipt is None
    &&& !at_rest(record.state)
}

/// Whether at a position the host holds what was made, and every record that may be
/// durable says so.
#[verifier::opaque]
spec fn known<B: InMemory>(l: Life<B::Model>, k: int, made: Seq<Mark>) -> bool {
    &&& l.lo <= k <= l.hi
    &&& B::stands(l.start, l.mutations, l.snapshots, made, l.models[k])
    &&& forall|record: RecordView| #[trigger]
        durable(l.records, l.events, l.lo, k).contains(record) ==> fits(l, record, made)
}

/// Whether at a position every record that may be durable leaves open what became of a
/// change.
#[verifier::opaque]
spec fn doubtful<M>(l: Life<M>, k: int, i: int) -> bool {
    &&& l.lo <= k <= l.hi
    &&& forall|record: RecordView| #[trigger]
        durable(l.records, l.events, l.lo, k).contains(record) ==> in_doubt(l, record, i)
}

/// Whether the host went its way, and every change could be made safely.
#[verifier::opaque]
spec fn lived<B: InMemory>(l: Life<B::Model>) -> bool {
    &&& l.mutations.len() == l.snapshots.len()
    &&& B::planned(l.start, l.mutations, l.snapshots)
    &&& hosts_follow::<B>(l.models, l.events, l.lo, l.hi)
    &&& all_suit::<B>(l.models, l.events, l.lo, l.hi)
}

spec fn changes_nothing(e: Event) -> bool {
    !(e is Create) && !(e is Replace) && !(e is Apply) && !(e is Restore)
}

proof fn lemma_pass<B: InMemory>(l: Life<B::Model>, k: int, made: Seq<Mark>)
    requires
        lived::<B>(l),
        known::<B>(l, k, made),
        k < l.hi,
        changes_nothing(l.events[k]),
    ensures
        known::<B>(l, k + 1, made),
{
    reveal(lived);
    reveal(known);
    assert(host_step::<B>(l.models[k], l.events[k], l.models[k + 1]));
    assert(durable(l.records, l.events, l.lo, k + 1) == durable(l.records, l.events, l.lo, k));
}

proof fn lemma_offer<B: InMemory>(
    l: Life<B::Model>,
    k: int,
    made: Seq<Mark>,
    record: RecordView,
)
    requires
        lived::<B>(l),
        known::<B>(l, k, made),
        k < l.hi,
        schedule::call(l.events[k]) == (Call::Replace { record }),
        fits(l, record, made),
    ensures
        known::<B>(l, k + 1, made),
{
    reveal(lived);
    reveal(known);
    assert(host_step::<B>(l.models[k], l.events[k], l.models[k + 1]));
    let before = durable(l.records, l.events, l.lo, k);
    let after = durable(l.records, l.events, l.lo, k + 1);
    assert(after == offered(before, l.events[k]));
    assert forall|r: RecordView| #[trigger] after.contains(r) implies fits(l, r, made) by {
        if r != record {
            assert(before.contains(r));
        }
    }
}

proof fn lemma_doubt_passes<M>(l: Life<M>, k: int, i: int)
    requires
        doubtful(l, k, i),
        k < l.hi,
        !(l.events[k] is Create),
        !(l.events[k] is Replace),
    ensures
        doubtful(l, k + 1, i),
{
    reveal(doubtful);
    assert(durable(l.records, l.events, l.lo, k + 1) == durable(l.records, l.events, l.lo, k));
}

proof fn lemma_doubt_offered<M>(l: Life<M>, k: int, i: int, record: RecordView)
    requires
        doubtful(l, k, i),
        k < l.hi,
        schedule::call(l.events[k]) == (Call::Replace { record }),
        in_doubt(l, record, i),
    ensures
        doubtful(l, k + 1, i),
{
    reveal(doubtful);
    let before = durable(l.records, l.events, l.lo, k);
    let after = durable(l.records, l.events, l.lo, k + 1);
    assert(after == offered(before, l.events[k]));
    assert forall|r: RecordView| #[trigger] after.contains(r) implies in_doubt(l, r, i) by {
        if r != record {
            assert(before.contains(r));
        }
    }
}

/// Changing one operation of a record.
proof fn lemma_fits_with<M>(
    l: Life<M>,
    record: RecordView,
    made: Seq<Mark>,
    after: Seq<Mark>,
    i: int,
    op: OperationView,
)
    requires
        fits(l, record, made),
        !at_rest(record.state),
        0 <= i < l.mutations.len(),
        after.len() == made.len(),
        forall|j: int| 0 <= j < made.len() && j != i ==> #[trigger] after[j] == made[j],
        fits_operation(op, l.mutations[i], l.snapshots[i], after[i]),
    ensures
        fits(l, record.with_operation(i, op), after),
{
    let next = record.with_operation(i, op);
    assert forall|j: int| 0 <= j < l.mutations.len() implies fits_operation(
        #[trigger] next.operations[j],
        l.mutations[j],
        l.snapshots[j],
        after[j],
    ) by {
        if j != i {
            assert(next.operations[j] == record.operations[j]);
            assert(after[j] == made[j]);
        }
    }
}

/// The same operations in another state of the session.
proof fn lemma_fits_like<M>(
    l: Life<M>,
    record: RecordView,
    next: RecordView,
    made: Seq<Mark>,
)
    requires
        fits(l, record, made),
        next.session_id == record.session_id,
        next.operations == record.operations,
        at_rest(next.state) ==> at_rest(record.state) || session::all_undone(record.operations),
        next.state == SessionState::IntentDurable ==> record.state
            == SessionState::IntentDurable,
    ensures
        fits(l, next, made),
{
    assert forall|j: int| 0 <= j < l.mutations.len() implies fits_operation(
        #[trigger] next.operations[j],
        l.mutations[j],
        l.snapshots[j],
        made[j],
    ) by {
        assert(next.operations[j] == record.operations[j]);
    }
}

/// A record that is kept during a restoration.
proof fn lemma_kept<B: InMemory>(
    l: Life<B::Model>,
    s: Restoration,
    made: Seq<Mark>,
)
    requires
        lived::<B>(l),
        known::<B>(l, s.at, made),
        fits(l, s.record, made),
        schedule::kept(s, l.events).fits,
        s.at < l.hi,
    ensures
        known::<B>(l, s.at + 1, made),
        fits(l, schedule::kept(s, l.events).record, made),
        schedule::kept(s, l.events).at == s.at + 1,
        schedule::kept(s, l.events).record.operations == s.record.operations,
        schedule::kept(s, l.events).record.state == s.record.state,
{
    lemma_offer::<B>(l, s.at, made, s.record);
    lemma_fits_like(l, s.record, schedule::kept(s, l.events).record, made);
}

proof fn lemma_given_up<B: InMemory>(
    l: Life<B::Model>,
    s: Restoration,
    i: int,
    error: ErrorView,
    made: Seq<Mark>,
)
    requires
        lived::<B>(l),
        known::<B>(l, s.at, made),
        fits(l, s.record, made),
        !at_rest(s.record.state),
        0 <= i < l.mutations.len(),
        s.record.operations[i].apply_receipt is Some,
        schedule::given_up(s, i, error, l.events).fits,
        s.at < l.hi,
    ensures
        known::<B>(l, s.at + 1, made),
        fits(l, schedule::given_up(s, i, error, l.events).record, made),
{
    let op = OperationView {
        state: OperationState::RestoreFailed,
        ..s.record.operations[i]
    };
    lemma_fits_with(l, s.record, made, made, i, op);
    let record = s.record.with_operation(i, op);
    lemma_fits_like(l, record, record.with_failure(error), made);
    lemma_offer::<B>(l, s.at, made, record.with_failure(error));
}

proof fn lemma_proven<B: InMemory>(
    l: Life<B::Model>,
    s: Restoration,
    i: int,
    receipt: RestoreReceipt,
    made: Seq<Mark>,
)
    requires
        lived::<B>(l),
        known::<B>(l, s.at, made),
        fits(l, s.record, made),
        !at_rest(s.record.state),
        0 <= i < l.mutations.len(),
        s.record.operations[i].apply_receipt is Some,
        !(made[i] is Left),
        schedule::proven(s, i, receipt, l.events).fits,
        s.at < l.hi,
    ensures
        known::<B>(l, s.at + 1, made),
        fits(l, schedule::proven(s, i, receipt, l.events).record, made),
{
    let op = OperationView {
        restore_receipt: Some(receipt),
        state: OperationState::Restored,
        ..s.record.operations[i]
    };
    lemma_fits_with(l, s.record, made, made, i, op);
    let next = Restoration { record: s.record.with_operation(i, op), ..s };
    lemma_kept::<B>(l, next, made);
}

/// One change is compared and given back.
proof fn lemma_compared<B: InMemory>(
    l: Life<B::Model>,
    s: Restoration,
    i: int,
    op: OperationView,
    made: Seq<Mark>,
) -> (after: Seq<Mark>)
    requires
        lived::<B>(l),
        known::<B>(l, s.at, made),
        fits(l, s.record, made),
        !at_rest(s.record.state),
        0 <= i < l.mutations.len(),
        op.mutation == l.mutations[i],
        op.snapshot == Some(l.snapshots[i]),
        op.apply_receipt is Some,
        s.record.operations[i].apply_receipt == op.apply_receipt,
        schedule::compared(s, i, op, l.events).fits,
        schedule::compared(s, i, op, l.events).at <= l.hi,
    ensures
        known::<B>(l, schedule::compared(s, i, op, l.events).at, after),
        fits(l, schedule::compared(s, i, op, l.events).record, after),
        after.len() == made.len(),
        forall|j: int| 0 <= j < made.len() && j != i ==> #[trigger] after[j] == made[j],
        after[i] == made[i] || (after[i] is Back && made[i] is Left),
{
    let events = l.events;
    let end = schedule::compared(s, i, op, events);
    let snapshot = l.snapshots[i];
    let ownership = op.apply_receipt->0.ownership_fingerprint;
    assert(schedule::call(events[s.at]) is Verify);
    assert(fits_operation(s.record.operations[i], l.mutations[i], snapshot, made[i]));
    assert(B::planned(l.start, l.mutations, l.snapshots) && B::stands(
        l.start,
        l.mutations,
        l.snapshots,
        made,
        l.models[s.at],
    ) && host_step::<B>(l.models[s.at], events[s.at], l.models[s.at + 1])
        && l.mutations.len() == l.snapshots.len()) by {
        reveal(lived);
        reveal(known);
    }
    B::lemma_seen(l.start, l.mutations, l.snapshots, made, l.models[s.at], i);
    lemma_pass::<B>(l, s.at, made);
    let here = Restoration { at: s.at + 1, ..s };
    let observed = events[s.at]->Verify_reply->Ok_0;
    match made[i] {
        Mark::Never | Mark::Back => {
            let receipt = RestoreReceipt {
                mutation_id: op.mutation.mutation_id,
                restored_fingerprint: observed,
                verified: true,
            };
            let asked = Restoration {
                fits: s.fits && schedule::asked(
                    events,
                    s.at,
                    Call::Verify {
                        mutation: op.mutation,
                        expected: snapshot.original_fingerprint,
                        identity: snapshot.target_identity,
                    },
                ),
                ..here
            };
            assert(end == schedule::proven(asked, i, receipt, events));
            lemma_proven::<B>(l, asked, i, receipt, made);
            made
        },
        Mark::Left(owned) => {
            assert(schedule::call(events[s.at + 1]) == (Call::Restore {
                mutation: op.mutation,
                snapshot,
                ownership,
            }));
            let asked = Restoration {
                fits: s.fits && schedule::asked(
                    events,
                    s.at,
                    Call::Verify {
                        mutation: op.mutation,
                        expected: snapshot.original_fingerprint,
                        identity: snapshot.target_identity,
                    },
                ) && schedule::asked(
                    events,
                    s.at + 1,
                    Call::Restore { mutation: op.mutation, snapshot, ownership },
                ),
                at: s.at + 2,
                ..s
            };
            let after = lemma_restored::<B>(l, s.at + 1, made, i, owned);
            lemma_fits_less(l, s.record, made, after);
            match events[s.at + 1]->Restore_reply {
                Ok(receipt) => {
                    if transaction::restore_proven(op.mutation, snapshot, receipt) {
                        assert(end == schedule::proven(asked, i, receipt, events));
                        lemma_proven::<B>(l, asked, i, receipt, after);
                    } else {
                        let error = transaction::session_error(
                            ErrorCode::RestoreError,
                            "backend restore did not prove the original fingerprint"@,
                            Stage::Restore,
                            s.record.session_id,
                            Some(op.mutation.mutation_id),
                        );
                        assert(end == schedule::given_up(asked, i, error, events));
                        lemma_given_up::<B>(l, asked, i, error, after);
                    }
                },
                Err(reply) => {
                    let error = transaction::in_context(
                        reply,
                        Stage::Restore,
                        Some(s.record.session_id),
                        Some(op.mutation.mutation_id),
                    );
                    assert(end == schedule::given_up(asked, i, error, events));
                    lemma_given_up::<B>(l, asked, i, error, after);
                },
            }
            after
        },
    }
}

/// Less is left than a record says.
proof fn lemma_fits_less<M>(
    l: Life<M>,
    record: RecordView,
    made: Seq<Mark>,
    after: Seq<Mark>,
)
    requires
        fits(l, record, made),
        after.len() == made.len(),
        forall|j: int|
            0 <= j < made.len() ==> (#[trigger] after[j]) == made[j] || (after[j] is Back
                && made[j] is Left),
    ensures
        fits(l, record, after),
{
    assert forall|j: int| 0 <= j < l.mutations.len() implies fits_operation(
        #[trigger] record.operations[j],
        l.mutations[j],
        l.snapshots[j],
        after[j],
    ) by {
        assert(fits_operation(record.operations[j], l.mutations[j], l.snapshots[j], made[j]));
        assert(after[j] == made[j] || after[j] is Back);
    }
    if record.state == SessionState::IntentDurable {
        assert forall|j: int| 0 <= j < after.len() implies (#[trigger] after[j]) is Never by {
            assert(made[j] is Never);
        }
    }
}

/// The backend is told to give back an original.
proof fn lemma_restored<B: InMemory>(
    l: Life<B::Model>,
    k: int,
    made: Seq<Mark>,
    i: int,
    owned: StateFingerprint,
) -> (after: Seq<Mark>)
    requires
        lived::<B>(l),
        known::<B>(l, k, made),
        made.len() == l.mutations.len(),
        k < l.hi,
        0 <= i < l.mutations.len(),
        made[i] == Mark::Left(owned),
        schedule::call(l.events[k]) == (Call::Restore {
            mutation: l.mutations[i],
            snapshot: l.snapshots[i],
            ownership: owned,
        }),
    ensures
        known::<B>(l, k + 1, after),
        after == made || after == made.update(i, Mark::Back),
        l.events[k]->Restore_reply is Ok ==> !(after[i] is Left),
{
    reveal(lived);
    reveal(known);
    assert(host_step::<B>(l.models[k], l.events[k], l.models[k + 1]));
    B::lemma_undone(l.start, l.mutations, l.snapshots, made, l.models[k], i, owned);
    let cleared = made.update(i, Mark::Back);
    let after = if B::stands(l.start, l.mutations, l.snapshots, cleared, l.models[k + 1]) {
        cleared
    } else {
        made
    };
    assert(durable(l.records, l.events, l.lo, k + 1) == durable(l.records, l.events, l.lo, k));
    assert forall|record: RecordView| #[trigger]
        durable(l.records, l.events, l.lo, k + 1).contains(record) implies fits(
        l,
        record,
        after,
    ) by {
        assert(durable(l.records, l.events, l.lo, k).contains(record));
        lemma_fits_less(l, record, made, after);
    }
    after
}

/// Whether a record has a receipt for all that is left.
spec fn receipted(record: RecordView, made: Seq<Mark>) -> bool {
    forall|i: int|
        0 <= i < made.len() && (#[trigger] made[i]) is Left
            ==> record.operations[i].apply_receipt is Some
}

proof fn lemma_step_goes_on(s: Restoration, i: int, events: Seq<Event>)
    ensures
        s.at <= schedule::restore_step(s, i, events).at,
        0 <= i < s.record.operations.len()
            ==> schedule::restore_step(s, i, events).record.operations[i].apply_receipt
            == s.record.operations[i].apply_receipt,
{
    reveal(schedule::restore_step);
}

/// One step of a restoration.
proof fn lemma_step_back<B: InMemory>(
    l: Life<B::Model>,
    s: Restoration,
    i: int,
    made: Seq<Mark>,
) -> (after: Seq<Mark>)
    requires
        lived::<B>(l),
        known::<B>(l, s.at, made),
        fits(l, s.record, made),
        receipted(s.record, made),
        0 <= i < l.mutations.len(),
        schedule::restore_step(s, i, l.events).fits,
        schedule::restore_step(s, i, l.events).at <= l.hi,
    ensures
        known::<B>(l, schedule::restore_step(s, i, l.events).at, after),
        fits(l, schedule::restore_step(s, i, l.events).record, after),
        after.len() == made.len(),
        forall|j: int| 0 <= j < made.len() && j != i ==> #[trigger] after[j] == made[j],
        receipted(schedule::restore_step(s, i, l.events).record, after),
{
    reveal(schedule::restore_step);
    let events = l.events;
    let op = s.record.operations[i];
    let end = schedule::restore_step(s, i, events);
    schedule::lemma_restore_step(s, i, events);
    lemma_step_goes_on(s, i, events);
    assert(fits_operation(op, l.mutations[i], l.snapshots[i], made[i]));
    if op.state == OperationState::Restored || (op.apply_receipt is None && op.state
        != OperationState::Applying) {
        made
    } else if op.apply_receipt is None {
        lemma_fits_like(l, s.record, end.record, made);
        made
    } else {
        let opened = OperationView { state: OperationState::Restoring, ..op };
        assert(!at_rest(s.record.state)) by {
            if at_rest(s.record.state) {
                assert(session::undone(s.record.operations[i]));
            }
        }
        lemma_fits_with(l, s.record, made, made, i, opened);
        let begun = Restoration { record: s.record.with_operation(i, opened), ..s };
        let next = schedule::kept(begun, events);
        assert(end == schedule::compared(next, i, op, events));
        assert(next.fits && next.at == s.at + 1 && next.at <= end.at);
        lemma_kept::<B>(l, begun, made);
        let after = lemma_compared::<B>(l, next, i, op, made);
        assert forall|j: int| 0 <= j < after.len() && (#[trigger] after[j]) is Left implies
            end.record.operations[j].apply_receipt is Some by {
            if j != i {
                assert(after[j] == made[j]);
                assert(end.record.operations[j] == s.record.operations[j]);
            }
        }
        after
    }
}

/// The last changes are given back, from the last of all.
proof fn lemma_down<B: InMemory>(
    l: Life<B::Model>,
    begun: Restoration,
    k: int,
    made: Seq<Mark>,
) -> (after: Seq<Mark>)
    requires
        lived::<B>(l),
        known::<B>(l, begun.at, made),
        fits(l, begun.record, made),
        receipted(begun.record, made),
        0 <= k <= l.mutations.len(),
        schedule::restore_down(begun, l.mutations.len() as int, k, l.events).fits,
        schedule::restore_down(begun, l.mutations.len() as int, k, l.events).at <= l.hi,
    ensures
        ({
            let s = schedule::restore_down(begun, l.mutations.len() as int, k, l.events);
            &&& begun.at <= s.at
            &&& known::<B>(l, s.at, after)
            &&& fits(l, s.record, after)
            &&& receipted(s.record, after)
            &&& s.record.state == begun.record.state
        }),
        after.len() == made.len(),
        forall|j: int| 0 <= j < k ==> #[trigger] after[j] == made[j],
    decreases l.mutations.len() - k,
{
    let n = l.mutations.len() as int;
    if k == n {
        made
    } else {
        let before = schedule::restore_down(begun, n, k + 1, l.events);
        let s = schedule::restore_down(begun, n, k, l.events);
        schedule::lemma_restore_down(begun, n, k + 1, l.events);
        schedule::lemma_restore_step(before, k, l.events);
        lemma_step_goes_on(before, k, l.events);
        let between = lemma_down::<B>(l, begun, k + 1, made);
        lemma_step_back::<B>(l, before, k, between)
    }
}

/// A whole restoration.
proof fn lemma_restore_run<B: InMemory>(
    l: Life<B::Model>,
    record: RecordView,
    at: int,
    made: Seq<Mark>,
) -> (after: Seq<Mark>)
    requires
        lived::<B>(l),
        known::<B>(l, at, made),
        fits(l, record, made),
        receipted(record, made),
        schedule::restore_run(record, l.events, at).fits,
        schedule::restore_run(record, l.events, at).at <= l.hi,
    ensures
        known::<B>(l, schedule::restore_run(record, l.events, at).at, after),
{
    reveal(schedule::restore_run);
    reveal(schedule::restore_finished);
    let events = l.events;
    let n = l.mutations.len() as int;
    let begun = Restoration {
        at: at + 1,
        fits: schedule::asked(events, at, Call::Now),
        record,
        failures: Seq::empty(),
        uncertain: false,
    };
    let s = schedule::restore_down(begun, n, 0, events);
    let now = schedule::time_or_epoch(events[at]->Now_reply);
    let end = schedule::restore_finished(s, now, events);
    schedule::lemma_restore_down(begun, n, 0, events);
    lemma_down_fits(begun, n, 0, events);
    assert(schedule::call(events[at]) is Now);
    assert(at < l.hi) by {
        lemma_down_fits(begun, n, 0, events);
    }
    lemma_pass::<B>(l, at, made);
    let after = lemma_down::<B>(l, begun, 0, made);
    if s.failures.len() == 0 {
        if end.at == s.at + 1 {
            assert(session::all_undone(s.record.operations));
            lemma_fits_like(l, s.record, end.record, after);
            lemma_offer::<B>(l, s.at, after, end.record);
        }
    } else {
        let noted = schedule::with_failures(s.record, s.failures);
        lemma_with_failures(s.record, s.failures);
        if end.at == s.at + 1 {
            assert(!at_rest(s.record.state)) by {
                if at_rest(s.record.state) {
                    lemma_nothing_to_do(begun, n, 0, events);
                }
            }
            lemma_fits_like(l, s.record, end.record, after);
            lemma_offer::<B>(l, s.at, after, end.record);
        }
    }
    after
}

/// Where nothing is left there is nothing to do, and nothing fails.
proof fn lemma_nothing_to_do(begun: Restoration, n: int, k: int, events: Seq<Event>)
    requires
        0 <= k <= n == begun.record.operations.len(),
        session::all_undone(begun.record.operations),
    ensures
        schedule::restore_down(begun, n, k, events) == begun,
    decreases n - k,
{
    if k < n {
        reveal(schedule::restore_step);
        lemma_nothing_to_do(begun, n, k + 1, events);
        assert(session::undone(begun.record.operations[k]));
    }
}

proof fn lemma_with_failures(record: RecordView, failures: Seq<ErrorView>)
    ensures
        schedule::with_failures(record, failures).operations == record.operations,
        schedule::with_failures(record, failures).state == record.state,
        schedule::with_failures(record, failures).session_id == record.session_id,
    decreases failures.len(),
{
    if failures.len() > 0 {
        lemma_with_failures(record, failures.drop_last());
    }
}

/// A restoration of a record that leaves open what became of a change.
proof fn lemma_doubt_step<M>(l: Life<M>, s: Restoration, k: int, i: int)
    requires
        doubtful(l, s.at, i),
        in_doubt(l, s.record, i),
        0 <= k < l.mutations.len(),
        schedule::restore_step(s, k, l.events).fits,
        schedule::restore_step(s, k, l.events).at <= l.hi,
    ensures
        doubtful(l, schedule::restore_step(s, k, l.events).at, i),
        in_doubt(l, schedule::restore_step(s, k, l.events).record, i),
        k == i ==> schedule::restore_step(s, k, l.events).failures.len() > 0,
{
    reveal(schedule::restore_step);
    let events = l.events;
    let op = s.record.operations[k];
    let end = schedule::restore_step(s, k, events);
    if !(op.state == OperationState::Restored) && op.apply_receipt is Some && op.snapshot is Some {
        let begun = s.record.with_operation(
            k,
            OperationView { state: OperationState::Restoring, ..op },
        );
        assert(k != i);
        assert(begun.operations[i] == s.record.operations[i]);
        let next = schedule::kept(Restoration { record: begun, ..s }, events);
        assert(end == schedule::compared(next, k, op, events));
        lemma_doubt_offered(l, s.at, i, begun);
        lemma_doubt_passes(l, s.at + 1, i);
        let last = events[end.at - 1];
        assert(schedule::call(last) is Replace);
        if end.at == s.at + 4 {
            lemma_doubt_passes(l, s.at + 2, i);
        }
        assert(end.at == s.at + 3 || end.at == s.at + 4);
        let kept = last->Replace_record;
        assert(kept.operations[i] == s.record.operations[i]);
        lemma_doubt_offered(l, end.at - 1, i, kept);
        assert(end.record.operations[i] == s.record.operations[i]);
    }
}

proof fn lemma_doubt_down<M>(l: Life<M>, begun: Restoration, k: int, i: int)
    requires
        doubtful(l, begun.at, i),
        in_doubt(l, begun.record, i),
        0 <= k <= l.mutations.len(),
        schedule::restore_down(begun, l.mutations.len() as int, k, l.events).fits,
        schedule::restore_down(begun, l.mutations.len() as int, k, l.events).at <= l.hi,
    ensures
        ({
            let s = schedule::restore_down(begun, l.mutations.len() as int, k, l.events);
            &&& begun.at <= s.at
            &&& doubtful(l, s.at, i)
            &&& in_doubt(l, s.record, i)
            &&& k <= i ==> s.failures.len() > 0
        }),
    decreases l.mutations.len() - k,
{
    let n = l.mutations.len() as int;
    if k < n {
        let before = schedule::restore_down(begun, n, k + 1, l.events);
        schedule::lemma_restore_down(begun, n, k + 1, l.events);
        schedule::lemma_restore_step(before, k, l.events);
        lemma_step_goes_on(before, k, l.events);
        lemma_doubt_down(l, begun, k + 1, i);
        lemma_doubt_step(l, before, k, i);
    }
}

proof fn lemma_doubt_run<M>(l: Life<M>, record: RecordView, at: int, i: int)
    requires
        doubtful(l, at, i),
        in_doubt(l, record, i),
        schedule::restore_run(record, l.events, at).fits,
        schedule::restore_run(record, l.events, at).at <= l.hi,
    ensures
        doubtful(l, schedule::restore_run(record, l.events, at).at, i),
{
    reveal(schedule::restore_run);
    reveal(schedule::restore_finished);
    let events = l.events;
    let n = l.mutations.len() as int;
    let begun = Restoration {
        at: at + 1,
        fits: schedule::asked(events, at, Call::Now),
        record,
        failures: Seq::empty(),
        uncertain: false,
    };
    let s = schedule::restore_down(begun, n, 0, events);
    let now = schedule::time_or_epoch(events[at]->Now_reply);
    let end = schedule::restore_finished(s, now, events);
    lemma_down_fits(begun, n, 0, events);
    assert(schedule::call(events[at]) is Now);
    lemma_doubt_passes(l, at, i);
    lemma_doubt_down(l, begun, 0, i);
    lemma_with_failures(s.record, s.failures);
    if end.at == s.at + 1 {
        lemma_doubt_offered(l, s.at, i, end.record);
    }
}

/// Whether at a position it is known what was made, or every record leaves something
/// open.
spec fn accounted<B: InMemory>(l: Life<B::Model>, k: int) -> bool {
    (exists|made: Seq<Mark>| known::<B>(l, k, made)) || (exists|i: int|
        doubtful(l, k, i))
}

/// A record is put on its way to restoration and restored.
proof fn lemma_resume<B: InMemory>(l: Life<B::Model>, record: RecordView, at: int)
    requires
        lived::<B>(l),
        accounted::<B>(l, at),
        durable(l.records, l.events, l.lo, at).contains(record),
        schedule::resume_run(record, l.events, at).fits,
        schedule::resume_run(record, l.events, at).at <= l.hi,
    ensures
        accounted::<B>(l, schedule::resume_run(record, l.events, at).at),
{
    reveal(schedule::resume_run);
    let events = l.events;
    let end = schedule::resume_run(record, events, at);
    assert(schedule::call(events[at]) is Now);
    let started = transaction::restore_started(record, events[at]->Now_reply->Ok_0)->Ok_0;
    let begins = events[at]->Now_reply is Ok && transaction::restore_started(
        record,
        events[at]->Now_reply->Ok_0,
    ) is Ok;
    lemma_run_goes_on(started, events, at + 1);
    lemma_run_goes_on(started, events, at + 2);
    assert(l.lo <= at) by {
        reveal(known);
        reveal(doubtful);
    }
    if exists|made: Seq<Mark>| known::<B>(l, at, made) {
        let made = choose|made: Seq<Mark>| known::<B>(l, at, made);
        assert(fits(l, record, made)) by {
            reveal(known);
        }
        lemma_pass::<B>(l, at, made);
        if begins {
            lemma_fits_like(l, record, started, made);
            if started.state == SessionState::Restored {
                assert(receipted(started, made)) by {
                    assert forall|i: int| 0 <= i < made.len() && (#[trigger] made[i]) is Left implies
                        started.operations[i].apply_receipt is Some by {
                        assert(fits_operation(
                            started.operations[i],
                            l.mutations[i],
                            l.snapshots[i],
                            made[i],
                        ));
                        assert(session::undone(started.operations[i]));
                    }
                }
                let after = lemma_restore_run::<B>(l, started, at + 1, made);
                assert(known::<B>(l, end.at, after));
            } else {
                assert(schedule::call(events[at + 1]) == (Call::Replace { record: started }));
                lemma_offer::<B>(l, at + 1, made, started);
                if events[at + 1]->Replace_reply is Ok {
                    if receipted(started, made) {
                        let after = lemma_restore_run::<B>(l, started, at + 2, made);
                        assert(known::<B>(l, end.at, after));
                    } else {
                        let i = choose|i: int|
                            0 <= i < made.len() && (#[trigger] made[i]) is Left
                                && !(started.operations[i].apply_receipt is Some);
                        assert(fits_operation(
                            started.operations[i],
                            l.mutations[i],
                            l.snapshots[i],
                            made[i],
                        ));
                        assert(!at_rest(started.state)) by {
                            if at_rest(started.state) {
                                assert(session::undone(started.operations[i]));
                            }
                        }
                        assert(in_doubt(l, started, i));
                        lemma_only_kept(l, at + 1, started, i);
                        lemma_doubt_run(l, started, at + 2, i);
                        assert(doubtful(l, end.at, i));
                    }
                } else {
                    assert(known::<B>(l, end.at, made));
                }
            }
        } else {
            assert(known::<B>(l, end.at, made));
        }
    } else {
        let i = choose|i: int| doubtful(l, at, i);
        assert(in_doubt(l, record, i)) by {
            reveal(doubtful);
        }
        lemma_doubt_passes(l, at, i);
        if begins {
            assert(in_doubt(l, started, i));
            assert(schedule::call(events[at + 1]) == (Call::Replace { record: started }));
            lemma_doubt_offered(l, at + 1, i, started);
            if events[at + 1]->Replace_reply is Ok {
                lemma_doubt_run(l, started, at + 2, i);
            }
        }
        assert(doubtful(l, end.at, i));
    }
}

/// A record that was kept is all that is durable.
proof fn lemma_only_kept<M>(l: Life<M>, k: int, record: RecordView, i: int)
    requires
        l.lo <= k < l.hi,
        schedule::is_replaced(l.events[k], record),
        in_doubt(l, record, i),
    ensures
        doubtful(l, k + 1, i),
{
    reveal(doubtful);
    assert(durable(l.records, l.events, l.lo, k + 1) == offered(
        durable(l.records, l.events, l.lo, k),
        l.events[k],
    ));
}

proof fn lemma_run_goes_on(record: RecordView, events: Seq<Event>, at: int)
    ensures
        at < schedule::restore_run(record, events, at).at,
{
    reveal(schedule::restore_run);
    reveal(schedule::restore_finished);
    let begun = Restoration {
        at: at + 1,
        fits: schedule::asked(events, at, Call::Now),
        record,
        failures: Seq::empty(),
        uncertain: false,
    };
    lemma_down_goes_on(begun, record.operations.len() as int, 0, events);
}

proof fn lemma_down_goes_on(begun: Restoration, n: int, k: int, events: Seq<Event>)
    ensures
        begun.at <= schedule::restore_down(begun, n, k, events).at,
    decreases n - k,
{
    if k < n {
        lemma_down_goes_on(begun, n, k + 1, events);
        lemma_step_goes_on(schedule::restore_down(begun, n, k + 1, events), k, events);
    }
}

/// A failed apply is rolled back.
proof fn lemma_rollback<B: InMemory>(
    l: Life<B::Model>,
    record: RecordView,
    trigger: ErrorView,
    held: Option<SessionId>,
    at: int,
    made: Seq<Mark>,
)
    requires
        lived::<B>(l),
        known::<B>(l, at, made),
        fits(l, record, made),
        receipted(record, made),
        !at_rest(record.state),
        schedule::rollback_run(record, trigger, held, l.events, at).fits,
        schedule::rollback_run(record, trigger, held, l.events, at).at <= l.hi,
    ensures
        accounted::<B>(l, schedule::rollback_run(record, trigger, held, l.events, at).at),
{
    reveal(schedule::rollback_run);
    let events = l.events;
    let started = transaction::rollback_started(
        record,
        schedule::time_or_epoch(events[at]->Now_reply),
    );
    let left = match events[at + 1]->Replace_reply {
        Ok(_) => started,
        Err(error) => started.with_failure(
            transaction::in_context(error, Stage::Recovery, Some(record.session_id), None),
        ),
    };
    lemma_run_goes_on(left, events, at + 2);
    assert(schedule::call(events[at]) is Now);
    lemma_pass::<B>(l, at, made);
    lemma_fits_like(l, record, started, made);
    lemma_fits_like(l, record, left, made);
    lemma_offer::<B>(l, at + 1, made, started);
    let after = lemma_restore_run::<B>(l, left, at + 2, made);
    assert(known::<B>(l, schedule::restore_run(left, events, at + 2).at, after));
}

proof fn lemma_doubt_rollback<B: InMemory>(
    l: Life<B::Model>,
    record: RecordView,
    trigger: ErrorView,
    held: Option<SessionId>,
    at: int,
    i: int,
)
    requires
        doubtful(l, at, i),
        in_doubt(l, record, i),
        schedule::rollback_run(record, trigger, held, l.events, at).fits,
        schedule::rollback_run(record, trigger, held, l.events, at).at <= l.hi,
    ensures
        accounted::<B>(l, schedule::rollback_run(record, trigger, held, l.events, at).at),
{
    reveal(schedule::rollback_run);
    let events = l.events;
    let started = transaction::rollback_started(
        record,
        schedule::time_or_epoch(events[at]->Now_reply),
    );
    let left = match events[at + 1]->Replace_reply {
        Ok(_) => started,
        Err(error) => started.with_failure(
            transaction::in_context(error, Stage::Recovery, Some(record.session_id), None),
        ),
    };
    lemma_run_goes_on(left, events, at + 2);
    assert(schedule::call(events[at]) is Now);
    lemma_doubt_passes(l, at, i);
    lemma_doubt_offered(l, at + 1, i, started);
    lemma_doubt_run(l, left, at + 2, i);
    assert(doubtful(l, schedule::restore_run(left, events, at + 2).at, i));
}

/// Whether an apply has come so far with what was made known.
spec fn applies_known<B: InMemory>(
    l: Life<B::Model>,
    s: Applying,
    k: int,
    made: Seq<Mark>,
) -> bool {
    &&& known::<B>(l, s.at, made)
    &&& fits(l, s.record, made)
    &&& receipted(s.record, made)
    &&& !at_rest(s.record.state)
    &&& s.halt is None ==> forall|j: int| 0 <= j < k ==> (#[trigger] made[j]) is Left
    &&& s.halt is None ==> forall|j: int|
        k <= j < made.len() ==> (#[trigger] made[j]) is Never && s.record.operations[j].state
            == OperationState::IntentRecorded
}

/// Whether an apply went no further because it is open what became of a change.
spec fn applies_in_doubt<M>(l: Life<M>, s: Applying, i: int) -> bool {
    &&& s.halt is Some
    &&& doubtful(l, s.at, i)
    &&& in_doubt(l, s.record, i)
}

/// Whether an apply is accounted for.
spec fn applies_on<B: InMemory>(l: Life<B::Model>, s: Applying, k: int) -> bool {
    (exists|made: Seq<Mark>| applies_known::<B>(l, s, k, made)) || (exists|
        i: int,
    |
        applies_in_doubt(l, s, i))
}

proof fn lemma_apply_kept<B: InMemory>(
    l: Life<B::Model>,
    s: Applying,
    stage: Stage,
    made: Seq<Mark>,
)
    requires
        lived::<B>(l),
        known::<B>(l, s.at, made),
        fits(l, s.record, made),
        receipted(s.record, made),
        schedule::apply_kept(s, stage, l.events).fits,
        s.at < l.hi,
    ensures
        known::<B>(l, s.at + 1, made),
        fits(l, schedule::apply_kept(s, stage, l.events).record, made),
        receipted(schedule::apply_kept(s, stage, l.events).record, made),
{
    lemma_offer::<B>(l, s.at, made, s.record);
    lemma_fits_like(l, s.record, schedule::apply_kept(s, stage, l.events).record, made);
}

/// A change is made, right after the record that announces it was kept.
proof fn lemma_change<B: InMemory>(
    l: Life<B::Model>,
    at: int,
    record: RecordView,
    k: int,
    made: Seq<Mark>,
)
    requires
        lived::<B>(l),
        known::<B>(l, at, made),
        fits(l, record, made),
        !at_rest(record.state),
        l.lo < at < l.hi,
        0 <= k < l.mutations.len(),
        forall|j: int| 0 <= j < k ==> (#[trigger] made[j]) is Left,
        forall|j: int| k <= j < made.len() ==> (#[trigger] made[j]) is Never,
        record.operations[k].state == OperationState::Applying,
        record.operations[k].apply_receipt is None,
        schedule::is_replaced(l.events[at - 1], record),
        schedule::call(l.events[at]) == (Call::Apply {
            mutation: l.mutations[k],
            snapshot: l.snapshots[k],
        }),
    ensures
        match l.events[at]->Apply_reply {
            Ok(receipt) => known::<B>(l, at + 1, made.update(k, Mark::Left(receipt.ownership_fingerprint))),
            Err(e) => if e.retryability == Retryability::Unknown {
                doubtful(l, at + 1, k)
            } else {
                known::<B>(l, at + 1, made)
            },
        },
{
    lemma_only_kept(l, at - 1, record, k);
    lemma_doubt_passes(l, at, k);
    reveal(lived);
    reveal(known);
    assert(host_step::<B>(l.models[at], l.events[at], l.models[at + 1]));
    assert(l.events[at] is Apply);
    B::lemma_made(l.start, l.mutations, l.snapshots, made, l.models[at], k);
    let here = durable(l.records, l.events, l.lo, at);
    assert(here == Set::empty().insert(record));
    assert(durable(l.records, l.events, l.lo, at + 1) == here);
    if let Ok(receipt) = l.events[at]->Apply_reply {
        let after = made.update(k, Mark::Left(receipt.ownership_fingerprint));
        assert(fits_operation(
            record.operations[k],
            l.mutations[k],
            l.snapshots[k],
            made[k],
        ));
        lemma_fits_with(l, record, made, after, k, record.operations[k]);
        assert(record.with_operation(k, record.operations[k]).operations =~= record.operations);
    }
}

/// A change is read back after it was made.
proof fn lemma_verified<B: InMemory>(
    l: Life<B::Model>,
    s: Applying,
    k: int,
    session_id: SessionId,
    receipt: ApplyReceipt,
    made: Seq<Mark>,
)
    requires
        lived::<B>(l),
        s.halt is None,
        applies_known::<B>(l, s, k + 1, made),
        0 <= k < l.mutations.len(),
        s.record.operations[k].apply_receipt == Some(receipt),
        s.record.operations[k].state == OperationState::Applied,
        schedule::verified(s, k, session_id, receipt, l.events).fits,
        schedule::verified(s, k, session_id, receipt, l.events).at <= l.hi,
    ensures
        applies_on::<B>(l, schedule::verified(s, k, session_id, receipt, l.events), k + 1),
{
    let events = l.events;
    let end = schedule::verified(s, k, session_id, receipt, events);
    let op = s.record.operations[k];
    let of = Some(op.mutation.mutation_id);
    let expected = receipt.ownership_fingerprint;
    assert(schedule::call(events[s.at]) is Verify);
    assert(end.at == s.at + 2);
    lemma_pass::<B>(l, s.at, made);
    assert(fits_operation(op, l.mutations[k], l.snapshots[k], made[k]));
    let verification = match events[s.at]->Verify_reply {
        Ok(observed) => VerificationResult {
            mutation_id: op.mutation.mutation_id,
            expected,
            observed: Some(observed),
            matched: observed == expected,
        },
        Err(_) => VerificationResult {
            mutation_id: op.mutation.mutation_id,
            expected,
            observed: None,
            matched: false,
        },
    };
    let record = schedule::read(s.record, k, verification);
    let seen = OperationView {
        verification: Some(verification),
        state: if verification.matched {
            OperationState::Verified
        } else {
            op.state
        },
        ..op
    };
    lemma_fits_with(l, s.record, made, made, k, seen);
    assert(record == s.record.with_operation(k, seen));
    if verification.matched {
        let next = Applying {
            at: s.at + 1,
            fits: s.fits && schedule::asked(
                events,
                s.at,
                Call::Verify {
                    mutation: op.mutation,
                    expected,
                    identity: (op.snapshot->0).target_identity,
                },
            ),
            record,
            halt: None,
        };
        assert(receipted(record, made));
        assert(end == schedule::apply_kept(next, Stage::Verify, events));
        lemma_apply_kept::<B>(l, next, Stage::Verify, made);
    } else {
        let error = match events[s.at]->Verify_reply {
            Ok(_) => transaction::session_error(
                ErrorCode::VerificationError,
                "apply readback did not match the session-owned value"@,
                Stage::Verify,
                session_id,
                of,
            ),
            Err(reply) => transaction::in_context(reply, Stage::Verify, Some(session_id), of),
        };
        lemma_failed::<B>(l, record, k, error, made);
        assert(end.record == schedule::failed(record, k, error));
        lemma_offer::<B>(l, s.at + 1, made, end.record);
    }
    assert(applies_known::<B>(l, end, k + 1, made));
}

/// A change that failed is marked.
proof fn lemma_failed<B: InMemory>(
    l: Life<B::Model>,
    record: RecordView,
    k: int,
    error: ErrorView,
    made: Seq<Mark>,
)
    requires
        fits(l, record, made),
        receipted(record, made),
        !at_rest(record.state),
        0 <= k < l.mutations.len(),
        made[k] is Left ==> record.operations[k].apply_receipt is Some,
    ensures
        fits(l, schedule::failed(record, k, error), made),
        receipted(schedule::failed(record, k, error), made),
{
    let op = OperationView { state: OperationState::Failed, ..record.operations[k] };
    assert(fits_operation(
        record.operations[k],
        l.mutations[k],
        l.snapshots[k],
        made[k],
    ));
    lemma_fits_with(l, record, made, made, k, op);
    let next = record.with_operation(k, op);
    lemma_fits_like(l, next, schedule::failed(record, k, error), made);
    assert forall|j: int| 0 <= j < made.len() && (#[trigger] made[j]) is Left implies
        schedule::failed(record, k, error).operations[j].apply_receipt is Some by {
        assert(record.operations[j].apply_receipt is Some);
    }
}

/// A change is made and read back.
proof fn lemma_make<B: InMemory>(
    l: Life<B::Model>,
    s: Applying,
    k: int,
    session_id: SessionId,
    made: Seq<Mark>,
)
    requires
        lived::<B>(l),
        s.halt is None,
        known::<B>(l, s.at, made),
        fits(l, s.record, made),
        receipted(s.record, made),
        !at_rest(s.record.state),
        l.lo < s.at,
        0 <= k < l.mutations.len(),
        forall|j: int| 0 <= j < k ==> (#[trigger] made[j]) is Left,
        forall|j: int| k <= j < made.len() ==> (#[trigger] made[j]) is Never,
        forall|j: int|
            k < j < made.len() ==> (#[trigger] s.record.operations[j]).state
                == OperationState::IntentRecorded,
        s.record.operations[k].state == OperationState::Applying,
        s.record.operations[k].apply_receipt is None,
        schedule::is_replaced(l.events[s.at - 1], s.record),
        schedule::made(s, k, session_id, l.events).fits,
        schedule::made(s, k, session_id, l.events).at <= l.hi,
    ensures
        applies_on::<B>(l, schedule::made(s, k, session_id, l.events), k + 1),
{
    let events = l.events;
    let end = schedule::made(s, k, session_id, events);
    let op = s.record.operations[k];
    let of = Some(op.mutation.mutation_id);
    assert(fits_operation(op, l.mutations[k], l.snapshots[k], made[k]));
    let asked = schedule::asked(
        events,
        s.at,
        Call::Apply { mutation: op.mutation, snapshot: op.snapshot->0 },
    );
    assert(s.at + 1 < end.at);
    assert(asked);
    lemma_change::<B>(l, s.at, s.record, k, made);
    match events[s.at]->Apply_reply {
        Err(reply) => {
            let error = transaction::in_context(reply, Stage::Apply, Some(session_id), of);
            assert(error.retryability == reply.retryability);
            if reply.retryability == Retryability::Unknown {
                assert(end.record == s.record.with_failure(error));
                assert(in_doubt(l, end.record, k));
                lemma_doubt_offered(l, s.at + 1, k, end.record);
                assert(applies_in_doubt(l, end, k));
            } else {
                assert(end.record == schedule::failed(s.record, k, error));
                lemma_failed::<B>(l, s.record, k, error, made);
                lemma_offer::<B>(l, s.at + 1, made, end.record);
                assert(applies_known::<B>(l, end, k + 1, made));
            }
        },
        Ok(receipt) => {
            let after = made.update(k, Mark::Left(receipt.ownership_fingerprint));
            let done = OperationView {
                apply_receipt: Some(receipt),
                state: OperationState::Applied,
                ..op
            };
            let record = s.record.with_operation(k, done);
            lemma_fits_with(l, s.record, made, after, k, done);
            assert(receipted(record, after)) by {
                assert forall|j: int| 0 <= j < after.len() && (#[trigger] after[j]) is Left implies
                    record.operations[j].apply_receipt is Some by {
                    if j != k {
                        assert(after[j] == made[j]);
                        assert(record.operations[j] == s.record.operations[j]);
                    }
                }
            }
            if transaction::receipt_fits(op.mutation, receipt) {
                let here = Applying { at: s.at + 1, fits: s.fits && asked, record, halt: None };
                let next = schedule::apply_kept(here, Stage::Apply, events);
                assert(next.fits && next.at == s.at + 2);
                lemma_apply_kept::<B>(l, here, Stage::Apply, after);
                if next.halt is Some {
                    assert(applies_known::<B>(l, next, k + 1, after));
                } else {
                    assert forall|j: int| k + 1 <= j < after.len() implies (#[trigger] after[j])
                        is Never && next.record.operations[j].state
                        == OperationState::IntentRecorded by {
                        assert(after[j] == made[j]);
                        assert(next.record.operations[j] == s.record.operations[j]);
                    }
                    assert(applies_known::<B>(l, next, k + 1, after));
                    lemma_verified::<B>(l, next, k, session_id, receipt, after);
                }
            } else {
                let error = transaction::session_error(
                    ErrorCode::ApplyError,
                    "backend apply receipt failed its typed identity or precondition checks"@,
                    Stage::Apply,
                    session_id,
                    of,
                );
                assert(end.record == schedule::failed(record, k, error));
                lemma_failed::<B>(l, record, k, error, after);
                lemma_offer::<B>(l, s.at + 1, after, end.record);
                assert(applies_known::<B>(l, end, k + 1, after));
            }
        },
    }
}

/// One change is applied.
proof fn lemma_step_on<B: InMemory>(
    l: Life<B::Model>,
    s: Applying,
    k: int,
    session_id: SessionId,
    made: Seq<Mark>,
)
    requires
        lived::<B>(l),
        s.halt is None,
        applies_known::<B>(l, s, k, made),
        0 <= k < l.mutations.len(),
        schedule::apply_step(s, k, session_id, l.events).fits,
        schedule::apply_step(s, k, session_id, l.events).at <= l.hi,
    ensures
        applies_on::<B>(l, schedule::apply_step(s, k, session_id, l.events), k + 1),
{
    reveal(schedule::apply_step);
    let events = l.events;
    let end = schedule::apply_step(s, k, session_id, events);
    let op = s.record.operations[k];
    assert(made[k] is Never);
    assert(fits_operation(op, l.mutations[k], l.snapshots[k], made[k]));
    let opened = OperationView { state: OperationState::Applying, ..op };
    let begun = Applying { record: s.record.with_operation(k, opened), ..s };
    lemma_fits_with(l, s.record, made, made, k, opened);
    assert(receipted(begun.record, made)) by {
        assert forall|j: int| 0 <= j < made.len() && (#[trigger] made[j]) is Left implies
            begun.record.operations[j].apply_receipt is Some by {
            assert(begun.record.operations[j] == s.record.operations[j]);
        }
    }
    let next = schedule::apply_kept(begun, Stage::Apply, events);
    if next.halt is Some {
        lemma_apply_kept::<B>(l, begun, Stage::Apply, made);
        assert(applies_known::<B>(l, end, k + 1, made));
    } else {
        assert(end == schedule::made(next, k, session_id, events));
        assert(next.at == s.at + 1 && next.at < end.at && next.fits);
        lemma_apply_kept::<B>(l, begun, Stage::Apply, made);
        assert(l.lo <= s.at) by {
            reveal(known);
        }
        assert forall|j: int| k < j < made.len() implies (#[trigger] next.record.operations[j]).state
            == OperationState::IntentRecorded by {
            assert(made[j] is Never);
            assert(next.record.operations[j] == s.record.operations[j]);
        }
        lemma_make::<B>(l, next, k, session_id, made);
    }
}

proof fn lemma_up<B: InMemory>(
    l: Life<B::Model>,
    begun: Applying,
    k: int,
    session_id: SessionId,
    made: Seq<Mark>,
)
    requires
        lived::<B>(l),
        begun.halt is None,
        applies_known::<B>(l, begun, 0, made),
        0 <= k <= l.mutations.len(),
        schedule::apply_up(begun, k, session_id, l.events).fits,
        schedule::apply_up(begun, k, session_id, l.events).at <= l.hi,
    ensures
        applies_on::<B>(l, schedule::apply_up(begun, k, session_id, l.events), k),
        begun.at <= schedule::apply_up(begun, k, session_id, l.events).at,
    decreases k,
{
    if k > 0 {
        let p = k - 1;
        let before = schedule::apply_up(begun, p, session_id, l.events);
        lemma_on_goes_on(before, p, session_id, l.events);
        lemma_up::<B>(l, begun, p, session_id, made);
        if before.halt is None {
            let now = choose|now: Seq<Mark>|
                applies_known::<B>(l, before, p, now);
            lemma_step_on::<B>(l, before, p, session_id, now);
        } else if exists|now: Seq<Mark>|
            applies_known::<B>(l, before, p, now) {
            let now = choose|now: Seq<Mark>|
                applies_known::<B>(l, before, p, now);
            assert(applies_known::<B>(l, before, k, now));
        }
    } else {
        assert(applies_known::<B>(l, begun, k, made));
    }
}

proof fn lemma_on_goes_on(s: Applying, k: int, session_id: SessionId, events: Seq<Event>)
    ensures
        s.at <= schedule::apply_step(s, k, session_id, events).at,
        schedule::apply_step(s, k, session_id, events).fits ==> s.fits,
{
    reveal(schedule::apply_step);
}

/// The end of an apply.
proof fn lemma_apply_end<B: InMemory>(
    l: Life<B::Model>,
    s: Applying,
    k: int,
    held: Option<SessionId>,
)
    requires
        lived::<B>(l),
        applies_on::<B>(l, s, k),
        schedule::apply_finished(s, held, l.events).fits,
        schedule::apply_finished(s, held, l.events).at <= l.hi,
    ensures
        accounted::<B>(l, schedule::apply_finished(s, held, l.events).at),
{
    reveal(schedule::apply_finished);
    let events = l.events;
    let end = schedule::apply_finished(s, held, events);
    if exists|made: Seq<Mark>| applies_known::<B>(l, s, k, made) {
        let made = choose|made: Seq<Mark>| applies_known::<B>(l, s, k, made);
        match s.halt {
            Some(Halt::Stop(_)) => {
                assert(known::<B>(l, end.at, made));
            },
            Some(Halt::RollBack(error)) => {
                lemma_rollback::<B>(l, s.record, error, held, s.at, made);
            },
            None => {
                assert(schedule::call(events[s.at]) is Now);
                lemma_rollback_goes_on(s.record, ErrorView { ..arbitrary() }, held, events, s.at);
                assert(s.at < l.hi) by {
                    lemma_finish_goes_on(s, held, events);
                }
                lemma_pass::<B>(l, s.at, made);
                if let Ok(now) = events[s.at]->Now_reply {
                    let record = s.record.stepped(
                        SessionState::Active,
                        now,
                        "all ordered applies and readbacks verified"@,
                    );
                    lemma_fits_like(l, s.record, record, made);
                    let here = Applying {
                        at: s.at + 1,
                        fits: s.fits && schedule::asked(events, s.at, Call::Now),
                        record,
                        halt: None,
                    };
                    let active = schedule::apply_kept(here, Stage::Verify, events);
                    lemma_finish_goes_on(s, held, events);
                    lemma_apply_kept::<B>(l, here, Stage::Verify, made);
                    match active.halt {
                        Some(Halt::RollBack(error)) => {
                            lemma_rollback::<B>(l, active.record, error, held, active.at, made);
                        },
                        _ => {
                            assert(known::<B>(l, end.at, made));
                        },
                    }
                } else {
                    assert(known::<B>(l, end.at, made));
                }
            },
        }
    } else {
        let i = choose|i: int| applies_in_doubt(l, s, i);
        match s.halt {
            Some(Halt::RollBack(error)) => {
                lemma_doubt_rollback::<B>(l, s.record, error, held, s.at, i);
            },
            _ => {
                assert(doubtful(l, end.at, i));
            },
        }
    }
}

proof fn lemma_rollback_goes_on(
    record: RecordView,
    trigger: ErrorView,
    held: Option<SessionId>,
    events: Seq<Event>,
    at: int,
)
    ensures
        at + 2 < schedule::rollback_run(record, trigger, held, events, at).at,
{
    reveal(schedule::rollback_run);
    let started = transaction::rollback_started(
        record,
        schedule::time_or_epoch(events[at]->Now_reply),
    );
    let left = match events[at + 1]->Replace_reply {
        Ok(_) => started,
        Err(error) => started.with_failure(
            transaction::in_context(error, Stage::Recovery, Some(record.session_id), None),
        ),
    };
    lemma_run_goes_on(left, events, at + 2);
}

proof fn lemma_finish_goes_on(s: Applying, held: Option<SessionId>, events: Seq<Event>)
    ensures
        s.halt is None ==> s.at < schedule::apply_finished(s, held, events).at,
        s.halt is None && events[s.at]->Now_reply is Ok ==> s.at + 1
            < schedule::apply_finished(s, held, events).at,
        s.at <= schedule::apply_finished(s, held, events).at,
        schedule::apply_finished(s, held, events).fits ==> s.fits,
{
    reveal(schedule::apply_finished);
    match s.halt {
        Some(Halt::RollBack(error)) => {
            lemma_rollback_goes_on(s.record, error, held, events, s.at);
        },
        Some(_) => {},
        None => {
            if let Ok(now) = events[s.at]->Now_reply {
                let record = s.record.stepped(
                    SessionState::Active,
                    now,
                    "all ordered applies and readbacks verified"@,
                );
                let active = schedule::apply_kept(
                    Applying {
                        at: s.at + 1,
                        fits: s.fits && schedule::asked(events, s.at, Call::Now),
                        record,
                        halt: None,
                    },
                    Stage::Verify,
                    events,
                );
                if let Some(Halt::RollBack(error)) = active.halt {
                    lemma_rollback_goes_on(active.record, error, held, events, active.at);
                }
            }
        },
    }
}

/// A session is applied on request.
proof fn lemma_apply_request<B: InMemory>(l: Life<B::Model>, held: Option<SessionId>, at: int)
    requires
        lived::<B>(l),
        accounted::<B>(l, at),
        l.lo <= at,
        recalled(l.records, l.events, l.lo, l.hi),
        schedule::apply_request(l.session_id, held, l.events, at).fits,
        schedule::apply_request(l.session_id, held, l.events, at).at <= l.hi,
    ensures
        accounted::<B>(l, schedule::apply_request(l.session_id, held, l.events, at).at),
{
    let events = l.events;
    let end = schedule::apply_request(l.session_id, held, events, at);
    if transaction::lease_refusal(held, l.session_id) is None {
        assert(schedule::call(events[at]) is Load);
        let reply = events[at]->Load_reply;
        let runs = reply is Ok && transaction::apply_reply(reply->Ok_0, l.session_id) is None;
        let record = reply->Ok_0;
        if runs {
            lemma_apply_goes_on(record, l.session_id, held, events, at + 1);
        }
        lemma_accounted_passes::<B>(l, at);
        if runs {
            assert(durable(l.records, events, l.lo, at).contains(record)) by {
                assert(events[at] is Load);
            }
            let next = at + 1;
            assert(exists|made: Seq<Mark>| known::<B>(l, next, made)) by {
                if !exists|made: Seq<Mark>| known::<B>(l, next, made) {
                    let i = choose|i: int| doubtful(l, next, i);
                    reveal(doubtful);
                    assert(durable(l.records, events, l.lo, next) == durable(
                        l.records,
                        events,
                        l.lo,
                        at,
                    ));
                    assert(in_doubt(l, record, i));
                }
            }
            let made = choose|made: Seq<Mark>| known::<B>(l, next, made);
            assert(fits(l, record, made)) by {
                reveal(known);
                assert(durable(l.records, events, l.lo, at + 1) == durable(
                    l.records,
                    events,
                    l.lo,
                    at,
                ));
            }
            lemma_apply_run::<B>(l, record, held, at + 1, made);
        }
    }
}

proof fn lemma_accounted_passes<B: InMemory>(l: Life<B::Model>, k: int)
    requires
        lived::<B>(l),
        accounted::<B>(l, k),
        k < l.hi,
        changes_nothing(l.events[k]),
    ensures
        accounted::<B>(l, k + 1),
{
    if exists|made: Seq<Mark>| known::<B>(l, k, made) {
        let made = choose|made: Seq<Mark>| known::<B>(l, k, made);
        lemma_pass::<B>(l, k, made);
    } else {
        let i = choose|i: int| doubtful(l, k, i);
        lemma_doubt_passes(l, k, i);
    }
}

proof fn lemma_apply_goes_on(
    record: RecordView,
    session_id: SessionId,
    held: Option<SessionId>,
    events: Seq<Event>,
    at: int,
)
    ensures
        at < schedule::apply_run(record, session_id, held, events, at).at,
        events[at]->Now_reply is Ok ==> at + 1 < schedule::apply_run(
            record,
            session_id,
            held,
            events,
            at,
        ).at,
{
    if let Ok(now) = events[at]->Now_reply {
        let started = record.stepped(
            SessionState::Applying,
            now,
            "ordered mutation application started"@,
        );
        let begun = schedule::apply_kept(
            Applying {
                at: at + 1,
                fits: schedule::asked(events, at, Call::Now),
                record: started,
                halt: None,
            },
            Stage::Apply,
            events,
        );
        let n = record.operations.len() as int;
        lemma_finish_goes_on(begun, held, events);
        lemma_up_goes_on(begun, n, session_id, events);
        lemma_finish_goes_on(schedule::apply_up(begun, n, session_id, events), held, events);
    }
}

proof fn lemma_up_goes_on(begun: Applying, k: int, session_id: SessionId, events: Seq<Event>)
    ensures
        begun.at <= schedule::apply_up(begun, k, session_id, events).at,
        schedule::apply_up(begun, k, session_id, events).fits ==> begun.fits,
    decreases k,
{
    if k > 0 {
        lemma_up_goes_on(begun, k - 1, session_id, events);
        lemma_on_goes_on(
            schedule::apply_up(begun, k - 1, session_id, events),
            k - 1,
            session_id,
            events,
        );
    }
}

/// All changes of a session are applied.
proof fn lemma_apply_run<B: InMemory>(
    l: Life<B::Model>,
    record: RecordView,
    held: Option<SessionId>,
    at: int,
    made: Seq<Mark>,
)
    requires
        lived::<B>(l),
        known::<B>(l, at, made),
        fits(l, record, made),
        record.state == SessionState::IntentDurable,
        schedule::apply_run(record, l.session_id, held, l.events, at).fits,
        schedule::apply_run(record, l.session_id, held, l.events, at).at <= l.hi,
    ensures
        accounted::<B>(l, schedule::apply_run(record, l.session_id, held, l.events, at).at),
{
    let events = l.events;
    let end = schedule::apply_run(record, l.session_id, held, events, at);
    lemma_apply_goes_on(record, l.session_id, held, events, at);
    if let Ok(now) = events[at]->Now_reply {
        let started = record.stepped(
            SessionState::Applying,
            now,
            "ordered mutation application started"@,
        );
        let here = Applying {
            at: at + 1,
            fits: schedule::asked(events, at, Call::Now),
            record: started,
            halt: None,
        };
        let begun = schedule::apply_kept(here, Stage::Apply, events);
        let n = record.operations.len() as int;
        let s = schedule::apply_up(begun, n, l.session_id, events);
        lemma_finish_goes_on(begun, held, events);
        lemma_finish_goes_on(s, held, events);
        lemma_up_goes_on(begun, n, l.session_id, events);
        assert(schedule::call(events[at]) is Now);
        lemma_pass::<B>(l, at, made);
        lemma_fits_like(l, record, started, made);
        assert forall|j: int| 0 <= j < made.len() implies (#[trigger] made[j]) is Never
            && started.operations[j].state == OperationState::IntentRecorded by {
            assert(record.operations[j].state == OperationState::IntentRecorded);
        }
        assert(receipted(started, made));
        lemma_apply_kept::<B>(l, here, Stage::Apply, made);
        assert(applies_known::<B>(l, begun, 0, made));
        if begun.halt is Some {
            lemma_apply_end::<B>(l, begun, 0, held);
        } else {
            lemma_up::<B>(l, begun, n, l.session_id, made);
            lemma_apply_end::<B>(l, s, n, held);
        }
    } else {
        assert(schedule::call(events[at]) is Now);
        lemma_pass::<B>(l, at, made);
        assert(known::<B>(l, end.at, made));
    }
}

/// A session is restored on request.
proof fn lemma_restore_request<B: InMemory>(l: Life<B::Model>, held: Option<SessionId>, at: int)
    requires
        lived::<B>(l),
        accounted::<B>(l, at),
        l.lo <= at,
        recalled(l.records, l.events, l.lo, l.hi),
        schedule::restore_request(l.session_id, held, l.events, at).fits,
        schedule::restore_request(l.session_id, held, l.events, at).at <= l.hi,
    ensures
        accounted::<B>(l, schedule::restore_request(l.session_id, held, l.events, at).at),
{
    let events = l.events;
    let end = schedule::restore_request(l.session_id, held, events, at);
    if !(held is Some && held != Some(l.session_id)) {
        assert(schedule::call(events[at]) is Load);
        let reply = events[at]->Load_reply;
        let record = reply->Ok_0;
        let runs = reply is Ok && record.state != SessionState::Restored && held is Some;
        if runs {
            lemma_resume_goes_on(record, events, at + 1);
        }
        lemma_accounted_passes::<B>(l, at);
        if runs {
            assert(durable(l.records, events, l.lo, at).contains(record)) by {
                assert(events[at] is Load);
            }
            assert(durable(l.records, events, l.lo, at + 1) == durable(
                l.records,
                events,
                l.lo,
                at,
            ));
            lemma_resume::<B>(l, record, at + 1);
        }
    }
}

proof fn lemma_resume_goes_on(record: RecordView, events: Seq<Event>, at: int)
    ensures
        at < schedule::resume_run(record, events, at).at,
{
    reveal(schedule::resume_run);
    if let Ok(now) = events[at]->Now_reply {
        if let Ok(started) = transaction::restore_started(record, now) {
            lemma_run_goes_on(started, events, at + 1);
            lemma_run_goes_on(started, events, at + 2);
        }
    }
}

/// Unfinished sessions are recovered.
proof fn lemma_recover_request<B: InMemory>(l: Life<B::Model>, held: Option<SessionId>, at: int)
    requires
        lived::<B>(l),
        accounted::<B>(l, at),
        l.lo <= at,
        recalled(l.records, l.events, l.lo, l.hi),
        schedule::recover_request(held, l.events, at).fits,
        schedule::recover_request(held, l.events, at).at <= l.hi,
    ensures
        accounted::<B>(l, schedule::recover_request(held, l.events, at).at),
{
    let events = l.events;
    let end = schedule::recover_request(held, events, at);
    if held is None {
        let listed = events[at]->Acquire_reply is Ok;
        let reply = events[at + 1]->LoadUnfinished_reply;
        let records = reply->Ok_0;
        if listed && reply is Ok {
            let begun = Recovery {
                at: at + 2,
                fits: schedule::asked(events, at, Call::Acquire) && schedule::asked(
                    events,
                    at + 1,
                    Call::LoadUnfinished,
                ),
                statuses: Seq::empty(),
                error: None,
            };
            let sorted = transaction::by_session(records);
            let n = records.len() as int;
            lemma_recovery_goes_on(begun, sorted, n, events);
            assert(events[at] is Acquire);
            lemma_accounted_passes::<B>(l, at);
            assert(events[at + 1] is LoadUnfinished);
            lemma_accounted_passes::<B>(l, at + 1);
            if n == 1 {
                assert(durable(l.records, events, l.lo, at + 1).contains(records[0]));
                assert(durable(l.records, events, l.lo, at + 2) == durable(
                    l.records,
                    events,
                    l.lo,
                    at + 1,
                ));
                lemma_one_sorted(records);
                reveal_with_fuel(schedule::recover_up, 2);
                lemma_resume::<B>(l, records[0], at + 2);
            }
        } else {
            assert(events[at] is Acquire);
            lemma_accounted_passes::<B>(l, at);
            if listed {
                assert(events[at + 1] is LoadUnfinished);
                lemma_accounted_passes::<B>(l, at + 1);
            }
        }
    }
}

proof fn lemma_recovery_goes_on(
    begun: Recovery,
    records: Seq<RecordView>,
    k: int,
    events: Seq<Event>,
)
    ensures
        begun.at <= schedule::recover_up(begun, records, k, events).at,
        schedule::recover_up(begun, records, k, events).fits ==> begun.fits,
    decreases k,
{
    if k > 0 {
        lemma_recovery_goes_on(begun, records, k - 1, events);
        lemma_resume_goes_on(
            records[k - 1],
            events,
            schedule::recover_up(begun, records, k - 1, events).at,
        );
    }
}

/// One record is sorted.
proof fn lemma_one_sorted(records: Seq<RecordView>)
    requires
        records.len() == 1,
    ensures
        transaction::by_session(records) == records,
{
    reveal_with_fuel(transaction::by_session, 2);
    assert(transaction::by_session(records) =~= records);
}

/// What is asked of a coordinator about a session, and what came of it.
pub enum Request {
    Apply(Result<SessionState, ErrorView>),
    Restore(Result<SessionState, ErrorView>),
    Recover(Result<Seq<TransactionStatus>, ErrorView>),
}

/// A request to a coordinator, between what it was before and what it is afterwards.
pub struct Visit<B, S, L: ExclusiveSessionLock, G, C> {
    pub before: TransactionEngine<B, S, L, G, C>,
    pub request: Request,
    pub after: TransactionEngine<B, S, L, G, C>,
}

/// Whether an event only reads: it changes neither a target nor a record.
pub open spec fn only_reads(e: Event) -> bool {
    !(e is Apply || e is Restore || e is Create || e is Replace || e is Remove)
}

/// The record that was made durable last before a position.
pub open spec fn intent(history: Seq<Event>, to: int) -> RecordView {
    history[to - 1]->Create_record
}

/// Whether a plan was prepared under an identity between two positions of the history.
/// Before and after, the coordinator did nothing but read.
pub open spec fn is_prepared<B, S, L, G, C>(
    before: TransactionEngine<B, S, L, G, C>,
    plan: PlanDataView,
    session_id: SessionId,
    prepared: TransactionEngine<B, S, L, G, C>,
    from: int,
    to: int,
) -> bool where
    B: MutationBackend,
    S: SessionStateStore,
    L: ExclusiveSessionLock,
    G: SessionIdSource,
    C: Clock,
 {
    &&& before.wf()
    &&& prepared.wf()
    &&& prepared.goes_on_from(&before)
    &&& transaction::untouched(before.history(), prepared.history())
    &&& before.history().len() <= from <= to <= prepared.history().len()
    &&& schedule::prepare_run(plan, before.active(), prepared.history(), from) == (PrepareEnd {
        at: to,
        fits: true,
        result: Ok(session_id),
    })
    &&& forall|k: int|
        before.history().len() <= k < from || to <= k < prepared.history().len() ==> only_reads(
            #[trigger] prepared.history()[k],
        )
}

/// Admitting a plan only reads.
proof fn lemma_admission_reads(plan: PlanDataView, i: int, events: Seq<Event>, at: int)
    requires
        privilege::admission_run(plan, i, events, at).fits,
        privilege::admission_run(plan, i, events, at).result is Ok,
    ensures
        at <= privilege::admission_run(plan, i, events, at).at,
        forall|k: int|
            at <= k < privilege::admission_run(plan, i, events, at).at ==> only_reads(
                #[trigger] events[k],
            ),
    decreases plan.mutations.len() - i,
{
    if i < plan.mutations.len() {
        let end = privilege::admission_run(plan, i, events, at);
        let next = at + 1;
        lemma_admission_reads(plan, i + 1, events, next + 1);
        assert forall|k: int| at <= k < end.at implies only_reads(#[trigger] events[k]) by {
            assert(k == at || k == next || k >= next + 1);
        }
    }
}

/// A session that a helper gave out was prepared by its coordinator: after the plan was
/// admitted, and before the targets were held against the plan.
pub proof fn helper_sessions_are_prepared<B, S, L, G, C>(
    before: PrivilegeService<B, S, L, G, C>,
    plan: PlanDataView,
    handle: SessionHandle,
    prepared: PrivilegeService<B, S, L, G, C>,
) -> (from: int) where
    B: MutationBackend,
    S: SessionStateStore,
    L: ExclusiveSessionLock,
    G: SessionIdSource,
    C: Clock,

    requires
        before.wf(),
        prepared.wf(),
        prepared.goes_on_from(&before),
        privilege::prepared_for(
            before.observed(),
            prepared.observed(),
            handle.owner,
            Some(plan),
            handle.plan_id,
            handle.plan_digest,
            Ok(handle),
        ),
    ensures
        is_prepared(
            before.coordinator(),
            plan,
            handle.session_id,
            prepared.coordinator(),
            from,
            prepared.observed().history.len() - 1,
        ),
{
    let events = prepared.coordinator().history();
    let lo = before.coordinator().history().len() as int;
    let admitted = privilege::admission_run(plan, 0, events, lo);
    let ready = schedule::prepare_run(plan, before.coordinator().active(), events, admitted.at);
    lemma_admission_reads(plan, 0, events, lo);
    lemma_prepared_len(plan, before.coordinator().active(), events, admitted.at);
    assert(schedule::call(events[ready.at]) is Load);
    admitted.at
}

/// Whether a request about a session took place.
pub open spec fn took_place<B, S, L, G, C>(
    visit: Visit<B, S, L, G, C>,
    session_id: SessionId,
) -> bool where
    B: MutationBackend,
    S: SessionStateStore,
    L: ExclusiveSessionLock,
    G: SessionIdSource,
    C: Clock,
 {
    let before = visit.before;
    let after = visit.after;
    &&& before.wf()
    &&& after.wf()
    &&& after.goes_on_from(&before)
    &&& match visit.request {
        Request::Apply(r) => transaction::apply_outcome(
            before.history(),
            before.active(),
            after.history(),
            after.active(),
            session_id,
            r,
        ),
        Request::Restore(r) => transaction::restore_outcome(
            before.history(),
            before.active(),
            after.history(),
            after.active(),
            session_id,
            r,
        ),
        Request::Recover(r) => schedule::recover_request(
            before.active(),
            after.history(),
            before.history().len() as int,
        ) == (RecoverEnd {
            at: after.history().len() as int,
            fits: true,
            result: r,
            holds: after.active(),
        }),
    }
}

/// Whether a request ended with the session restored: by its answer, or, after an apply
/// that was rolled back, by the lock that was given back.
pub open spec fn ends_restored<B, S, L, G, C>(
    visit: Visit<B, S, L, G, C>,
    session_id: SessionId,
) -> bool where
    B: MutationBackend,
    S: SessionStateStore,
    L: ExclusiveSessionLock,
    G: SessionIdSource,
    C: Clock,
 {
    match visit.request {
        Request::Apply(r) => visit.before.active() == Some(session_id) && visit.after.active()
            is None,
        Request::Restore(r) => r is Ok,
        Request::Recover(r) => r matches Ok(statuses) && statuses.len() > 0,
    }
}

/// What may be durable of a session before a request, where an intent was durable before
/// the first.
pub open spec fn records_before<B, S, L, G, C>(
    intent: RecordView,
    visits: Seq<Visit<B, S, L, G, C>>,
    k: int,
) -> Set<RecordView> where
    B: MutationBackend,
    S: SessionStateStore,
    L: ExclusiveSessionLock,
    G: SessionIdSource,
    C: Clock,

    decreases k,
{
    if k <= 0 {
        Set::empty().insert(intent)
    } else {
        durable(
            records_before(intent, visits, k - 1),
            visits[k - 1].after.history(),
            visits[k - 1].before.history().len() as int,
            visits[k - 1].after.history().len() as int,
        )
    }
}

/// Whether requests about one session took place one after the other, by one coordinator
/// or by several, and its records came back as they were offered.
pub open spec fn in_turn<B, S, L, G, C>(
    intent: RecordView,
    visits: Seq<Visit<B, S, L, G, C>>,
    session_id: SessionId,
) -> bool where
    B: MutationBackend,
    S: SessionStateStore,
    L: ExclusiveSessionLock,
    G: SessionIdSource,
    C: Clock,
 {
    forall|k: int|
        0 <= k < visits.len() ==> {
            &&& took_place(#[trigger] visits[k], session_id)
            &&& recalled(
                records_before(intent, visits, k),
                visits[k].after.history(),
                visits[k].before.history().len() as int,
                visits[k].after.history().len() as int,
            )
        }
}

/// The moment between two requests.
spec fn moment<B: InMemory>(
    session_id: SessionId,
    start: B::Model,
    mutations: Seq<MutationView>,
    snapshots: Seq<SnapshotView>,
    records: Set<RecordView>,
    model: B::Model,
) -> Life<B::Model> {
    Life {
        session_id,
        start,
        mutations,
        snapshots,
        records,
        events: Seq::empty(),
        models: seq![model],
        lo: 0,
        hi: 0,
    }
}

/// Where nothing is left of a session that counts as restored.
proof fn lemma_at_rest<B: InMemory>(l: Life<B::Model>, k: int, record: RecordView)
    requires
        lived::<B>(l),
        accounted::<B>(l, k),
        durable(l.records, l.events, l.lo, k).contains(record),
        record.state == SessionState::Restored,
    ensures
        B::same(l.start, l.models[k]),
{
    if exists|made: Seq<Mark>| known::<B>(l, k, made) {
        let made = choose|made: Seq<Mark>| known::<B>(l, k, made);
        reveal(known);
        reveal(lived);
        assert(fits(l, record, made));
        assert forall|j: int| 0 <= j < made.len() implies !((#[trigger] made[j]) is Left) by {
            assert(fits_operation(
                record.operations[j],
                l.mutations[j],
                l.snapshots[j],
                made[j],
            ));
            assert(session::undone(record.operations[j]));
        }
        B::lemma_nothing_left(l.start, l.mutations, l.snapshots, made, l.models[k]);
    } else {
        let i = choose|i: int| doubtful(l, k, i);
        reveal(doubtful);
        assert(in_doubt(l, record, i));
    }
}

/// The same session, host and records at another place.
proof fn lemma_moved<B: InMemory>(l: Life<B::Model>, k: int, m: Life<B::Model>, j: int)
    requires
        accounted::<B>(l, k),
        m.session_id == l.session_id,
        m.start == l.start,
        m.mutations == l.mutations,
        m.snapshots == l.snapshots,
        m.lo <= j <= m.hi,
        m.models[j] == l.models[k],
        durable(m.records, m.events, m.lo, j) == durable(l.records, l.events, l.lo, k),
    ensures
        accounted::<B>(m, j),
{
    if exists|made: Seq<Mark>| known::<B>(l, k, made) {
        let made = choose|made: Seq<Mark>| known::<B>(l, k, made);
        reveal(known);
        assert(known::<B>(m, j, made)) by {
            assert forall|record: RecordView| #[trigger]
                durable(m.records, m.events, m.lo, j).contains(record) implies fits(
                m,
                record,
                made,
            ) by {
                assert(fits(l, record, made));
            }
        }
    } else {
        let i = choose|i: int| doubtful(l, k, i);
        reveal(doubtful);
        assert(doubtful(m, j, i)) by {
            assert forall|record: RecordView| #[trigger]
                durable(m.records, m.events, m.lo, j).contains(record) implies in_doubt(
                m,
                record,
                i,
            ) by {
                assert(in_doubt(l, record, i));
            }
        }
    }
}

/// A record that was kept last.
proof fn lemma_kept_last(records: Set<RecordView>, events: Seq<Event>, lo: int, hi: int)
    requires
        lo < hi,
        schedule::call(events[hi - 1]) is Replace,
        events[hi - 1]->Replace_reply is Ok,
    ensures
        durable(records, events, lo, hi).contains(events[hi - 1]->Replace_record),
{
}

/// Where a request ended with the session restored, a record that says so may be durable.
proof fn lemma_says_so<B, S, L, G, C>(
    visit: Visit<B, S, L, G, C>,
    session_id: SessionId,
    records: Set<RecordView>,
) -> (record: RecordView) where
    B: MutationBackend,
    S: SessionStateStore,
    L: ExclusiveSessionLock,
    G: SessionIdSource,
    C: Clock,

    requires
        took_place(visit, session_id),
        ends_restored(visit, session_id),
        recalled(
            records,
            visit.after.history(),
            visit.before.history().len() as int,
            visit.after.history().len() as int,
        ),
    ensures
        durable(
            records,
            visit.after.history(),
            visit.before.history().len() as int,
            visit.after.history().len() as int,
        ).contains(record),
        record.state == SessionState::Restored,
{
    let events = visit.after.history();
    let at = visit.before.history().len() as int;
    let hi = events.len() as int;
    let held = visit.before.active();
    match visit.request {
        Request::Apply(r) => {
            let end = schedule::apply_request(session_id, held, events, at);
            assert(events[at] is Load);
            let record = events[at]->Load_reply->Ok_0;
            lemma_apply_goes_on(record, session_id, held, events, at + 1);
            if hi == at + 1 {
                assert(durable(records, events, at, at).contains(record));
                record
            } else {
                lemma_released(record, session_id, held, events, at + 1);
                lemma_kept_last(records, events, at, hi);
                events[hi - 1]->Replace_record
            }
        },
        Request::Restore(r) => {
            assert(events[at] is Load);
            let record = events[at]->Load_reply->Ok_0;
            if record.state == SessionState::Restored {
                assert(durable(records, events, at, at).contains(record));
                record
            } else {
                lemma_resumed(record, events, at + 1);
                lemma_kept_last(records, events, at, hi);
                events[hi - 1]->Replace_record
            }
        },
        Request::Recover(r) => {
            let found = events[at + 1]->LoadUnfinished_reply->Ok_0;
            let begun = Recovery {
                at: at + 2,
                fits: schedule::asked(events, at, Call::Acquire) && schedule::asked(
                    events,
                    at + 1,
                    Call::LoadUnfinished,
                ),
                statuses: Seq::empty(),
                error: None,
            };
            let sorted = transaction::by_session(found);
            lemma_recovery_goes_on(begun, sorted, found.len() as int, events);
            assert(events[at + 1] is LoadUnfinished);
            assert(found.len() <= 1);
            if found.len() == 1 {
                lemma_one_sorted(found);
                reveal_with_fuel(schedule::recover_up, 2);
                lemma_resumed(found[0], events, at + 2);
                lemma_resume_goes_on(found[0], events, at + 2);
                lemma_kept_last(records, events, at, hi);
            }
            events[hi - 1]->Replace_record
        },
    }
}

/// A session that was resumed to its end has its record kept last.
proof fn lemma_resumed(record: RecordView, events: Seq<Event>, at: int)
    requires
        schedule::resume_run(record, events, at).fits,
        schedule::resume_run(record, events, at).result is Ok,
    ensures
        ({
            let last = events[schedule::resume_run(record, events, at).at - 1];
            &&& schedule::call(last) is Replace
            &&& last->Replace_reply is Ok
            &&& (last->Replace_record).state == SessionState::Restored
        }),
        at < schedule::resume_run(record, events, at).at,
{
    reveal(schedule::resume_run);
    lemma_resume_goes_on(record, events, at);
    let started = transaction::restore_started(record, events[at]->Now_reply->Ok_0)->Ok_0;
    if started.state == SessionState::Restored {
        schedule::restored_means_undone(started, events, at + 1);
    } else {
        schedule::restored_means_undone(started, events, at + 2);
    }
}

/// An apply that gave back the lock has its record kept last.
proof fn lemma_released(
    record: RecordView,
    session_id: SessionId,
    held: Option<SessionId>,
    events: Seq<Event>,
    at: int,
)
    requires
        held == Some(session_id),
        schedule::apply_run(record, session_id, held, events, at).fits,
        schedule::apply_run(record, session_id, held, events, at).holds is None,
    ensures
        ({
            let last = events[schedule::apply_run(record, session_id, held, events, at).at - 1];
            &&& schedule::call(last) is Replace
            &&& last->Replace_reply is Ok
            &&& (last->Replace_record).state == SessionState::Restored
        }),
{
    let now = events[at]->Now_reply->Ok_0;
    let started = record.stepped(
        SessionState::Applying,
        now,
        "ordered mutation application started"@,
    );
    let begun = schedule::apply_kept(
        Applying {
            at: at + 1,
            fits: schedule::asked(events, at, Call::Now),
            record: started,
            halt: None,
        },
        Stage::Apply,
        events,
    );
    let s = if begun.halt is Some {
        begun
    } else {
        schedule::apply_up(begun, record.operations.len() as int, session_id, events)
    };
    reveal(schedule::apply_finished);
    match s.halt {
        Some(Halt::RollBack(error)) => {
            schedule::failed_applies_are_undone_or_reported(s.record, error, held, events, s.at);
        },
        Some(_) => {},
        None => {
            let record = s.record.stepped(
                SessionState::Active,
                events[s.at]->Now_reply->Ok_0,
                "all ordered applies and readbacks verified"@,
            );
            let active = schedule::apply_kept(
                Applying {
                    at: s.at + 1,
                    fits: s.fits && schedule::asked(events, s.at, Call::Now),
                    record,
                    halt: None,
                },
                Stage::Verify,
                events,
            );
            if let Some(Halt::RollBack(error)) = active.halt {
                schedule::failed_applies_are_undone_or_reported(
                    active.record,
                    error,
                    held,
                    events,
                    active.at,
                );
            }
        },
    }
}

/// Whether every change that a request made suits what was held.
pub(crate) open spec fn suits_all<B, S, L, G, C>(visit: Visit<B, S, L, G, C>) -> bool where
    B: InMemory,
    S: SessionStateStore,
    L: ExclusiveSessionLock,
    G: SessionIdSource,
    C: Clock,
 {
    forall|k: int|
        visit.before.history().len() <= k < visit.after.history().len()
            && #[trigger] visit.after.history()[k] is Apply ==> B::suits(
            visit.after.steps()[k].before.backend.held(),
            visit.after.history()[k]->Apply_mutation,
            visit.after.history()[k]->Apply_snapshot,
        )
}

/// One request.
proof fn lemma_visit<B, S, L, G, C>(
    visit: Visit<B, S, L, G, C>,
    l: Life<B::Model>,
) where
    B: InMemory,
    S: SessionStateStore,
    L: ExclusiveSessionLock,
    G: SessionIdSource,
    C: Clock,

    requires
        took_place(visit, l.session_id),
        suits_all(visit),
        B::sound(visit.before.held_backend().held()),
        l == moment::<B>(
            l.session_id,
            l.start,
            l.mutations,
            l.snapshots,
            l.records,
            visit.before.held_backend().held(),
        ),
        lived::<B>(l),
        accounted::<B>(l, 0),
        recalled(
            l.records,
            visit.after.history(),
            visit.before.history().len() as int,
            visit.after.history().len() as int,
        ),
    ensures
        ({
            let next = moment::<B>(
                l.session_id,
                l.start,
                l.mutations,
                l.snapshots,
                durable(
                    l.records,
                    visit.after.history(),
                    visit.before.history().len() as int,
                    visit.after.history().len() as int,
                ),
                visit.after.held_backend().held(),
            );
            &&& lived::<B>(next)
            &&& accounted::<B>(next, 0)
        }),
        B::sound(visit.after.held_backend().held()),
        ends_restored(visit, l.session_id) ==> B::same(
            l.start,
            visit.after.held_backend().held(),
        ),
{
    let events = visit.after.history();
    let lo = visit.before.history().len() as int;
    let hi = events.len() as int;
    let held = visit.before.active();
    visit.before.stands_here();
    assert(visit.after.came_from(lo, visit.before.world()));
    let models = lemma_models(
        events,
        visit.after.steps(),
        lo,
        visit.before.world(),
        visit.after.world(),
    );
    let m = Life { events, models, lo, hi, ..l };
    assert(lived::<B>(m)) by {
        reveal(lived);
        assert forall|k: int| lo <= k < hi && #[trigger] events[k] is Apply implies B::suits(
            models[k],
            events[k]->Apply_mutation,
            events[k]->Apply_snapshot,
        ) by {
            assert(models[k] == visit.after.steps()[k].before.backend.held());
        }
    }
    lemma_moved::<B>(l, 0, m, lo);
    match visit.request {
        Request::Apply(r) => {
            assert(schedule::apply_request(l.session_id, held, events, lo) == (Ending {
                at: hi,
                fits: true,
                result: r,
                holds: visit.after.active(),
            }));
            lemma_apply_request::<B>(m, held, lo);
        },
        Request::Restore(r) => {
            assert(schedule::restore_request(l.session_id, held, events, lo) == (Ending {
                at: hi,
                fits: true,
                result: r,
                holds: visit.after.active(),
            }));
            lemma_restore_request::<B>(m, held, lo);
        },
        Request::Recover(r) => {
            lemma_recover_request::<B>(m, held, lo);
        },
    }
    let next = moment::<B>(
        l.session_id,
        l.start,
        l.mutations,
        l.snapshots,
        durable(l.records, events, lo, hi),
        visit.after.held_backend().held(),
    );
    assert(lived::<B>(next)) by {
        reveal(lived);
    }
    lemma_moved::<B>(m, hi, next, 0);
    if ends_restored(visit, l.session_id) {
        let record = lemma_says_so(visit, l.session_id, l.records);
        lemma_at_rest::<B>(m, hi, record);
    }
}

/// The backend as a visit should find it: as the visit before left it.
pub open spec fn backend_before<B, S, L, G, C>(
    prepared: TransactionEngine<B, S, L, G, C>,
    visits: Seq<Visit<B, S, L, G, C>>,
    k: int,
) -> B where
    B: MutationBackend,
    S: SessionStateStore,
    L: ExclusiveSessionLock,
    G: SessionIdSource,
    C: Clock,
 {
    if k <= 0 {
        prepared.held_backend()
    } else {
        visits[k - 1].after.held_backend()
    }
}

/// Whether nobody else changed the host.
pub(crate) open spec fn undisturbed<B, S, L, G, C>(
    prepared: TransactionEngine<B, S, L, G, C>,
    visits: Seq<Visit<B, S, L, G, C>>,
) -> bool where
    B: InMemory,
    S: SessionStateStore,
    L: ExclusiveSessionLock,
    G: SessionIdSource,
    C: Clock,
 {
    forall|k: int|
        0 <= k < visits.len() ==> (#[trigger] visits[k]).before.held_backend().held()
            == backend_before(prepared, visits, k).held()
}

/// The first requests.
proof fn lemma_visits<B, S, L, G, C>(
    prepared: TransactionEngine<B, S, L, G, C>,
    intent: RecordView,
    visits: Seq<Visit<B, S, L, G, C>>,
    first: Life<B::Model>,
    k: int,
) where
    B: InMemory,
    S: SessionStateStore,
    L: ExclusiveSessionLock,
    G: SessionIdSource,
    C: Clock,

    requires
        in_turn(intent, visits, first.session_id),
        undisturbed(prepared, visits),
        forall|i: int| 0 <= i < visits.len() ==> suits_all(#[trigger] visits[i]),
        first == moment::<B>(
            first.session_id,
            first.start,
            first.mutations,
            first.snapshots,
            records_before(intent, visits, 0),
            prepared.held_backend().held(),
        ),
        lived::<B>(first),
        accounted::<B>(first, 0),
        B::sound(prepared.held_backend().held()),
        0 <= k <= visits.len(),
    ensures
        B::sound(backend_before(prepared, visits, k).held()),
        ({
            let l = moment::<B>(
                first.session_id,
                first.start,
                first.mutations,
                first.snapshots,
                records_before(intent, visits, k),
                if k == 0 {
                    prepared.held_backend().held()
                } else {
                    visits[k - 1].after.held_backend().held()
                },
            );
            &&& lived::<B>(l)
            &&& accounted::<B>(l, 0)
        }),
        k > 0 && ends_restored(visits[k - 1], first.session_id) ==> B::same(
            first.start,
            visits[k - 1].after.held_backend().held(),
        ),
    decreases k,
{
    if k > 0 {
        lemma_visits(prepared, intent, visits, first, k - 1);
        assert(suits_all(visits[k - 1]));
        assert(took_place(visits[k - 1], first.session_id));
        let l = moment::<B>(
            first.session_id,
            first.start,
            first.mutations,
            first.snapshots,
            records_before(intent, visits, k - 1),
            visits[k - 1].before.held_backend().held(),
        );
        lemma_visit(visits[k - 1], l);
    }
}

/// A whole life.
#[verifier::rlimit(80)]
pub(crate) proof fn lemma_life<B, S, L, G, C>(
    before: TransactionEngine<B, S, L, G, C>,
    plan: PlanDataView,
    session_id: SessionId,
    prepared: TransactionEngine<B, S, L, G, C>,
    from: int,
    to: int,
    visits: Seq<Visit<B, S, L, G, C>>,
) where
    B: InMemory,
    S: SessionStateStore,
    L: ExclusiveSessionLock,
    G: SessionIdSource,
    C: Clock,

    requires
        is_prepared(before, plan, session_id, prepared, from, to),
        in_turn(intent(prepared.history(), to), visits, session_id),
        undisturbed(prepared, visits),
        forall|i: int| 0 <= i < visits.len() ==> suits_all(#[trigger] visits[i]),
        forall|now: Timestamp, snapshots: Seq<SnapshotView>| #[trigger]
            captured::<B>(before.held_backend().held(), plan.mutations, snapshots, now)
                ==> B::planned(before.held_backend().held(), plan.mutations, snapshots),
        visits.len() > 0,
        ends_restored(visits.last(), session_id),
        B::sound(before.held_backend().held()),
    ensures
        B::same(before.held_backend().held(), visits.last().after.held_backend().held()),
{
    let events = prepared.history();
    let lo = before.history().len() as int;
    let hi = events.len() as int;
    before.stands_here();
    assert(prepared.came_from(lo, before.world()));
    let models = lemma_models(events, prepared.steps(), lo, before.world(), prepared.world());
    assert(before.history() =~= events.take(lo)) by {
        reveal(trace::faithful);
        assert forall|i: int| 0 <= i < lo implies before.history()[i] == #[trigger] events[i] by {
            assert(prepared.steps()[i] == before.steps()[i]);
        }
    }
    let (now, snapshots) = lemma_prepare_phase::<B>(
        events,
        models,
        lo,
        from,
        to,
        plan,
        before.active(),
        session_id,
    );
    let start = before.held_backend().held();
    let record = transaction::prepared_record(session_id, plan, now, snapshots);
    let kept = intent(events, to);
    let records = records_before(kept, visits, 0);
    assert(records == Set::empty().insert(record));
    assert(captured::<B>(start, plan.mutations, snapshots, now));
    let first = lemma_first::<B>(
        session_id,
        start,
        plan,
        now,
        snapshots,
        records,
        prepared.held_backend().held(),
    );
    lemma_visits(prepared, kept, visits, first, visits.len() as int);
}

/// The moment after a plan was prepared.
proof fn lemma_first<B: InMemory>(
    session_id: SessionId,
    start: B::Model,
    plan: PlanDataView,
    now: Timestamp,
    snapshots: Seq<SnapshotView>,
    records: Set<RecordView>,
    held: B::Model,
) -> (first: Life<B::Model>)
    requires
        B::planned(start, plan.mutations, snapshots),
        plan.mutations.len() == snapshots.len(),
        records == Set::empty().insert(
            transaction::prepared_record(session_id, plan, now, snapshots),
        ),
        held == start,
    ensures
        first == moment::<B>(session_id, start, plan.mutations, snapshots, records, held),
        lived::<B>(first),
        accounted::<B>(first, 0),
{
    let first = moment::<B>(session_id, start, plan.mutations, snapshots, records, held);
    let record = transaction::prepared_record(session_id, plan, now, snapshots);
    assert(lived::<B>(first)) by {
        reveal(lived);
    }
    let made: Seq<Mark> = Seq::new(plan.mutations.len(), |i: int| Mark::Never);
    B::lemma_begin(start, plan.mutations, snapshots, made);
    assert(known::<B>(first, 0, made)) by {
        reveal(known);
        assert(fits(first, record, made));
    }
    first
}

} // verus!
