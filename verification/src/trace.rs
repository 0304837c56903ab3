//! What the coordinator's calls do to what it talks to.
//!
//! A step is a call with its answer, between everything that the coordinator talks to
//! as it was before and as it is afterwards. What a step may be is up to whoever
//! answered: the backend, the place where records are kept, the lock, the source of
//! identities and the clock each say which answers they may give.

use vstd::prelude::*;

use crate::backend;
use crate::backend::MutationBackend;
use crate::clock::Clock;
use crate::state::{ExclusiveSessionLock, SessionIdSource, SessionStateStore};
use crate::transaction::Event;

verus! {

/// Everything that a coordinator talks to.
pub struct World<B, S, L, G, C> {
    pub backend: B,
    pub store: S,
    pub lock: L,
    pub ids: G,
    pub clock: C,
}

/// A call with its answer, and what it did.
pub struct Step<B, S, L, G, C> {
    pub before: World<B, S, L, G, C>,
    pub event: Event,
    pub after: World<B, S, L, G, C>,
}

/// Whether an answer came from the one who was asked, and nobody else was changed.
pub open spec fn answered<B, S, L, G, C>(step: Step<B, S, L, G, C>) -> bool where
    B: MutationBackend,
    S: SessionStateStore,
    L: ExclusiveSessionLock,
    G: SessionIdSource,
    C: Clock,
 {
    let before = step.before;
    let after = step.after;
    match step.event {
        Event::Acquire { reply } => {
            &&& before.lock.may_acquire(&after.lock, reply)
            &&& after == (World { lock: after.lock, ..before })
        },
        Event::LoadUnfinished { reply } => before.store.may_list(reply) && after == before,
        Event::Now { reply } => before.clock.may_tell(reply) && after == before,
        Event::Snapshot { mutation, now, reply } => {
            &&& before.backend.may_snapshot(mutation, now, reply)
            &&& (before.backend.conduct().snapshots)(before.backend.shown(), mutation, now, reply)
            &&& after == before
        },
        Event::NextId { reply } => {
            &&& before.ids.may_give(&after.ids, reply)
            &&& after == (World { ids: after.ids, ..before })
        },
        Event::Create { record, reply } => {
            &&& before.store.may_create(&after.store, record, reply)
            &&& after == (World { store: after.store, ..before })
        },
        Event::Replace { record, reply } => {
            &&& before.store.may_replace(&after.store, record, reply)
            &&& after == (World { store: after.store, ..before })
        },
        Event::Load { session_id, reply } => {
            &&& before.store.may_load(session_id, reply)
            &&& after == before
        },
        Event::Remove { session_id, reply } => {
            &&& before.store.may_remove(&after.store, session_id, reply)
            &&& after == (World { store: after.store, ..before })
        },
        Event::Apply { mutation, snapshot, reply } => {
            &&& before.backend.may_apply(after.backend.shown(), mutation, snapshot, reply)
            &&& (before.backend.conduct().applies)(
                before.backend.shown(),
                after.backend.shown(),
                mutation,
                snapshot,
                reply,
            )
            &&& after.backend.described() == before.backend.described()
            &&& after.backend.conduct() == before.backend.conduct()
            &&& after == (World { backend: after.backend, ..before })
        },
        Event::Verify { mutation, expected, identity, reply, .. } => {
            &&& before.backend.may_verify(mutation, expected, identity, reply)
            &&& (before.backend.conduct().verifies)(
                before.backend.shown(),
                mutation,
                identity,
                reply,
            )
            &&& after == before
        },
        Event::Restore { mutation, snapshot, ownership, reply } => {
            &&& before.backend.may_restore(
                after.backend.shown(),
                mutation,
                snapshot,
                ownership,
                reply,
            )
            &&& (before.backend.conduct().restores)(
                before.backend.shown(),
                after.backend.shown(),
                mutation,
                snapshot,
                ownership,
                reply,
            )
            &&& after.backend.described() == before.backend.described()
            &&& after.backend.conduct() == before.backend.conduct()
            &&& after == (World { backend: after.backend, ..before })
        },
        Event::Owns { backend, reply } => {
            &&& backend::name_answer(
                before.backend.described(),
                backend,
                before.backend.may_own(backend, reply),
                reply,
            )
            &&& after == before
        },
        Event::Admit { mutation, identity, reply } => {
            &&& backend::admission_answer(
                before.backend.described(),
                mutation,
                before.backend.may_target(mutation, identity, reply),
                before.backend.may_admit(mutation, identity, reply),
                reply,
            )
            &&& after == before
        },
    }
}

/// Whether a history is what was really asked and answered, step by step.
#[verifier::opaque]
pub open spec fn faithful<B, S, L, G, C>(
    history: Seq<Event>,
    steps: Seq<Step<B, S, L, G, C>>,
) -> bool where
    B: MutationBackend,
    S: SessionStateStore,
    L: ExclusiveSessionLock,
    G: SessionIdSource,
    C: Clock,
 {
    &&& steps.len() == history.len()
    &&& forall|i: int|
        0 <= i < steps.len() ==> answered(#[trigger] steps[i]) && steps[i].event == history[i]
}

/// Whether the steps from a position on lead from one state of things to another,
/// each beginning where the one before it ended.
#[verifier::opaque]
pub open spec fn leads<B, S, L, G, C>(
    steps: Seq<Step<B, S, L, G, C>>,
    since: int,
    start: World<B, S, L, G, C>,
    end: World<B, S, L, G, C>,
) -> bool {
    &&& 0 <= since <= steps.len()
    &&& since == steps.len() ==> start == end
    &&& since < steps.len() ==> steps[since].before == start && steps.last().after == end
    &&& forall|i: int|
        since < i < steps.len() ==> (#[trigger] steps[i]).before == steps[i - 1].after
}

pub(crate) proof fn lemma_faithful_push<B, S, L, G, C>(
    history: Seq<Event>,
    steps: Seq<Step<B, S, L, G, C>>,
    step: Step<B, S, L, G, C>,
) where
    B: MutationBackend,
    S: SessionStateStore,
    L: ExclusiveSessionLock,
    G: SessionIdSource,
    C: Clock,

    requires
        faithful(history, steps),
        answered(step),
    ensures
        faithful(history.push(step.event), steps.push(step)),
{
    reveal(faithful);
    let after = steps.push(step);
    assert forall|i: int| 0 <= i < after.len() implies answered(#[trigger] after[i])
        && after[i].event == history.push(step.event)[i] by {
        if i < steps.len() {
            assert(after[i] == steps[i]);
        }
    }
}

pub(crate) proof fn lemma_leads_push<B, S, L, G, C>(
    steps: Seq<Step<B, S, L, G, C>>,
    step: Step<B, S, L, G, C>,
    since: int,
    start: World<B, S, L, G, C>,
)
    requires
        leads(steps, since, start, step.before),
    ensures
        leads(steps.push(step), since, start, step.after),
{
    reveal(leads);
    let after = steps.push(step);
    assert forall|i: int| since < i < after.len() implies (#[trigger] after[i]).before == after[i
        - 1].after by {
        if i < steps.len() {
            assert(after[i] == steps[i]);
            assert(after[i - 1] == steps[i - 1]);
        } else {
            assert(after[i - 1] == steps.last());
        }
    }
}

/// Where nothing has been done yet, nothing has changed.
pub proof fn lemma_leads_nowhere<B, S, L, G, C>(
    steps: Seq<Step<B, S, L, G, C>>,
    world: World<B, S, L, G, C>,
)
    ensures
        leads(steps, steps.len() as int, world, world),
{
    reveal(leads);
}

} // verus!
