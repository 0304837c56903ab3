//! Once a session is restored, all hosts in memory of several backends are as they were.

use vstd::prelude::*;

use crate::backend::{BackendView, Conduct, MutationBackend, Shown};
use crate::clock::{Clock, Timestamp};
use crate::cpu;
use crate::cpu_fixture::CpuFixture;
use crate::error::{ErrorView, Retryability};
use crate::exact;
use crate::exact::{InMemory, Mark, Visit};
use crate::exact_cpu;
use crate::exact_groups;
use crate::ids::{SessionId, StateFingerprint, TargetIdentity};
use crate::mutation::{ApplyReceipt, MutationView, PlanDataView, RestoreReceipt, SnapshotView};
use crate::privilege;
use crate::privilege::{PrivilegeService, SessionHandle};
use crate::registry;
use crate::registry::BackendRegistry;
use crate::state::{ExclusiveSessionLock, SessionIdSource, SessionStateStore};
use crate::trace;
use crate::transaction::TransactionEngine;
use crate::workload;
use crate::workload_fixture::CgroupFixture;
use crate::workload_model;

verus! {

/// What several backends are, how they act and what they show.
#[verifier::ext_equal]
pub struct RegistryModel {
    pub members: Seq<BackendView>,
    pub described: Seq<BackendView>,
    pub conducts: Seq<Conduct>,
    pub shown: Seq<Shown>,
}

/// What several backends are, how they act and what they show.
pub open spec fn registry_model(registry: BackendRegistry) -> RegistryModel {
    RegistryModel {
        members: registry.members(),
        described: registry.descriptions(),
        conducts: registry.conducts(),
        shown: registry.shown()->Parts_0,
    }
}

/// Whether each of several backends is over a host in memory, or carries out nothing.
pub open spec fn all_in_memory(model: RegistryModel) -> bool {
    &&& model.members == model.described
    &&& model.conducts.len() == model.members.len()
    &&& model.shown.len() == model.members.len()
    &&& forall|p: int|
        0 <= p < model.shown.len() ==> match #[trigger] model.shown[p] {
            Shown::Cpu(_) => model.conducts[p] == cpu::cpu_conduct::<CpuFixture>(),
            Shown::Workload(_) => model.conducts[p] == workload::workload_conduct::<
                CgroupFixture,
            >(),
            _ => forall|mutation: MutationView| !registry::carries(model.members[p], mutation),
        }
}

/// Whether the hosts with control groups are as every such host is that was built group
/// by group.
pub open spec fn all_shaped(shown: Seq<Shown>) -> bool {
    forall|p: int|
        0 <= p < shown.len() ==> match #[trigger] shown[p] {
            Shown::Workload(groups) => {
                &&& workload_model::well_formed(groups)
                &&& workload_model::in_order(groups.groups)
            },
            _ => true,
        }
}

/// The backend that carries out a mutation.
pub open spec fn routed(model: RegistryModel, mutation: MutationView) -> Option<int> {
    registry::first_carrying(model.members, mutation)
}

/// Whether a change can be told from what was there before by the fingerprints of the two
/// values, where it changes anything.
pub open spec fn told_from(model: RegistryModel, mutation: MutationView) -> bool {
    routed(model, mutation) matches Some(p) ==> match model.shown[p] {
        Shown::Cpu(host) => exact_cpu::distinguishable(host, mutation),
        Shown::Workload(host) => exact_groups::told_apart(host, mutation),
        _ => true,
    }
}

/// Whether a change that fails leaves the control groups as they were, if it is about
/// them.
pub open spec fn unchanged_by_failure(
    model: RegistryModel,
    mutation: MutationView,
    snapshot: SnapshotView,
) -> bool {
    routed(model, mutation) matches Some(p) ==> (model.shown[p] matches Shown::Workload(host)
        ==> exact_groups::unchanged_by_failure(host, mutation, snapshot))
}

/// Whether what a backend shows is as it was. A CPU host in memory may have spent writes
/// that were to fail.
pub open spec fn part_as_it_was(was: Shown, is: Shown) -> bool {
    match was {
        Shown::Cpu(start) => is matches Shown::Cpu(held) && exact_cpu::as_it_was(start, held),
        _ => is == was,
    }
}

/// Whether all that several backends show is as it was.
pub open spec fn all_as_they_were(was: Seq<Shown>, is: Seq<Shown>) -> bool {
    &&& is.len() == was.len()
    &&& forall|p: int| 0 <= p < was.len() ==> part_as_it_was(was[p], #[trigger] is[p])
}

spec fn part_snapshot(shown: Shown, mutation: MutationView, now: Timestamp) -> Result<
    SnapshotView,
    ErrorView,
> {
    match shown {
        Shown::Cpu(host) => exact_cpu::cpu_snapshot(host, mutation, now),
        Shown::Workload(host) => exact_groups::cgroup_snapshot(host, mutation, now),
        _ => arbitrary(),
    }
}

spec fn part_apply(shown: Shown, mutation: MutationView, snapshot: SnapshotView) -> (
    Shown,
    Result<ApplyReceipt, ErrorView>,
) {
    match shown {
        Shown::Cpu(host) => {
            let (after, reply) = exact_cpu::cpu_apply(host, mutation, snapshot);
            (Shown::Cpu(after), reply)
        },
        Shown::Workload(host) => {
            let (after, reply) = exact_groups::cgroup_apply(host, mutation, snapshot);
            (Shown::Workload(after), reply)
        },
        _ => arbitrary(),
    }
}

spec fn part_verify(shown: Shown, mutation: MutationView, identity: TargetIdentity) -> Result<
    StateFingerprint,
    ErrorView,
> {
    match shown {
        Shown::Cpu(host) => exact_cpu::cpu_verify(host, mutation, identity),
        Shown::Workload(host) => exact_groups::cgroup_verify(host, mutation, identity),
        _ => arbitrary(),
    }
}

spec fn part_restore(
    shown: Shown,
    mutation: MutationView,
    snapshot: SnapshotView,
    ownership: StateFingerprint,
) -> (Shown, Result<RestoreReceipt, ErrorView>) {
    match shown {
        Shown::Cpu(host) => {
            let (after, reply) = exact_cpu::cpu_restore(host, mutation, snapshot, ownership);
            (Shown::Cpu(after), reply)
        },
        Shown::Workload(host) => {
            let (after, reply) = exact_groups::cgroup_restore(host, mutation, snapshot, ownership);
            (Shown::Workload(after), reply)
        },
        _ => arbitrary(),
    }
}

/// What several backends are once one of them shows something else.
spec fn with_part(model: RegistryModel, p: int, part: Shown) -> RegistryModel {
    RegistryModel { shown: model.shown.update(p, part), ..model }
}

/// Whether a snapshot was taken of a host for a change that can be told from what was
/// there.
spec fn part_planned(shown: Shown, mutation: MutationView, snapshot: SnapshotView) -> bool {
    match shown {
        Shown::Cpu(host) => exact_cpu::one_planned(host, mutation, snapshot),
        Shown::Workload(host) => exact_groups::one_planned(host, mutation, snapshot),
        _ => false,
    }
}

spec fn planned_at(start: RegistryModel, mutation: MutationView, snapshot: SnapshotView) -> bool {
    routed(start, mutation) matches Some(p) && 0 <= p < start.shown.len() && part_planned(
        start.shown[p],
        mutation,
        snapshot,
    )
}

spec fn all_planned(
    start: RegistryModel,
    mutations: Seq<MutationView>,
    snapshots: Seq<SnapshotView>,
) -> bool {
    &&& mutations.len() == snapshots.len()
    &&& all_in_memory(start)
    &&& all_shaped(start.shown)
    &&& forall|i: int|
        0 <= i < mutations.len() ==> planned_at(start, #[trigger] mutations[i], snapshots[i])
}

/// What became of the changes that one backend carries out.
spec fn marks_of(
    start: RegistryModel,
    mutations: Seq<MutationView>,
    made: Seq<Mark>,
    p: int,
) -> Seq<Mark> {
    Seq::new(
        made.len(),
        |i: int|
            if routed(start, mutations[i]) == Some(p) {
                made[i]
            } else {
                Mark::Never
            },
    )
}

spec fn part_stands(
    was: Shown,
    mutations: Seq<MutationView>,
    snapshots: Seq<SnapshotView>,
    marks: Seq<Mark>,
    is: Shown,
) -> bool {
    match was {
        Shown::Cpu(start) => is matches Shown::Cpu(held) && exact_cpu::cpu_stands(
            start,
            mutations,
            snapshots,
            marks,
            held,
        ),
        Shown::Workload(start) => is matches Shown::Workload(held) && exact_groups::groups_stand(
            start,
            mutations,
            snapshots,
            marks,
            held,
        ),
        _ => is == was,
    }
}

spec fn all_stand(
    start: RegistryModel,
    mutations: Seq<MutationView>,
    snapshots: Seq<SnapshotView>,
    made: Seq<Mark>,
    held: RegistryModel,
) -> bool {
    &&& held == (RegistryModel { shown: held.shown, ..start })
    &&& held.shown.len() == start.shown.len()
    &&& forall|p: int|
        0 <= p < start.shown.len() ==> part_stands(
            start.shown[p],
            mutations,
            snapshots,
            marks_of(start, mutations, made, p),
            #[trigger] held.shown[p],
        )
}

proof fn lemma_routed(members: Seq<BackendView>, mutation: MutationView)
    ensures
        registry::first_carrying(members, mutation) matches Some(p) ==> 0 <= p < members.len()
            && registry::carries(members[p], mutation),
    decreases members.len(),
{
    if members.len() > 0 {
        lemma_routed(members.drop_last(), mutation);
    }
}

/// What became of one change concerns one backend.
proof fn lemma_marked(
    start: RegistryModel,
    mutations: Seq<MutationView>,
    made: Seq<Mark>,
    k: int,
    mark: Mark,
    p: int,
)
    requires
        0 <= k < made.len(),
        made.len() == mutations.len(),
    ensures
        marks_of(start, mutations, made.update(k, mark), p) == if routed(start, mutations[k])
            == Some(p) {
            marks_of(start, mutations, made, p).update(k, mark)
        } else {
            marks_of(start, mutations, made, p)
        },
{
    let after = marks_of(start, mutations, made.update(k, mark), p);
    if routed(start, mutations[k]) == Some(p) {
        assert(after =~= marks_of(start, mutations, made, p).update(k, mark));
    } else {
        assert(after =~= marks_of(start, mutations, made, p));
    }
}

/// Where one backend stands after a change, all stand.
proof fn lemma_one_part(
    start: RegistryModel,
    mutations: Seq<MutationView>,
    snapshots: Seq<SnapshotView>,
    made: Seq<Mark>,
    held: RegistryModel,
    k: int,
    now: Seq<Mark>,
    p: int,
    part: Shown,
)
    requires
        all_stand(start, mutations, snapshots, made, held),
        made.len() == mutations.len(),
        0 <= k < made.len(),
        0 <= p < start.shown.len(),
        routed(start, mutations[k]) == Some(p),
        now == made || exists|mark: Mark| now == made.update(k, mark),
        part_stands(
            start.shown[p],
            mutations,
            snapshots,
            marks_of(start, mutations, now, p),
            part,
        ),
    ensures
        all_stand(start, mutations, snapshots, now, with_part(held, p, part)),
{
    let after = with_part(held, p, part);
    assert forall|q: int| 0 <= q < start.shown.len() implies part_stands(
        start.shown[q],
        mutations,
        snapshots,
        marks_of(start, mutations, now, q),
        #[trigger] after.shown[q],
    ) by {
        if q != p {
            assert(after.shown[q] == held.shown[q]);
            if now != made {
                let mark = choose|mark: Mark| now == made.update(k, mark);
                lemma_marked(start, mutations, made, k, mark, q);
            }
        }
    }
}

proof fn lemma_part_made(
    was: Shown,
    mutations: Seq<MutationView>,
    snapshots: Seq<SnapshotView>,
    marks: Seq<Mark>,
    is: Shown,
    k: int,
)
    requires
        mutations.len() == snapshots.len(),
        marks.len() == mutations.len(),
        0 <= k < mutations.len(),
        part_planned(was, mutations[k], snapshots[k]),
        was matches Shown::Workload(host) ==> exact_groups::shaped(host),
        part_stands(was, mutations, snapshots, marks, is),
        marks[k] is Never,
        forall|j: int| 0 <= j < marks.len() ==> !((#[trigger] marks[j]) is Back),
        is matches Shown::Workload(host) ==> exact_groups::unchanged_by_failure(
            host,
            mutations[k],
            snapshots[k],
        ),
    ensures
        ({
            let (after, reply) = part_apply(is, mutations[k], snapshots[k]);
            match reply {
                Ok(receipt) => {
                    &&& receipt.ownership_fingerprint != snapshots[k].original_fingerprint
                    &&& part_stands(
                        was,
                        mutations,
                        snapshots,
                        marks.update(k, Mark::Left(receipt.ownership_fingerprint)),
                        after,
                    )
                },
                Err(e) => e.retryability != Retryability::Unknown ==> part_stands(
                    was,
                    mutations,
                    snapshots,
                    marks,
                    after,
                ),
            }
        }),
{
    match was {
        Shown::Cpu(start) => {
            exact_cpu::lemma_cpu_made(start, mutations, snapshots, marks, is->Cpu_0, k);
        },
        Shown::Workload(start) => {
            let held = is->Workload_0;
            if exact_groups::cgroup_apply(held, mutations[k], snapshots[k]).1 is Ok {
                exact_groups::lemma_groups_made(start, mutations, snapshots, marks, held, k);
            } else {
                reveal(exact_groups::cgroup_apply);
            }
        },
        _ => {},
    }
}

impl InMemory for BackendRegistry {
    type Model = RegistryModel;

    closed spec fn held(&self) -> RegistryModel {
        registry_model(*self)
    }

    closed spec fn sound(held: RegistryModel) -> bool {
        all_in_memory(held)
    }

    closed spec fn snapshot_by(held: RegistryModel, mutation: MutationView, now: Timestamp)
        -> Result<SnapshotView, ErrorView> {
        match routed(held, mutation) {
            None => Err(registry::unowned(mutation)),
            Some(p) => part_snapshot(held.shown[p], mutation, now),
        }
    }

    closed spec fn apply_by(held: RegistryModel, mutation: MutationView, snapshot: SnapshotView)
        -> (RegistryModel, Result<ApplyReceipt, ErrorView>) {
        match routed(held, mutation) {
            None => (held, Err(registry::unowned(mutation))),
            Some(p) => {
                let (part, reply) = part_apply(held.shown[p], mutation, snapshot);
                (with_part(held, p, part), reply)
            },
        }
    }

    closed spec fn verify_by(
        held: RegistryModel,
        mutation: MutationView,
        identity: TargetIdentity,
    ) -> Result<StateFingerprint, ErrorView> {
        match routed(held, mutation) {
            None => Err(registry::unowned(mutation)),
            Some(p) => part_verify(held.shown[p], mutation, identity),
        }
    }

    closed spec fn restore_by(
        held: RegistryModel,
        mutation: MutationView,
        snapshot: SnapshotView,
        ownership: StateFingerprint,
    ) -> (RegistryModel, Result<RestoreReceipt, ErrorView>) {
        match routed(held, mutation) {
            None => (held, Err(registry::unowned(mutation))),
            Some(p) => {
                let (part, reply) = part_restore(held.shown[p], mutation, snapshot, ownership);
                (with_part(held, p, part), reply)
            },
        }
    }

    closed spec fn suits(held: RegistryModel, mutation: MutationView, snapshot: SnapshotView)
        -> bool {
        unchanged_by_failure(held, mutation, snapshot)
    }

    closed spec fn planned(
        start: RegistryModel,
        mutations: Seq<MutationView>,
        snapshots: Seq<SnapshotView>,
    ) -> bool {
        all_planned(start, mutations, snapshots)
    }

    closed spec fn stands(
        start: RegistryModel,
        mutations: Seq<MutationView>,
        snapshots: Seq<SnapshotView>,
        made: Seq<Mark>,
        held: RegistryModel,
    ) -> bool {
        all_stand(start, mutations, snapshots, made, held)
    }

    closed spec fn same(start: RegistryModel, held: RegistryModel) -> bool {
        all_as_they_were(start.shown, held.shown)
    }

    proof fn lemma_begin(
        start: RegistryModel,
        mutations: Seq<MutationView>,
        snapshots: Seq<SnapshotView>,
        made: Seq<Mark>,
    ) {
        assert forall|p: int| 0 <= p < start.shown.len() implies part_stands(
            start.shown[p],
            mutations,
            snapshots,
            marks_of(start, mutations, made, p),
            #[trigger] start.shown[p],
        ) by {
            let marks = marks_of(start, mutations, made, p);
            assert forall|j: int| 0 <= j < marks.len() implies (#[trigger] marks[j]) is Never by {
                assert(made[j] is Never);
            }
            match start.shown[p] {
                Shown::Cpu(host) => {
                    exact_cpu::lemma_cpu_begin(host, mutations, snapshots, marks);
                },
                Shown::Workload(host) => {
                    exact_groups::lemma_groups_begin(host, mutations, snapshots, marks);
                },
                _ => {},
            }
        }
    }

    proof fn lemma_made(
        start: RegistryModel,
        mutations: Seq<MutationView>,
        snapshots: Seq<SnapshotView>,
        made: Seq<Mark>,
        held: RegistryModel,
        k: int,
    ) {
        assert(planned_at(start, mutations[k], snapshots[k]));
        let p = routed(start, mutations[k])->0;
        let marks = marks_of(start, mutations, made, p);
        assert(part_stands(start.shown[p], mutations, snapshots, marks, held.shown[p]));
        assert(made[k] is Never);
        assert forall|j: int| 0 <= j < marks.len() implies !((#[trigger] marks[j]) is Back) by {
            assert(made[j] is Left || made[j] is Never);
        }
        lemma_part_made(start.shown[p], mutations, snapshots, marks, held.shown[p], k);
        let (part, reply) = part_apply(held.shown[p], mutations[k], snapshots[k]);
        match reply {
            Ok(receipt) => {
                let mark = Mark::Left(receipt.ownership_fingerprint);
                let now = made.update(k, mark);
                lemma_marked(start, mutations, made, k, mark, p);
                lemma_one_part(start, mutations, snapshots, made, held, k, now, p, part);
            },
            Err(e) => if e.retryability != Retryability::Unknown {
                lemma_one_part(start, mutations, snapshots, made, held, k, made, p, part);
            },
        }
    }

    proof fn lemma_seen(
        start: RegistryModel,
        mutations: Seq<MutationView>,
        snapshots: Seq<SnapshotView>,
        made: Seq<Mark>,
        held: RegistryModel,
        k: int,
    ) {
        assert(planned_at(start, mutations[k], snapshots[k]));
        let p = routed(start, mutations[k])->0;
        let marks = marks_of(start, mutations, made, p);
        assert(part_stands(start.shown[p], mutations, snapshots, marks, held.shown[p]));
        assert(marks[k] == made[k]);
        match start.shown[p] {
            Shown::Cpu(host) => {
                exact_cpu::lemma_cpu_seen(
                    host,
                    mutations,
                    snapshots,
                    marks,
                    held.shown[p]->Cpu_0,
                    k,
                );
            },
            Shown::Workload(host) => {
                exact_groups::lemma_groups_seen(
                    host,
                    mutations,
                    snapshots,
                    marks,
                    held.shown[p]->Workload_0,
                    k,
                );
            },
            _ => {},
        }
    }

    proof fn lemma_undone(
        start: RegistryModel,
        mutations: Seq<MutationView>,
        snapshots: Seq<SnapshotView>,
        made: Seq<Mark>,
        held: RegistryModel,
        k: int,
        owned: StateFingerprint,
    ) {
        assert(planned_at(start, mutations[k], snapshots[k]));
        let p = routed(start, mutations[k])->0;
        let marks = marks_of(start, mutations, made, p);
        assert(part_stands(start.shown[p], mutations, snapshots, marks, held.shown[p]));
        assert(marks[k] == made[k]);
        match start.shown[p] {
            Shown::Cpu(host) => {
                exact_cpu::lemma_cpu_undone(
                    host,
                    mutations,
                    snapshots,
                    marks,
                    held.shown[p]->Cpu_0,
                    k,
                    owned,
                );
            },
            Shown::Workload(host) => {
                exact_groups::lemma_groups_undone(
                    host,
                    mutations,
                    snapshots,
                    marks,
                    held.shown[p]->Workload_0,
                    k,
                    owned,
                );
            },
            _ => {},
        }
        let (part, reply) = part_restore(held.shown[p], mutations[k], snapshots[k], owned);
        let now = made.update(k, Mark::Back);
        lemma_marked(start, mutations, made, k, Mark::Back, p);
        if part_stands(start.shown[p], mutations, snapshots, marks.update(k, Mark::Back), part) {
            lemma_one_part(start, mutations, snapshots, made, held, k, now, p, part);
        } else {
            lemma_one_part(start, mutations, snapshots, made, held, k, made, p, part);
        }
    }

    proof fn lemma_nothing_left(
        start: RegistryModel,
        mutations: Seq<MutationView>,
        snapshots: Seq<SnapshotView>,
        made: Seq<Mark>,
        held: RegistryModel,
    ) {
        assert forall|p: int| 0 <= p < start.shown.len() implies part_as_it_was(
            start.shown[p],
            #[trigger] held.shown[p],
        ) by {
            let marks = marks_of(start, mutations, made, p);
            assert(part_stands(start.shown[p], mutations, snapshots, marks, held.shown[p]));
            assert forall|j: int| 0 <= j < marks.len() implies !((#[trigger] marks[j]) is Left) by {
                assert(!(made[j] is Left));
            }
            match start.shown[p] {
                Shown::Cpu(host) => {
                    exact_cpu::lemma_cpu_closed(
                        host,
                        mutations,
                        snapshots,
                        marks,
                        held.shown[p]->Cpu_0,
                    );
                },
                Shown::Workload(host) => {
                    exact_groups::lemma_groups_closed(
                        host,
                        mutations,
                        snapshots,
                        marks,
                        held.shown[p]->Workload_0,
                    );
                },
                _ => {},
            }
        }
    }

    proof fn lemma_snapshot(
        &self,
        mutation: MutationView,
        now: Timestamp,
        reply: Result<SnapshotView, ErrorView>,
    ) {
        lemma_routed(self.members(), mutation);
        if let Some(p) = routed(self.held(), mutation) {
            let shown = self.shown()->Parts_0[p];
            assert(shown == self.held().shown[p]);
            assert((self.conducts()[p].snapshots)(shown, mutation, now, reply));
            match shown {
                Shown::Cpu(_) => {
                    exact_cpu::lemma_conduct_snapshots(shown, mutation, now, reply);
                },
                Shown::Workload(_) => {
                    exact_groups::lemma_conduct_snapshots(shown, mutation, now, reply);
                },
                _ => {},
            }
        }
    }

    proof fn lemma_apply(
        &self,
        after: &Self,
        mutation: MutationView,
        snapshot: SnapshotView,
        reply: Result<ApplyReceipt, ErrorView>,
    ) {
        lemma_routed(self.members(), mutation);
        lemma_alike(self, after);
        if let Some(p) = routed(self.held(), mutation) {
            let shown = self.shown()->Parts_0[p];
            let then_shown = after.shown()->Parts_0[p];
            assert(shown == self.held().shown[p]);
            assert((self.conducts()[p].applies)(shown, then_shown, mutation, snapshot, reply));
            match shown {
                Shown::Cpu(_) => {
                    exact_cpu::lemma_conduct_applies(shown, then_shown, mutation, snapshot, reply);
                },
                Shown::Workload(_) => {
                    exact_groups::lemma_conduct_applies(
                        shown,
                        then_shown,
                        mutation,
                        snapshot,
                        reply,
                    );
                },
                _ => {},
            }
            assert(after.held() == with_part(self.held(), p, then_shown));
        } else {
            assert(after.held() == self.held());
        }
    }

    proof fn lemma_verify(
        &self,
        mutation: MutationView,
        expected: StateFingerprint,
        identity: TargetIdentity,
        reply: Result<StateFingerprint, ErrorView>,
    ) {
        lemma_routed(self.members(), mutation);
        if let Some(p) = routed(self.held(), mutation) {
            let shown = self.shown()->Parts_0[p];
            assert(shown == self.held().shown[p]);
            assert((self.conducts()[p].verifies)(shown, mutation, identity, reply));
            match shown {
                Shown::Cpu(_) => {
                    exact_cpu::lemma_conduct_verifies(shown, mutation, identity, reply);
                },
                Shown::Workload(_) => {
                    exact_groups::lemma_conduct_verifies(shown, mutation, identity, reply);
                },
                _ => {},
            }
        }
    }

    proof fn lemma_restore(
        &self,
        after: &Self,
        mutation: MutationView,
        snapshot: SnapshotView,
        ownership: StateFingerprint,
        reply: Result<RestoreReceipt, ErrorView>,
    ) {
        lemma_routed(self.members(), mutation);
        lemma_alike(self, after);
        if let Some(p) = routed(self.held(), mutation) {
            let shown = self.shown()->Parts_0[p];
            let then_shown = after.shown()->Parts_0[p];
            assert(shown == self.held().shown[p]);
            assert((self.conducts()[p].restores)(
                shown,
                then_shown,
                mutation,
                snapshot,
                ownership,
                reply,
            ));
            match shown {
                Shown::Cpu(_) => {
                    exact_cpu::lemma_conduct_restores(
                        shown,
                        then_shown,
                        mutation,
                        snapshot,
                        ownership,
                        reply,
                    );
                },
                Shown::Workload(_) => {
                    exact_groups::lemma_conduct_restores(
                        shown,
                        then_shown,
                        mutation,
                        snapshot,
                        ownership,
                        reply,
                    );
                },
                _ => {},
            }
            assert(after.held() == with_part(self.held(), p, then_shown));
        } else {
            assert(after.held() == self.held());
        }
    }
}

/// Backends that act alike have the same members.
proof fn lemma_alike(before: &BackendRegistry, after: &BackendRegistry)
    requires
        after.conduct() == before.conduct(),
    ensures
        after.members() == before.members(),
        after.descriptions() == before.descriptions(),
        after.conducts() == before.conducts(),
{
}

/// Whether every change of control groups that failed during a visit left them as they
/// were.
pub open spec fn failures_change_nothing<S, L, G, C>(
    visit: Visit<BackendRegistry, S, L, G, C>,
) -> bool where
    S: SessionStateStore,
    L: ExclusiveSessionLock,
    G: SessionIdSource,
    C: Clock,
 {
    forall|k: int|
        visit.before.history().len() <= k < visit.after.history().len()
            && #[trigger] visit.after.history()[k] is Apply ==> unchanged_by_failure(
            registry_model(visit.after.steps()[k].before.backend),
            visit.after.history()[k]->Apply_mutation,
            visit.after.history()[k]->Apply_snapshot,
        )
}

/// A session that is restored, wherever in the history it was prepared.
proof fn lemma_registry_life<S, L, G, C>(
    before: TransactionEngine<BackendRegistry, S, L, G, C>,
    plan: PlanDataView,
    session_id: SessionId,
    prepared: TransactionEngine<BackendRegistry, S, L, G, C>,
    from: int,
    to: int,
    visits: Seq<Visit<BackendRegistry, S, L, G, C>>,
) where
    S: SessionStateStore,
    L: ExclusiveSessionLock,
    G: SessionIdSource,
    C: Clock,

    requires
        exact::is_prepared(before, plan, session_id, prepared, from, to),
        exact::in_turn(exact::intent(prepared.history(), to), visits, session_id),
        forall|k: int|
            0 <= k < visits.len() ==> registry_model(
                (#[trigger] visits[k]).before.held_backend(),
            ) == registry_model(exact::backend_before(prepared, visits, k)),
        all_in_memory(registry_model(before.held_backend())),
        all_shaped(registry_model(before.held_backend()).shown),
        forall|i: int|
            0 <= i < plan.mutations.len() ==> told_from(
                registry_model(before.held_backend()),
                #[trigger] plan.mutations[i],
            ),
        forall|i: int| 0 <= i < visits.len() ==> failures_change_nothing(#[trigger] visits[i]),
        visits.len() > 0,
        exact::ends_restored(visits.last(), session_id),
    ensures
        all_as_they_were(
            registry_model(before.held_backend()).shown,
            registry_model(visits.last().after.held_backend()).shown,
        ),
{
    let start = registry_model(before.held_backend());
    assert(exact::undisturbed(prepared, visits)) by {
        assert forall|k: int| 0 <= k < visits.len() implies (
        #[trigger] visits[k]).before.held_backend().held() == exact::backend_before(
            prepared,
            visits,
            k,
        ).held() by {
            assert(registry_model(visits[k].before.held_backend()) == registry_model(
                exact::backend_before(prepared, visits, k),
            ));
        }
    }
    assert forall|i: int| 0 <= i < visits.len() implies exact::suits_all(#[trigger] visits[i]) by {
        assert(failures_change_nothing(visits[i]));
    }
    assert forall|now: Timestamp, snapshots: Seq<SnapshotView>| #[trigger]
        exact::captured::<BackendRegistry>(
            start,
            plan.mutations,
            snapshots,
            now,
        ) implies all_planned(start, plan.mutations, snapshots) by {
        assert forall|i: int| 0 <= i < plan.mutations.len() implies planned_at(
            start,
            #[trigger] plan.mutations[i],
            snapshots[i],
        ) by {
            lemma_planned(start, plan.mutations[i], snapshots[i], now);
        }
    }
    exact::lemma_life(before, plan, session_id, prepared, from, to, visits);
}

/// A change that was captured is planned.
proof fn lemma_planned(
    start: RegistryModel,
    mutation: MutationView,
    snapshot: SnapshotView,
    now: Timestamp,
)
    requires
        all_in_memory(start),
        told_from(start, mutation),
        BackendRegistry::snapshot_by(start, mutation, now) == Ok::<SnapshotView, ErrorView>(
            snapshot,
        ),
    ensures
        planned_at(start, mutation, snapshot),
{
    lemma_routed(start.members, mutation);
    let p = routed(start, mutation)->0;
    match start.shown[p] {
        Shown::Cpu(_) => {
            reveal(exact_cpu::cpu_snapshot);
            reveal(exact_cpu::one_planned);
        },
        Shown::Workload(_) => {
            reveal(exact_groups::cgroup_snapshot);
            reveal(exact_groups::one_planned);
        },
        _ => {},
    }
}

/// Once a session over several backends is restored, every host in memory among them is
/// exactly as it was before the session was prepared, whatever became of the session in
/// between.
///
/// The session is visited in turn: applied, restored or recovered, each any number of
/// times, by one coordinator or by several one after another. Visits fail or stop half way
/// as they may. The last one ends with the session restored.
///
/// Each backend is over a host in memory, or carries out nothing. Nobody else changes the
/// hosts in the meantime. The store gives back no record but one that may be durable by
/// then. A new value has another fingerprint than the old one. A change of control groups
/// that fails leaves them as they were. Writes to a CPU host that were to fail, and did,
/// fail no more.
pub proof fn restored_sessions_leave_all_hosts_as_they_were<S, L, G, C>(
    before: TransactionEngine<BackendRegistry, S, L, G, C>,
    plan: PlanDataView,
    session_id: SessionId,
    prepared: TransactionEngine<BackendRegistry, S, L, G, C>,
    visits: Seq<Visit<BackendRegistry, S, L, G, C>>,
) where
    S: SessionStateStore,
    L: ExclusiveSessionLock,
    G: SessionIdSource,
    C: Clock,

    requires
        exact::is_prepared(
            before,
            plan,
            session_id,
            prepared,
            before.history().len() as int,
            prepared.history().len() as int,
        ),
        exact::in_turn(
            exact::intent(prepared.history(), prepared.history().len() as int),
            visits,
            session_id,
        ),
        forall|k: int|
            0 <= k < visits.len() ==> registry_model(
                (#[trigger] visits[k]).before.held_backend(),
            ) == registry_model(exact::backend_before(prepared, visits, k)),
        all_in_memory(registry_model(before.held_backend())),
        all_shaped(registry_model(before.held_backend()).shown),
        forall|i: int|
            0 <= i < plan.mutations.len() ==> told_from(
                registry_model(before.held_backend()),
                #[trigger] plan.mutations[i],
            ),
        forall|i: int| 0 <= i < visits.len() ==> failures_change_nothing(#[trigger] visits[i]),
        visits.len() > 0,
        exact::ends_restored(visits.last(), session_id),
    ensures
        all_as_they_were(
            registry_model(before.held_backend()).shown,
            registry_model(visits.last().after.held_backend()).shown,
        ),
{
    lemma_registry_life(
        before,
        plan,
        session_id,
        prepared,
        before.history().len() as int,
        prepared.history().len() as int,
        visits,
    );
}

/// Once a session over several backends that was prepared through the helper is restored,
/// every host in memory among them is exactly as it was before. The visits are those of the
/// coordinator of this helper, or of others after it.
pub proof fn restored_helper_sessions_leave_all_hosts_as_they_were<S, L, G, C>(
    before: PrivilegeService<BackendRegistry, S, L, G, C>,
    plan: PlanDataView,
    handle: SessionHandle,
    prepared: PrivilegeService<BackendRegistry, S, L, G, C>,
    visits: Seq<Visit<BackendRegistry, S, L, G, C>>,
) where
    S: SessionStateStore,
    L: ExclusiveSessionLock,
    G: SessionIdSource,
    C: Clock,

    requires
        before.wf(),
        prepared.wf(),
        prepared.goes_on_from(&before),
        privilege::prepared_for(
            before.observed(),
            prepared.observed(),
            handle.owner,
            Some(plan),
            handle.plan_id,
            handle.plan_digest,
            Ok(handle),
        ),
        exact::in_turn(
            exact::intent(prepared.observed().history, prepared.observed().history.len() - 1),
            visits,
            handle.session_id,
        ),
        forall|k: int|
            0 <= k < visits.len() ==> registry_model(
                (#[trigger] visits[k]).before.held_backend(),
            ) == registry_model(exact::backend_before(prepared.coordinator(), visits, k)),
        all_in_memory(registry_model(before.coordinator().held_backend())),
        all_shaped(registry_model(before.coordinator().held_backend()).shown),
        forall|i: int|
            0 <= i < plan.mutations.len() ==> told_from(
                registry_model(before.coordinator().held_backend()),
                #[trigger] plan.mutations[i],
            ),
        forall|i: int| 0 <= i < visits.len() ==> failures_change_nothing(#[trigger] visits[i]),
        visits.len() > 0,
        exact::ends_restored(visits.last(), handle.session_id),
    ensures
        all_as_they_were(
            registry_model(before.coordinator().held_backend()).shown,
            registry_model(visits.last().after.held_backend()).shown,
        ),
{
    let from = exact::helper_sessions_are_prepared(before, plan, handle, prepared);
    lemma_registry_life(
        before.coordinator(),
        plan,
        handle.session_id,
        prepared.coordinator(),
        from,
        prepared.observed().history.len() - 1,
        visits,
    );
}

/// Nothing that a coordinator does changes which backends a registry holds, how they act,
/// or that it is known of each what it is and owns.
pub proof fn registries_stay_in_step<S, L, G, C>(
    engine: TransactionEngine<BackendRegistry, S, L, G, C>,
    since: int,
    start: trace::World<BackendRegistry, S, L, G, C>,
    k: int,
) where
    S: SessionStateStore,
    L: ExclusiveSessionLock,
    G: SessionIdSource,
    C: Clock,

    requires
        engine.wf(),
        engine.came_from(since, start),
        since <= k < engine.history().len(),
    ensures
        engine.steps()[k].before.backend.members() == start.backend.members(),
        engine.steps()[k].before.backend.conducts() == start.backend.conducts(),
        start.backend.in_step() ==> engine.steps()[k].before.backend.in_step(),
    decreases k - since,
{
    reveal(trace::faithful);
    reveal(trace::leads);
    if k > since {
        let p = k - 1;
        registries_stay_in_step(engine, since, start, p);
        let step = engine.steps()[p];
        assert(trace::answered(step));
        assert(engine.steps()[k].before == step.after);
        assert(step.after.backend.conduct() == step.before.backend.conduct());
        lemma_alike(&step.before.backend, &step.after.backend);
        if start.backend.in_step() {
            let now = step.after.backend;
            let then_backend = step.before.backend;
            assert(now.descriptions().len() == then_backend.descriptions().len());
            assert forall|i: int| 0 <= i < now.members().len() implies now.parts()[i].described()
                == #[trigger] now.members()[i] by {
                assert(now.descriptions()[i] == then_backend.descriptions()[i]);
                assert(then_backend.members()[i] == now.members()[i]);
            }
        }
    }
}

} // verus!
