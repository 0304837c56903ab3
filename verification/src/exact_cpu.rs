//! Once a session is restored, a CPU host in memory is as it was.

use vstd::prelude::*;

use crate::backend::{MutationBackend, Shown};
use crate::clock::{Clock, Timestamp};
use crate::cpu;
use crate::cpu::{CpuBackend, CpuControlIo};
use crate::cpu_fixture;
use crate::cpu_fixture::{CpuFixture, CpuModel, PolicyModel};
use crate::cpu_node::CpuNode;
use crate::error::{ErrorView, Retryability};
use crate::exact;
use crate::exact::{InMemory, Mark, Visit};
use crate::ids::{SessionId, StateFingerprint, TargetIdentity};
use crate::mutation::{ApplyReceipt, MutationView, PlanDataView, RestoreReceipt, SnapshotView};
use crate::privilege;
use crate::privilege::{PrivilegeService, SessionHandle};
use crate::state::{ExclusiveSessionLock, SessionIdSource, SessionStateStore};
use crate::transaction::TransactionEngine;
use crate::value::{CpuPolicyId, ValueView};

verus! {

/// Whether a policy is what it was, but for the controls that were let loose. Of several
/// policies with one number the controls are of the last.
spec fn policy_framed(
    policies: Seq<PolicyModel>,
    j: int,
    held: PolicyModel,
    loose: Set<CpuNode>,
) -> bool {
    let was = policies[j];
    let reached = cpu_fixture::position(policies, was.id) == j;
    &&& held == (PolicyModel {
        governor: held.governor,
        epp: held.epp,
        min_khz: held.min_khz,
        max_khz: held.max_khz,
        ..was
    })
    &&& held.governor == was.governor || (reached && loose.contains(CpuNode::Governor(was.id)))
    &&& held.epp == was.epp || (reached && loose.contains(CpuNode::EnergyPreference(was.id)))
    &&& (held.min_khz == was.min_khz && held.max_khz == was.max_khz) || (reached
        && loose.contains(CpuNode::Frequency(was.id)))
}

/// Whether a host is what it was, but for the controls that were let loose and for the
/// writes that were to fail and did.
#[verifier::opaque]
spec fn framed(start: CpuModel, held: CpuModel, loose: Set<CpuNode>) -> bool {
    &&& held.failing.subset_of(start.failing)
    &&& held.policies.len() == start.policies.len()
    &&& forall|j: int|
        0 <= j < start.policies.len() ==> policy_framed(
            start.policies,
            j,
            #[trigger] held.policies[j],
            loose,
        )
    &&& match (start.boost, held.boost) {
        (None, None) => true,
        (Some(was), Some(is)) => {
            &&& is == (cpu_fixture::FixtureBoost { state: is.state, ..was })
            &&& is.state == was.state || loose.contains(CpuNode::Boost(None))
        },
        _ => false,
    }
    &&& match (start.profile, held.profile) {
        (None, None) => true,
        (Some(was), Some(is)) => {
            &&& is == (cpu_fixture::ProfileModel { profile: is.profile, ..was })
            &&& is.profile == was.profile || loose.contains(CpuNode::PlatformProfile)
        },
        _ => false,
    }
}

proof fn lemma_same_positions(a: Seq<PolicyModel>, b: Seq<PolicyModel>, id: CpuPolicyId)
    requires
        a.len() == b.len(),
        forall|j: int| 0 <= j < a.len() ==> (#[trigger] b[j]).id == a[j].id,
    ensures
        cpu_fixture::position(b, id) == cpu_fixture::position(a, id),
    decreases a.len(),
{
    if a.len() > 0 {
        assert(b.last() == b[a.len() - 1]);
        if a.last().id != id {
            assert forall|j: int| 0 <= j < a.drop_last().len() implies (#[trigger] b.drop_last()[j]).id
                == a.drop_last()[j].id by {
                assert(b[j].id == a[j].id);
            }
            lemma_same_positions(a.drop_last(), b.drop_last(), id);
        }
    }
}

/// Whether a control is named as changes name it.
spec fn plain(node: CpuNode) -> bool {
    node is Boost ==> node == CpuNode::Boost(None)
}

spec fn policy_number(node: CpuNode) -> CpuPolicyId {
    match node {
        CpuNode::Governor(id) => id,
        CpuNode::EnergyPreference(id) => id,
        CpuNode::Frequency(id) => id,
        _ => arbitrary(),
    }
}

proof fn lemma_frame_positions(start: CpuModel, held: CpuModel, loose: Set<CpuNode>, id: CpuPolicyId)
    requires
        framed(start, held, loose),
    ensures
        cpu_fixture::position(held.policies, id) == cpu_fixture::position(start.policies, id),
        -1 <= cpu_fixture::position(start.policies, id) < start.policies.len(),
        held.policies.len() == start.policies.len(),
        cpu_fixture::position(start.policies, id) >= 0 ==> {
            let p = cpu_fixture::position(start.policies, id);
            &&& start.policies[p].id == id
            &&& policy_framed(start.policies, p, held.policies[p], loose)
        },
{
    reveal(framed);
    assert forall|j: int| 0 <= j < start.policies.len() implies (#[trigger] held.policies[j]).id
        == start.policies[j].id by {
        assert(policy_framed(start.policies, j, held.policies[j], loose));
    }
    lemma_same_positions(start.policies, held.policies, id);
    cpu_fixture::lemma_position(start.policies, id);
}

/// A control that was not let loose holds what it held.
proof fn lemma_frame_read(start: CpuModel, held: CpuModel, loose: Set<CpuNode>, node: CpuNode)
    requires
        framed(start, held, loose),
        plain(node),
        !loose.contains(node),
    ensures
        cpu_fixture::fixture_node(held, node) == cpu_fixture::fixture_node(start, node),
{
    lemma_frame_positions(start, held, loose, policy_number(node));
    reveal(framed);
}

/// A write that failed changes nothing but which writes fail.
proof fn lemma_frame_failed(
    start: CpuModel,
    held: CpuModel,
    loose: Set<CpuNode>,
    place: CpuNode,
    desired: ValueView,
    other: CpuNode,
)
    requires
        framed(start, held, loose),
        cpu_fixture::fixture_write(held, place, desired).1 is Some,
    ensures
        framed(start, cpu_fixture::fixture_write(held, place, desired).0, loose),
        cpu_fixture::fixture_node(cpu_fixture::fixture_write(held, place, desired).0, other)
            == cpu_fixture::fixture_node(held, other),
{
    reveal(framed);
}

/// A write lets the control loose and keeps the others.
proof fn lemma_frame_write(
    start: CpuModel,
    held: CpuModel,
    loose: Set<CpuNode>,
    node: CpuNode,
    place: CpuNode,
    desired: ValueView,
)
    requires
        framed(start, held, loose),
        plain(node),
        cpu_fixture::same_control(node, place),
        cpu_fixture::fixture_write(held, place, desired).1 is None,
    ensures
        framed(start, cpu_fixture::fixture_write(held, place, desired).0, loose.insert(node)),
{
    let after = cpu_fixture::fixture_write(held, place, desired).0;
    let id = policy_number(node);
    let more = loose.insert(node);
    lemma_frame_positions(start, held, loose, id);
    let p = cpu_fixture::position(start.policies, id);
    reveal(framed);
    assert forall|j: int| 0 <= j < start.policies.len() implies policy_framed(
        start.policies,
        j,
        #[trigger] after.policies[j],
        more,
    ) by {
        assert(policy_framed(start.policies, j, held.policies[j], loose));
        if j != p {
            assert(after.policies[j] == held.policies[j]);
        }
    }
}

/// Writing what a control held at first makes it as it was.
proof fn lemma_frame_back(
    start: CpuModel,
    held: CpuModel,
    loose: Set<CpuNode>,
    node: CpuNode,
    place: CpuNode,
)
    requires
        framed(start, held, loose),
        plain(node),
        cpu_fixture::same_control(node, place),
        cpu_fixture::fixture_node(start, node) is Ok,
        cpu_fixture::fixture_write(
            held,
            place,
            cpu_fixture::fixture_node(start, node)->Ok_0.typed,
        ).1 is None,
    ensures
        framed(
            start,
            cpu_fixture::fixture_write(
                held,
                place,
                cpu_fixture::fixture_node(start, node)->Ok_0.typed,
            ).0,
            loose.remove(node),
        ),
{
    let desired = cpu_fixture::fixture_node(start, node)->Ok_0.typed;
    let after = cpu_fixture::fixture_write(held, place, desired).0;
    let id = policy_number(node);
    let less = loose.remove(node);
    lemma_frame_positions(start, held, loose, id);
    let p = cpu_fixture::position(start.policies, id);
    reveal(framed);
    assert forall|j: int| 0 <= j < start.policies.len() implies policy_framed(
        start.policies,
        j,
        #[trigger] after.policies[j],
        less,
    ) by {
        assert(policy_framed(start.policies, j, held.policies[j], loose));
        if j != p {
            assert(after.policies[j] == held.policies[j]);
            if start.policies[j].id == id {
                assert(cpu_fixture::position(start.policies, id) != j);
            }
        }
    }
}

/// With nothing loose the host is what it was.
proof fn lemma_frame_closed(start: CpuModel, held: CpuModel)
    requires
        framed(start, held, Set::empty()),
    ensures
        held == (CpuModel { failing: held.failing, ..start }),
        held.failing.subset_of(start.failing),
{
    reveal(framed);
    assert forall|j: int| 0 <= j < start.policies.len() implies held.policies[j]
        == start.policies[j] by {
        assert(policy_framed(start.policies, j, held.policies[j], Set::empty()));
    }
    assert(held.policies =~= start.policies);
}

/// At first nothing is loose.
proof fn lemma_frame_start(start: CpuModel)
    ensures
        framed(start, start, Set::empty()),
{
    reveal(framed);
}

/// What snapshotting a change of a CPU host in memory gives.
#[verifier::opaque]
pub(crate) open spec fn cpu_snapshot(model: CpuModel, mutation: MutationView, now: Timestamp) -> Result<
    SnapshotView,
    ErrorView,
> {
    cpu::snapshot_spec::<CpuFixture>(model, mutation, now)
}

/// What applying a change to a CPU host in memory leaves and answers.
#[verifier::opaque]
pub(crate) open spec fn cpu_apply(model: CpuModel, mutation: MutationView, snapshot: SnapshotView) -> (
    CpuModel,
    Result<ApplyReceipt, ErrorView>,
) {
    cpu::apply_spec::<CpuFixture>(model, mutation, snapshot)
}

/// What reading back a change of a CPU host in memory gives.
#[verifier::opaque]
pub(crate) open spec fn cpu_verify(model: CpuModel, mutation: MutationView, identity: TargetIdentity) -> Result<
    StateFingerprint,
    ErrorView,
> {
    cpu::verify_spec::<CpuFixture>(model, mutation, identity)
}

/// What restoring a change of a CPU host in memory leaves and answers.
#[verifier::opaque]
pub(crate) open spec fn cpu_restore(
    model: CpuModel,
    mutation: MutationView,
    snapshot: SnapshotView,
    ownership: StateFingerprint,
) -> (CpuModel, Result<RestoreReceipt, ErrorView>) {
    cpu::restore_spec::<CpuFixture>(model, mutation, snapshot, ownership)
}

/// Whether a change can be told from what was there before by the fingerprints of
/// the two values, where it changes anything.
pub open spec fn distinguishable(model: CpuModel, mutation: MutationView) -> bool {
    cpu::node_for(mutation.kind) matches Some(node) ==> (cpu_fixture::fixture_node(
        model,
        node,
    ) matches Ok(state) ==> (cpu::effective(mutation, state.typed) matches Ok(wanted) ==> (
    crate::value::fingerprint_of(wanted) == state.fingerprint ==> wanted == state.typed)))
}

/// The controls in which a change of a session is still there.
spec fn loose(mutations: Seq<MutationView>, made: Seq<Mark>) -> Set<CpuNode> {
    Set::new(
        |node: CpuNode|
            exists|i: int|
                0 <= i < made.len() && (#[trigger] made[i]) is Left && cpu::node_for(
                    mutations[i].kind,
                ) == Some(node),
    )
}

/// Whether a snapshot was taken of a host for a change that can be told from what was
/// there.
#[verifier::opaque]
pub(crate) open spec fn one_planned(start: CpuModel, mutation: MutationView, snapshot: SnapshotView) -> bool {
    &&& cpu_snapshot(start, mutation, snapshot.captured_at) == Ok::<SnapshotView, ErrorView>(
        snapshot,
    )
    &&& distinguishable(start, mutation)
}

spec fn all_planned(
    start: CpuModel,
    mutations: Seq<MutationView>,
    snapshots: Seq<SnapshotView>,
) -> bool {
    &&& mutations.len() == snapshots.len()
    &&& forall|i: int|
        0 <= i < mutations.len() ==> one_planned(start, #[trigger] mutations[i], snapshots[i])
}

/// Whether a change is there in its control if it should be.
#[verifier::opaque]
spec fn there(held: CpuModel, mutation: MutationView, snapshot: SnapshotView, mark: Mark) -> bool {
    mark matches Mark::Left(owned) ==> {
        &&& cpu_fixture::fixture_node(held, cpu::node_for(mutation.kind)->0) matches Ok(state)
        &&& state.fingerprint == owned
        &&& state.target_identity == snapshot.target_identity
        &&& owned != snapshot.original_fingerprint
    }
}

pub(crate) closed spec fn cpu_stands(
    start: CpuModel,
    mutations: Seq<MutationView>,
    snapshots: Seq<SnapshotView>,
    made: Seq<Mark>,
    held: CpuModel,
) -> bool {
    &&& framed(start, held, loose(mutations, made))
    &&& forall|i: int|
        0 <= i < made.len() ==> there(held, mutations[i], snapshots[i], #[trigger] made[i])
    &&& forall|i: int|
        0 <= i < made.len() && !((#[trigger] made[i]) is Never) ==> one_planned(
            start,
            mutations[i],
            snapshots[i],
        )
    &&& forall|i: int, j: int|
        0 <= i < j < made.len() && !((#[trigger] made[i]) is Never) && !((#[trigger] made[j])
            is Never) ==> cpu::node_for(mutations[i].kind) != cpu::node_for(mutations[j].kind)
}

/// Whether a CPU host in memory is as it was, but for the writes that were to fail and
/// did.
pub open spec fn as_it_was(start: CpuModel, held: CpuModel) -> bool {
    &&& held == (CpuModel { failing: held.failing, ..start })
    &&& held.failing.subset_of(start.failing)
}

/// What a snapshot says of the control that it was taken of.
proof fn lemma_one_planned(start: CpuModel, mutation: MutationView, snapshot: SnapshotView)
    requires
        one_planned(start, mutation, snapshot),
    ensures
        ({
            let node = cpu::node_for(mutation.kind)->0;
            let state = cpu_fixture::fixture_node(start, node)->Ok_0;
            &&& cpu::node_for(mutation.kind) is Some
            &&& plain(node)
            &&& cpu_fixture::fixture_node(start, node) is Ok
            &&& state.fingerprint == snapshot.original_fingerprint
            &&& state.fingerprint == mutation.precondition
            &&& state.typed == snapshot.original_typed
            &&& state.target_identity == snapshot.target_identity
            &&& cpu::effective(mutation, state.typed) matches Ok(wanted)
            &&& crate::value::fingerprint_of(wanted) != state.fingerprint
        }),
{
    reveal(one_planned);
    reveal(cpu_snapshot);
}

/// Writing to one control changes no other.
proof fn lemma_others(held: CpuModel, place: CpuNode, desired: ValueView, other: CpuNode)
    requires
        !cpu_fixture::same_control(place, other),
    ensures
        cpu_fixture::fixture_node(cpu_fixture::fixture_write(held, place, desired).0, other)
            == cpu_fixture::fixture_node(held, other),
{
    if cpu_fixture::fixture_write(held, place, desired).1 is None {
        cpu_fixture::writes_change_one_control(held, place, desired, other);
    }
}

/// What giving an original back leaves, where it can be given back.
proof fn lemma_given_back(
    start: CpuModel,
    held: CpuModel,
    mutation: MutationView,
    snapshot: SnapshotView,
    open: Set<CpuNode>,
)
    requires
        one_planned(start, mutation, snapshot),
        framed(start, held, open),
        cpu::undone::<CpuFixture>(held, cpu::node_for(mutation.kind)->0, snapshot).1 is None,
    ensures
        framed(
            start,
            cpu::undone::<CpuFixture>(held, cpu::node_for(mutation.kind)->0, snapshot).0,
            open.remove(cpu::node_for(mutation.kind)->0),
        ),
        forall|other: CpuNode|
            !cpu_fixture::same_control(other, cpu::node_for(mutation.kind)->0)
                ==> #[trigger] cpu_fixture::fixture_node(
                cpu::undone::<CpuFixture>(held, cpu::node_for(mutation.kind)->0, snapshot).0,
                other,
            ) == cpu_fixture::fixture_node(held, other),
{
    lemma_one_planned(start, mutation, snapshot);
    let node = cpu::node_for(mutation.kind)->0;
    let current = cpu_fixture::fixture_node(held, node)->Ok_0;
    let place = cpu::resolved(node, current);
    lemma_frame_back(start, held, open, node, place);
    assert forall|other: CpuNode| !cpu_fixture::same_control(other, node) implies #[trigger]
        cpu_fixture::fixture_node(
            cpu::undone::<CpuFixture>(held, node, snapshot).0,
            other,
        ) == cpu_fixture::fixture_node(held, other) by {
        lemma_others(held, place, snapshot.original_typed, other);
    }
}

/// Whether it is not known what a change did.
spec fn unknown(reply: Result<ApplyReceipt, ErrorView>) -> bool {
    reply is Err && reply->Err_0.retryability == Retryability::Unknown
}

/// What one apply does to a host whose control holds the original.
proof fn lemma_one_made(
    start: CpuModel,
    held: CpuModel,
    mutation: MutationView,
    snapshot: SnapshotView,
    open: Set<CpuNode>,
)
    requires
        one_planned(start, mutation, snapshot),
        framed(start, held, open),
        !open.contains(cpu::node_for(mutation.kind)->0),
    ensures
        ({
            let node = cpu::node_for(mutation.kind)->0;
            let (after, reply) = cpu_apply(held, mutation, snapshot);
            &&& forall|other: MutationView, taken: SnapshotView, mark: Mark|
                there(held, other, taken, mark) && !cpu_fixture::same_control(
                    cpu::node_for(other.kind)->0,
                    node,
                ) && !unknown(reply) ==> #[trigger] there(after, other, taken, mark)
            &&& match reply {
                Ok(receipt) => {
                    &&& receipt.ownership_fingerprint != snapshot.original_fingerprint
                    &&& framed(start, after, open.insert(node))
                    &&& there(after, mutation, snapshot, Mark::Left(receipt.ownership_fingerprint))
                },
                Err(e) => e.retryability != Retryability::Unknown ==> framed(start, after, open),
            }
        }),
{
    reveal(cpu_apply);
    lemma_one_planned(start, mutation, snapshot);
    let node = cpu::node_for(mutation.kind)->0;
    lemma_frame_read(start, held, open, node);
    let current = cpu_fixture::fixture_node(held, node)->Ok_0;
    let place = cpu::resolved(node, current);
    let (written, failed) = cpu_fixture::fixture_write(held, place, mutation.desired);
    let (after, reply) = cpu_apply(held, mutation, snapshot);
    assert forall|other: CpuNode| !cpu_fixture::same_control(other, node) implies #[trigger]
        cpu_fixture::fixture_node(written, other) == cpu_fixture::fixture_node(held, other) by {
        lemma_others(held, place, mutation.desired, other);
    }
    if failed is None {
        lemma_frame_write(start, held, open, node, place, mutation.desired);
        if reply is Err && cpu::undone::<CpuFixture>(written, node, snapshot).1 is None {
            lemma_given_back(start, written, mutation, snapshot, open.insert(node));
            assert(open.insert(node).remove(node) =~= open);
        }
    } else {
        lemma_frame_failed(start, held, open, place, mutation.desired, node);
        if cpu::undone::<CpuFixture>(written, node, snapshot).1 is None {
            lemma_given_back(start, written, mutation, snapshot, open);
            assert(open.remove(node) =~= open);
        }
    }
    assert forall|other: CpuNode| !cpu_fixture::same_control(other, node) && !unknown(
        reply,
    ) implies #[trigger] cpu_fixture::fixture_node(after, other) == cpu_fixture::fixture_node(
        held,
        other,
    ) by {
        assert(cpu_fixture::fixture_node(written, other) == cpu_fixture::fixture_node(held, other));
    }
    assert forall|other: MutationView, taken: SnapshotView, mark: Mark|
        there(held, other, taken, mark) && !cpu_fixture::same_control(
            cpu::node_for(other.kind)->0,
            node,
        ) && !unknown(reply) implies #[trigger] there(after, other, taken, mark) by {
        reveal(there);
        assert(cpu_fixture::fixture_node(after, cpu::node_for(other.kind)->0)
            == cpu_fixture::fixture_node(held, cpu::node_for(other.kind)->0));
    }
    if let Ok(receipt) = reply {
        assert(there(after, mutation, snapshot, Mark::Left(receipt.ownership_fingerprint))) by {
            reveal(there);
        }
    }
}

proof fn lemma_loose_more(mutations: Seq<MutationView>, made: Seq<Mark>, k: int, mark: Mark)
    requires
        0 <= k < made.len(),
        mark is Left,
        made[k] is Never,
        cpu::node_for(mutations[k].kind) is Some,
    ensures
        loose(mutations, made.update(k, mark)) == loose(mutations, made).insert(
            cpu::node_for(mutations[k].kind)->0,
        ),
{
    let after = made.update(k, mark);
    let node = cpu::node_for(mutations[k].kind)->0;
    assert forall|n: CpuNode| loose(mutations, after).contains(n) == loose(
        mutations,
        made,
    ).insert(node).contains(n) by {
        if loose(mutations, made).contains(n) {
            let i = choose|i: int|
                0 <= i < made.len() && (#[trigger] made[i]) is Left && cpu::node_for(
                    mutations[i].kind,
                ) == Some(n);
            assert(after[i] is Left);
        }
        if n == node {
            assert(after[k] is Left);
        }
        if loose(mutations, after).contains(n) && n != node {
            let i = choose|i: int|
                0 <= i < after.len() && (#[trigger] after[i]) is Left && cpu::node_for(
                    mutations[i].kind,
                ) == Some(n);
            assert(made[i] is Left);
        }
    }
    assert(loose(mutations, after) =~= loose(mutations, made).insert(node));
}

proof fn lemma_loose_less(
    start: CpuModel,
    mutations: Seq<MutationView>,
    snapshots: Seq<SnapshotView>,
    made: Seq<Mark>,
    held: CpuModel,
    k: int,
)
    requires
        cpu_stands(start, mutations, snapshots, made, held),
        0 <= k < made.len(),
        made[k] is Left,
        cpu::node_for(mutations[k].kind) is Some,
    ensures
        loose(mutations, made.update(k, Mark::Back)) == loose(mutations, made).remove(
            cpu::node_for(mutations[k].kind)->0,
        ),
{
    let after = made.update(k, Mark::Back);
    let node = cpu::node_for(mutations[k].kind)->0;
    assert forall|n: CpuNode| loose(mutations, after).contains(n) == loose(
        mutations,
        made,
    ).remove(node).contains(n) by {
        if loose(mutations, made).contains(n) && n != node {
            let i = choose|i: int|
                0 <= i < made.len() && (#[trigger] made[i]) is Left && cpu::node_for(
                    mutations[i].kind,
                ) == Some(n);
            assert(after[i] is Left);
        }
        if loose(mutations, after).contains(n) {
            let i = choose|i: int|
                0 <= i < after.len() && (#[trigger] after[i]) is Left && cpu::node_for(
                    mutations[i].kind,
                ) == Some(n);
            assert(made[i] is Left);
            assert(i != k);
            assert(made[k] is Left);
        }
    }
    assert(loose(mutations, after) =~= loose(mutations, made).remove(node));
}

/// A change that is made is about another control than those that are there.
proof fn lemma_another_control(
    start: CpuModel,
    mutations: Seq<MutationView>,
    snapshots: Seq<SnapshotView>,
    made: Seq<Mark>,
    held: CpuModel,
    k: int,
    i: int,
)
    requires
        mutations.len() == snapshots.len(),
        one_planned(start, mutations[k], snapshots[k]),
        cpu_stands(start, mutations, snapshots, made, held),
        made.len() == mutations.len(),
        0 <= i < mutations.len(),
        0 <= k < mutations.len(),
        made[i] is Left,
        !loose(mutations, made).contains(cpu::node_for(mutations[k].kind)->0),
    ensures
        cpu::node_for(mutations[i].kind) != cpu::node_for(mutations[k].kind),
        !cpu_fixture::same_control(
            cpu::node_for(mutations[i].kind)->0,
            cpu::node_for(mutations[k].kind)->0,
        ),
{
    assert(one_planned(start, mutations[i], snapshots[i]));
    lemma_one_planned(start, mutations[i], snapshots[i]);
    lemma_one_planned(start, mutations[k], snapshots[k]);
}

/// A change of a control that another change is in is refused.
proof fn lemma_second_refused(
    start: CpuModel,
    mutations: Seq<MutationView>,
    snapshots: Seq<SnapshotView>,
    made: Seq<Mark>,
    held: CpuModel,
    k: int,
)
    requires
        mutations.len() == snapshots.len(),
        one_planned(start, mutations[k], snapshots[k]),
        cpu_stands(start, mutations, snapshots, made, held),
        made.len() == mutations.len(),
        0 <= k < mutations.len(),
        loose(mutations, made).contains(cpu::node_for(mutations[k].kind)->0),
    ensures
        cpu_apply(held, mutations[k], snapshots[k]).0 == held,
        cpu_apply(held, mutations[k], snapshots[k]).1 is Err,
{
    let node = cpu::node_for(mutations[k].kind)->0;
    let i = choose|i: int|
        0 <= i < made.len() && (#[trigger] made[i]) is Left && cpu::node_for(mutations[i].kind)
            == Some(node);
    assert(one_planned(start, mutations[i], snapshots[i]));
    lemma_one_planned(start, mutations[i], snapshots[i]);
    lemma_one_planned(start, mutations[k], snapshots[k]);
    assert(there(held, mutations[i], snapshots[i], made[i]));
    reveal(there);
    reveal(cpu_apply);
}

pub(crate) proof fn lemma_cpu_made(
    start: CpuModel,
    mutations: Seq<MutationView>,
    snapshots: Seq<SnapshotView>,
    made: Seq<Mark>,
    held: CpuModel,
    k: int,
)
    requires
        mutations.len() == snapshots.len(),
        one_planned(start, mutations[k], snapshots[k]),
        cpu_stands(start, mutations, snapshots, made, held),
        made.len() == mutations.len(),
        0 <= k < mutations.len(),
        made[k] is Never,
        forall|j: int| 0 <= j < made.len() ==> !((#[trigger] made[j]) is Back),
    ensures
        ({
            let (after, reply) = cpu_apply(held, mutations[k], snapshots[k]);
            match reply {
                Ok(receipt) => {
                    &&& receipt.ownership_fingerprint != snapshots[k].original_fingerprint
                    &&& cpu_stands(
                        start,
                        mutations,
                        snapshots,
                        made.update(k, Mark::Left(receipt.ownership_fingerprint)),
                        after,
                    )
                },
                Err(e) => e.retryability != Retryability::Unknown ==> cpu_stands(
                    start,
                    mutations,
                    snapshots,
                    made,
                    after,
                ),
            }
        }),
{
    let mutation = mutations[k];
    let snapshot = snapshots[k];
    let open = loose(mutations, made);
    let node = cpu::node_for(mutation.kind)->0;
    let (after, reply) = cpu_apply(held, mutation, snapshot);
    if open.contains(node) {
        lemma_second_refused(start, mutations, snapshots, made, held, k);
    } else {
        lemma_one_made(start, held, mutation, snapshot, open);
        match reply {
            Ok(receipt) => {
                let mark = Mark::Left(receipt.ownership_fingerprint);
                let now = made.update(k, mark);
                assert(cpu::node_for(mutations[k].kind) is Some) by {
                    lemma_one_planned(start, mutation, snapshot);
                }
                lemma_loose_more(mutations, made, k, mark);
                assert forall|i: int| 0 <= i < now.len() implies there(
                    after,
                    mutations[i],
                    snapshots[i],
                    #[trigger] now[i],
                ) by {
                    if i != k {
                        assert(now[i] == made[i]);
                        assert(there(held, mutations[i], snapshots[i], made[i]));
                        if made[i] is Left {
                            lemma_another_control(start, mutations, snapshots, made, held, k, i);
                        } else {
                            reveal(there);
                        }
                    }
                }
                assert forall|i: int| 0 <= i < now.len() && !((#[trigger] now[i])
                    is Never) implies one_planned(start, mutations[i], snapshots[i]) by {
                    if i != k {
                        assert(!(made[i] is Never));
                    }
                }
                assert forall|i: int, j: int|
                    0 <= i < j < now.len() && !((#[trigger] now[i]) is Never) && !((
                    #[trigger] now[j]) is Never) implies cpu::node_for(mutations[i].kind)
                    != cpu::node_for(mutations[j].kind) by {
                    assert(i != k ==> made[i] is Left);
                    assert(j != k ==> made[j] is Left);
                    if i == k {
                        lemma_another_control(start, mutations, snapshots, made, held, k, j);
                    } else if j == k {
                        lemma_another_control(start, mutations, snapshots, made, held, k, i);
                    }
                }
            },
            Err(e) => if e.retryability != Retryability::Unknown {
                assert forall|i: int| 0 <= i < made.len() implies there(
                    after,
                    mutations[i],
                    snapshots[i],
                    #[trigger] made[i],
                ) by {
                    assert(there(held, mutations[i], snapshots[i], made[i]));
                    if made[i] is Left {
                        lemma_another_control(start, mutations, snapshots, made, held, k, i);
                    } else {
                        reveal(there);
                    }
                }
            },
        }
    }
}

pub(crate) proof fn lemma_cpu_seen(
    start: CpuModel,
    mutations: Seq<MutationView>,
    snapshots: Seq<SnapshotView>,
    made: Seq<Mark>,
    held: CpuModel,
    k: int,
)
    requires
        mutations.len() == snapshots.len(),
        cpu_stands(start, mutations, snapshots, made, held),
        made.len() == mutations.len(),
        0 <= k < mutations.len(),
        !(made[k] is Never),
    ensures
        cpu_verify(held, mutations[k], snapshots[k].target_identity) == Ok::<
            StateFingerprint,
            ErrorView,
        >(
            match made[k] {
                Mark::Left(owned) => owned,
                _ => snapshots[k].original_fingerprint,
            },
        ),
        made[k] != Mark::Left(snapshots[k].original_fingerprint),
{
    reveal(there);
    reveal(cpu_verify);
    assert(one_planned(start, mutations[k], snapshots[k]));
    lemma_one_planned(start, mutations[k], snapshots[k]);
    let node = cpu::node_for(mutations[k].kind)->0;
    assert(there(held, mutations[k], snapshots[k], made[k]));
    if made[k] is Back {
        if loose(mutations, made).contains(node) {
            let i = choose|i: int|
                0 <= i < made.len() && (#[trigger] made[i]) is Left && cpu::node_for(
                    mutations[i].kind,
                ) == Some(node);
            assert(i != k);
        }
        lemma_frame_read(start, held, loose(mutations, made), node);
    }
}

pub(crate) proof fn lemma_cpu_undone(
    start: CpuModel,
    mutations: Seq<MutationView>,
    snapshots: Seq<SnapshotView>,
    made: Seq<Mark>,
    held: CpuModel,
    k: int,
    owned: StateFingerprint,
)
    requires
        mutations.len() == snapshots.len(),
        cpu_stands(start, mutations, snapshots, made, held),
        made.len() == mutations.len(),
        0 <= k < mutations.len(),
        made[k] == Mark::Left(owned),
    ensures
        ({
            let (after, reply) = cpu_restore(held, mutations[k], snapshots[k], owned);
            ||| cpu_stands(start, mutations, snapshots, made.update(k, Mark::Back), after)
            ||| reply is Err && cpu_stands(start, mutations, snapshots, made, after)
        }),
{
    reveal(there);
    reveal(cpu_restore);
    assert(one_planned(start, mutations[k], snapshots[k]));
    lemma_one_planned(start, mutations[k], snapshots[k]);
    let mutation = mutations[k];
    let snapshot = snapshots[k];
    let open = loose(mutations, made);
    let node = cpu::node_for(mutation.kind)->0;
    let (after, reply) = cpu_restore(held, mutation, snapshot, owned);
    assert(there(held, mutations[k], snapshots[k], made[k]));
    let current = cpu_fixture::fixture_node(held, node)->Ok_0;
    let place = cpu::resolved(node, current);
    let now = made.update(k, Mark::Back);
    let failed = cpu_fixture::fixture_write(held, place, snapshot.original_typed).1;
    assert(after == cpu_fixture::fixture_write(held, place, snapshot.original_typed).0);
    assert forall|i: int| 0 <= i < made.len() && i != k implies there(
        after,
        mutations[i],
        snapshots[i],
        #[trigger] made[i],
    ) by {
        assert(there(held, mutations[i], snapshots[i], made[i]));
        if made[i] is Left {
            assert(one_planned(start, mutations[i], snapshots[i]));
            lemma_one_planned(start, mutations[i], snapshots[i]);
            assert(made[k] is Left);
            lemma_others(
                held,
                place,
                snapshot.original_typed,
                cpu::node_for(mutations[i].kind)->0,
            );
        }
    }
    if failed is None {
        lemma_frame_back(start, held, open, node, place);
        lemma_loose_less(start, mutations, snapshots, made, held, k);
        assert forall|i: int| 0 <= i < now.len() implies there(
            after,
            mutations[i],
            snapshots[i],
            #[trigger] now[i],
        ) by {
            if i != k {
                assert(there(after, mutations[i], snapshots[i], made[i]));
            }
        }
        assert forall|i: int, j: int|
            0 <= i < j < now.len() && !((#[trigger] now[i]) is Never) && !((#[trigger] now[j])
                is Never) implies cpu::node_for(mutations[i].kind) != cpu::node_for(
            mutations[j].kind,
        ) by {
            assert(!(made[i] is Never) && !(made[j] is Never));
        }
        assert(cpu_stands(start, mutations, snapshots, now, after));
    } else {
        lemma_frame_failed(start, held, open, place, snapshot.original_typed, node);
        assert(cpu_stands(start, mutations, snapshots, made, after));
    }
}

/// What is found on a host in memory goes by what it holds.
pub(crate) proof fn lemma_conduct_snapshots(
    shown: Shown,
    mutation: MutationView,
    now: Timestamp,
    reply: Result<SnapshotView, ErrorView>,
)
    requires
        (cpu::cpu_conduct::<CpuFixture>().snapshots)(shown, mutation, now, reply),
    ensures
        shown matches Shown::Cpu(held) && reply == cpu_snapshot(held, mutation, now),
{
    reveal(cpu_snapshot);
    let host = choose|host: CpuFixture| #[trigger]
        cpu::snapshots(host, mutation, now, reply) && host.shown() == shown;
    cpu::settled_hosts_go_by_their_model(host, host, mutation, arbitrary());
}

/// What a change does to a host in memory goes by what it holds.
pub(crate) proof fn lemma_conduct_applies(
    shown: Shown,
    after: Shown,
    mutation: MutationView,
    snapshot: SnapshotView,
    reply: Result<ApplyReceipt, ErrorView>,
)
    requires
        (cpu::cpu_conduct::<CpuFixture>().applies)(shown, after, mutation, snapshot, reply),
    ensures
        shown is Cpu,
        after is Cpu,
        (after->Cpu_0, reply) == cpu_apply(shown->Cpu_0, mutation, snapshot),
{
    reveal(cpu_apply);
    let (host, left) = choose|host: CpuFixture, left: CpuFixture| #[trigger]
        cpu::applies(host, left, mutation, snapshot, reply) && host.shown() == shown
            && left.shown() == after;
    cpu::settled_hosts_go_by_their_model(host, left, mutation, snapshot);
}

/// What is read back from a host in memory goes by what it holds.
pub(crate) proof fn lemma_conduct_verifies(
    shown: Shown,
    mutation: MutationView,
    identity: TargetIdentity,
    reply: Result<StateFingerprint, ErrorView>,
)
    requires
        (cpu::cpu_conduct::<CpuFixture>().verifies)(shown, mutation, identity, reply),
    ensures
        shown matches Shown::Cpu(held) && reply == cpu_verify(held, mutation, identity),
{
    reveal(cpu_verify);
    let host = choose|host: CpuFixture| #[trigger]
        cpu::verifies(host, mutation, identity, reply) && host.shown() == shown;
    cpu::settled_hosts_go_by_their_model(host, host, mutation, arbitrary());
}

/// What giving back an original does to a host in memory goes by what it holds.
pub(crate) proof fn lemma_conduct_restores(
    shown: Shown,
    after: Shown,
    mutation: MutationView,
    snapshot: SnapshotView,
    ownership: StateFingerprint,
    reply: Result<RestoreReceipt, ErrorView>,
)
    requires
        (cpu::cpu_conduct::<CpuFixture>().restores)(shown, after, mutation, snapshot, ownership, reply),
    ensures
        shown is Cpu,
        after is Cpu,
        (after->Cpu_0, reply) == cpu_restore(shown->Cpu_0, mutation, snapshot, ownership),
{
    reveal(cpu_restore);
    let (host, left) = choose|host: CpuFixture, left: CpuFixture| #[trigger]
        cpu::restores(host, left, mutation, snapshot, ownership, reply) && host.shown() == shown
            && left.shown() == after;
    cpu::settled_hosts_go_by_their_model(host, left, mutation, snapshot);
}

/// Before anything is made the host stands.
pub(crate) proof fn lemma_cpu_begin(
    start: CpuModel,
    mutations: Seq<MutationView>,
    snapshots: Seq<SnapshotView>,
    made: Seq<Mark>,
)
    requires
        forall|j: int| 0 <= j < made.len() ==> (#[trigger] made[j]) is Never,
    ensures
        cpu_stands(start, mutations, snapshots, made, start),
{
    lemma_frame_start(start);
    assert(loose(mutations, made) =~= Set::empty());
    assert forall|i: int| 0 <= i < made.len() implies there(
        start,
        mutations[i],
        snapshots[i],
        #[trigger] made[i],
    ) by {
        reveal(there);
    }
}

/// Once nothing is left the host is as it was.
pub(crate) proof fn lemma_cpu_closed(
    start: CpuModel,
    mutations: Seq<MutationView>,
    snapshots: Seq<SnapshotView>,
    made: Seq<Mark>,
    held: CpuModel,
)
    requires
        cpu_stands(start, mutations, snapshots, made, held),
        forall|j: int| 0 <= j < made.len() ==> !((#[trigger] made[j]) is Left),
    ensures
        as_it_was(start, held),
{
    assert(loose(mutations, made) =~= Set::empty());
    lemma_frame_closed(start, held);
}

impl InMemory for CpuBackend<CpuFixture> {
    type Model = CpuModel;

    closed spec fn held(&self) -> CpuModel {
        self.host().model()
    }

    closed spec fn sound(held: CpuModel) -> bool {
        true
    }

    closed spec fn snapshot_by(held: CpuModel, mutation: MutationView, now: Timestamp) -> Result<
        SnapshotView,
        ErrorView,
    > {
        cpu_snapshot(held, mutation, now)
    }

    closed spec fn apply_by(held: CpuModel, mutation: MutationView, snapshot: SnapshotView) -> (
        CpuModel,
        Result<ApplyReceipt, ErrorView>,
    ) {
        cpu_apply(held, mutation, snapshot)
    }

    closed spec fn verify_by(held: CpuModel, mutation: MutationView, identity: TargetIdentity) -> Result<
        StateFingerprint,
        ErrorView,
    > {
        cpu_verify(held, mutation, identity)
    }

    closed spec fn restore_by(
        held: CpuModel,
        mutation: MutationView,
        snapshot: SnapshotView,
        ownership: StateFingerprint,
    ) -> (CpuModel, Result<RestoreReceipt, ErrorView>) {
        cpu_restore(held, mutation, snapshot, ownership)
    }

    closed spec fn suits(held: CpuModel, mutation: MutationView, snapshot: SnapshotView) -> bool {
        true
    }

    closed spec fn planned(
        start: CpuModel,
        mutations: Seq<MutationView>,
        snapshots: Seq<SnapshotView>,
    ) -> bool {
        all_planned(start, mutations, snapshots)
    }

    closed spec fn stands(
        start: CpuModel,
        mutations: Seq<MutationView>,
        snapshots: Seq<SnapshotView>,
        made: Seq<Mark>,
        held: CpuModel,
    ) -> bool {
        cpu_stands(start, mutations, snapshots, made, held)
    }

    closed spec fn same(start: CpuModel, held: CpuModel) -> bool {
        as_it_was(start, held)
    }

    proof fn lemma_begin(
        start: CpuModel,
        mutations: Seq<MutationView>,
        snapshots: Seq<SnapshotView>,
        made: Seq<Mark>,
    ) {
        lemma_cpu_begin(start, mutations, snapshots, made);
    }

    proof fn lemma_made(
        start: CpuModel,
        mutations: Seq<MutationView>,
        snapshots: Seq<SnapshotView>,
        made: Seq<Mark>,
        held: CpuModel,
        k: int,
    ) {
        lemma_cpu_made(start, mutations, snapshots, made, held, k);
    }

    proof fn lemma_seen(
        start: CpuModel,
        mutations: Seq<MutationView>,
        snapshots: Seq<SnapshotView>,
        made: Seq<Mark>,
        held: CpuModel,
        k: int,
    ) {
        lemma_cpu_seen(start, mutations, snapshots, made, held, k);
    }

    proof fn lemma_undone(
        start: CpuModel,
        mutations: Seq<MutationView>,
        snapshots: Seq<SnapshotView>,
        made: Seq<Mark>,
        held: CpuModel,
        k: int,
        owned: StateFingerprint,
    ) {
        lemma_cpu_undone(start, mutations, snapshots, made, held, k, owned);
    }

    proof fn lemma_nothing_left(
        start: CpuModel,
        mutations: Seq<MutationView>,
        snapshots: Seq<SnapshotView>,
        made: Seq<Mark>,
        held: CpuModel,
    ) {
        lemma_cpu_closed(start, mutations, snapshots, made, held);
    }

    proof fn lemma_snapshot(
        &self,
        mutation: MutationView,
        now: Timestamp,
        reply: Result<SnapshotView, ErrorView>,
    ) {
        reveal(cpu_snapshot);
        cpu::settled_hosts_go_by_their_model(self.host(), self.host(), mutation, arbitrary());
    }

    proof fn lemma_apply(
        &self,
        after: &Self,
        mutation: MutationView,
        snapshot: SnapshotView,
        reply: Result<ApplyReceipt, ErrorView>,
    ) {
        reveal(cpu_apply);
        let left = choose|left: CpuFixture| #[trigger]
            cpu::applies(self.host(), left, mutation, snapshot, reply) && after.host().shown()
                == left.shown();
        cpu::settled_hosts_go_by_their_model(self.host(), left, mutation, snapshot);
        assert(after.host().model() == left.model());
    }

    proof fn lemma_verify(
        &self,
        mutation: MutationView,
        expected: StateFingerprint,
        identity: TargetIdentity,
        reply: Result<StateFingerprint, ErrorView>,
    ) {
        reveal(cpu_verify);
        cpu::settled_hosts_go_by_their_model(self.host(), self.host(), mutation, arbitrary());
    }

    proof fn lemma_restore(
        &self,
        after: &Self,
        mutation: MutationView,
        snapshot: SnapshotView,
        ownership: StateFingerprint,
        reply: Result<RestoreReceipt, ErrorView>,
    ) {
        reveal(cpu_restore);
        let left = choose|left: CpuFixture| #[trigger]
            cpu::restores(self.host(), left, mutation, snapshot, ownership, reply)
                && after.host().shown() == left.shown();
        cpu::settled_hosts_go_by_their_model(self.host(), left, mutation, snapshot);
        assert(after.host().model() == left.model());
    }
}

/// A session that is restored, wherever in the history it was prepared.
proof fn lemma_host_life<S, L, G, C>(
    before: TransactionEngine<CpuBackend<CpuFixture>, S, L, G, C>,
    plan: PlanDataView,
    session_id: SessionId,
    prepared: TransactionEngine<CpuBackend<CpuFixture>, S, L, G, C>,
    from: int,
    to: int,
    visits: Seq<Visit<CpuBackend<CpuFixture>, S, L, G, C>>,
) where
    S: SessionStateStore,
    L: ExclusiveSessionLock,
    G: SessionIdSource,
    C: Clock,

    requires
        exact::is_prepared(before, plan, session_id, prepared, from, to),
        exact::in_turn(exact::intent(prepared.history(), to), visits, session_id),
        forall|k: int|
            0 <= k < visits.len() ==> (#[trigger] visits[k]).before.held_backend().host().model()
                == exact::backend_before(prepared, visits, k).host().model(),
        forall|i: int|
            0 <= i < plan.mutations.len() ==> distinguishable(
                before.held_backend().host().model(),
                #[trigger] plan.mutations[i],
            ),
        visits.len() > 0,
        exact::ends_restored(visits.last(), session_id),
    ensures
        as_it_was(
            before.held_backend().host().model(),
            visits.last().after.held_backend().host().model(),
        ),
        before.held_backend().host().model().failing == Set::<CpuNode>::empty()
            ==> visits.last().after.held_backend().host().model()
            == before.held_backend().host().model(),
{
    let start = before.held_backend().host().model();
    let held = visits.last().after.held_backend().host().model();
    assert(exact::undisturbed(prepared, visits)) by {
        assert forall|k: int| 0 <= k < visits.len() implies (
        #[trigger] visits[k]).before.held_backend().held() == exact::backend_before(
            prepared,
            visits,
            k,
        ).held() by {
            assert(visits[k].before.held_backend().host().model() == exact::backend_before(
                prepared,
                visits,
                k,
            ).host().model());
        }
    }
    assert forall|now: Timestamp, snapshots: Seq<SnapshotView>| #[trigger]
        exact::captured::<CpuBackend<CpuFixture>>(
            start,
            plan.mutations,
            snapshots,
            now,
        ) implies all_planned(start, plan.mutations, snapshots) by {
        assert forall|i: int| 0 <= i < plan.mutations.len() implies one_planned(
            start,
            #[trigger] plan.mutations[i],
            snapshots[i],
        ) by {
            assert(cpu_snapshot(start, plan.mutations[i], now) == Ok::<SnapshotView, ErrorView>(
                snapshots[i],
            ));
            reveal(cpu_snapshot);
            reveal(one_planned);
        }
    }
    exact::lemma_life(before, plan, session_id, prepared, from, to, visits);
    if start.failing == Set::<CpuNode>::empty() {
        assert(held.failing =~= start.failing);
    }
}

/// Once a session is restored, a CPU host in memory is exactly as it was before the
/// session was prepared, whatever became of the session in between.
///
/// The session is visited in turn: applied, restored or recovered, each any number of
/// times, by one coordinator or by several one after another. Visits fail or stop half
/// way as they may, be it at the host, the store or the clock. The last one ends with
/// the session restored: an apply that was rolled back, a restore, or a recovery.
///
/// Nobody else changes the host in the meantime. The store gives back no record but one
/// that may be durable by then. A new value has another fingerprint than the old one.
/// Writes that were to fail, and did, fail no more.
pub proof fn restored_sessions_leave_the_host_as_it_was<S, L, G, C>(
    before: TransactionEngine<CpuBackend<CpuFixture>, S, L, G, C>,
    plan: PlanDataView,
    session_id: SessionId,
    prepared: TransactionEngine<CpuBackend<CpuFixture>, S, L, G, C>,
    visits: Seq<Visit<CpuBackend<CpuFixture>, S, L, G, C>>,
) where
    S: SessionStateStore,
    L: ExclusiveSessionLock,
    G: SessionIdSource,
    C: Clock,

    requires
        exact::is_prepared(
            before,
            plan,
            session_id,
            prepared,
            before.history().len() as int,
            prepared.history().len() as int,
        ),
        exact::in_turn(
            exact::intent(prepared.history(), prepared.history().len() as int),
            visits,
            session_id,
        ),
        forall|k: int|
            0 <= k < visits.len() ==> (#[trigger] visits[k]).before.held_backend().host().model()
                == exact::backend_before(prepared, visits, k).host().model(),
        forall|i: int|
            0 <= i < plan.mutations.len() ==> distinguishable(
                before.held_backend().host().model(),
                #[trigger] plan.mutations[i],
            ),
        visits.len() > 0,
        exact::ends_restored(visits.last(), session_id),
    ensures
        as_it_was(
            before.held_backend().host().model(),
            visits.last().after.held_backend().host().model(),
        ),
        before.held_backend().host().model().failing == Set::<CpuNode>::empty()
            ==> visits.last().after.held_backend().host().model()
            == before.held_backend().host().model(),
{
    lemma_host_life(
        before,
        plan,
        session_id,
        prepared,
        before.history().len() as int,
        prepared.history().len() as int,
        visits,
    );
}

/// Once a session that was prepared through the helper is restored, a CPU host in memory is
/// exactly as it was before, whatever became of the session in between. The visits are
/// those of the coordinator of this helper, or of others after it.
pub proof fn restored_helper_sessions_leave_the_host_as_it_was<S, L, G, C>(
    before: PrivilegeService<CpuBackend<CpuFixture>, S, L, G, C>,
    plan: PlanDataView,
    handle: SessionHandle,
    prepared: PrivilegeService<CpuBackend<CpuFixture>, S, L, G, C>,
    visits: Seq<Visit<CpuBackend<CpuFixture>, S, L, G, C>>,
) where
    S: SessionStateStore,
    L: ExclusiveSessionLock,
    G: SessionIdSource,
    C: Clock,

    requires
        before.wf(),
        prepared.wf(),
        prepared.goes_on_from(&before),
        privilege::prepared_for(
            before.observed(),
            prepared.observed(),
            handle.owner,
            Some(plan),
            handle.plan_id,
            handle.plan_digest,
            Ok(handle),
        ),
        exact::in_turn(
            exact::intent(prepared.observed().history, prepared.observed().history.len() - 1),
            visits,
            handle.session_id,
        ),
        forall|k: int|
            0 <= k < visits.len() ==> (#[trigger] visits[k]).before.held_backend().host().model()
                == exact::backend_before(prepared.coordinator(), visits, k).host().model(),
        forall|i: int|
            0 <= i < plan.mutations.len() ==> distinguishable(
                before.coordinator().held_backend().host().model(),
                #[trigger] plan.mutations[i],
            ),
        visits.len() > 0,
        exact::ends_restored(visits.last(), handle.session_id),
    ensures
        as_it_was(
            before.coordinator().held_backend().host().model(),
            visits.last().after.held_backend().host().model(),
        ),
        before.coordinator().held_backend().host().model().failing == Set::<CpuNode>::empty()
            ==> visits.last().after.held_backend().host().model()
            == before.coordinator().held_backend().host().model(),
{
    let from = exact::helper_sessions_are_prepared(before, plan, handle, prepared);
    lemma_host_life(
        before.coordinator(),
        plan,
        handle.session_id,
        prepared.coordinator(),
        from,
        prepared.observed().history.len() - 1,
        visits,
    );
}

} // verus!
