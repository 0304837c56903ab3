//! The registry of backends, and a backend that only reports.

use vstd::prelude::*;

use crate::backend;
use crate::backend::{
    BackendDescriptor, BackendExecutionToken, BackendView, Conduct, MutationBackend, Shown,
};
use crate::capability;
use crate::capability::{CapabilityDescriptor, CapabilityInventory};
use crate::clock;
use crate::clock::{Clock, Relay, Timestamp};
use crate::error::{ErrorCode, ErrorView, SysboostError};
use crate::ids::{BackendId, CapabilityId, OperationId, StateFingerprint, TargetIdentity};
use crate::mutation::{
    ApplyReceipt, MutationView, PlannedMutation, RestoreReceipt, Snapshot, SnapshotView,
};
use crate::text;

verus! {

/// What the given backends are and own.
pub open spec fn described_all(descriptors: Seq<BackendDescriptor>) -> Seq<BackendView> {
    descriptors.map_values(|descriptor: BackendDescriptor| descriptor@)
}

pub open spec fn has_id(members: Seq<BackendView>, id: Seq<char>) -> bool {
    exists|i: int| 0 <= i < members.len() && (#[trigger] members[i]).id == id
}

pub open spec fn capability_taken(members: Seq<BackendView>, name: Seq<char>) -> bool {
    exists|i: int| 0 <= i < members.len() && (#[trigger] members[i]).capabilities.contains(name)
}

pub open spec fn operation_taken(members: Seq<BackendView>, name: Seq<char>) -> bool {
    exists|i: int| 0 <= i < members.len() && (#[trigger] members[i]).operations.contains(name)
}

/// The first of some capabilities that is owned already.
pub open spec fn first_taken(members: Seq<BackendView>, names: Seq<Seq<char>>) -> Option<Seq<char>>
    decreases names.len(),
{
    if names.len() == 0 {
        None
    } else {
        match first_taken(members, names.drop_last()) {
            Some(name) => Some(name),
            None => if capability_taken(members, names.last()) {
                Some(names.last())
            } else {
                None
            },
        }
    }
}

/// Why a backend is not registered.
pub open spec fn registration_refusal(members: Seq<BackendView>, new: BackendView) -> Option<
    ErrorView,
> {
    if has_id(members, new.id) {
        Some(
            crate::error::error_view(
                ErrorCode::InvariantViolation,
                "duplicate backend registration"@,
            ),
        )
    } else if first_taken(members, new.capabilities) is Some {
        Some(
            ErrorView {
                capability: first_taken(members, new.capabilities),
                ..crate::error::error_view(
                    ErrorCode::InvariantViolation,
                    "duplicate capability ownership"@,
                )
            },
        )
    } else if exists|i: int|
        0 <= i < new.operations.len() && operation_taken(members, #[trigger] new.operations[i]) {
        Some(
            crate::error::error_view(
                ErrorCode::InvariantViolation,
                "duplicate operation ownership"@,
            ),
        )
    } else {
        None
    }
}

/// Whether two backends own nothing together.
pub open spec fn apart(a: BackendView, b: BackendView) -> bool {
    &&& a.id != b.id
    &&& forall|name: Seq<char>| #[trigger]
        a.capabilities.contains(name) ==> !b.capabilities.contains(name)
    &&& forall|name: Seq<char>| #[trigger]
        a.operations.contains(name) ==> !b.operations.contains(name)
}

/// Whether everything has one owner.
pub open spec fn unique_ownership(members: Seq<BackendView>) -> bool {
    forall|i: int, j: int|
        0 <= i < j < members.len() ==> apart(#[trigger] members[i], #[trigger] members[j])
}

proof fn lemma_first_taken(members: Seq<BackendView>, names: Seq<Seq<char>>, i: int)
    requires
        first_taken(members, names) is None,
        0 <= i < names.len(),
    ensures
        !capability_taken(members, names[i]),
    decreases names.len(),
{
    if i < names.len() - 1 {
        lemma_first_taken(members, names.drop_last(), i);
        assert(names.drop_last()[i] == names[i]);
    }
}

/// Registering a backend never gives anything a second owner.
pub proof fn registration_keeps_ownership_unique(members: Seq<BackendView>, new: BackendView)
    requires
        unique_ownership(members),
        registration_refusal(members, new) is None,
    ensures
        unique_ownership(members.push(new)),
{
    let after = members.push(new);
    assert forall|i: int, j: int| 0 <= i < j < after.len() implies apart(
        #[trigger] after[i],
        #[trigger] after[j],
    ) by {
        if j == members.len() {
            assert(after[i] == members[i]);
            assert forall|name: Seq<char>| #[trigger]
                members[i].capabilities.contains(name) implies !new.capabilities.contains(name) by {
                if new.capabilities.contains(name) {
                    let k = new.capabilities.index_of(name);
                    assert(new.capabilities[k] == name);
                    lemma_first_taken(members, new.capabilities, k);
                    assert(capability_taken(members, name));
                }
            }
            assert forall|name: Seq<char>| #[trigger]
                members[i].operations.contains(name) implies !new.operations.contains(name) by {
                if new.operations.contains(name) {
                    let k = new.operations.index_of(name);
                    assert(new.operations[k] == name);
                    assert(operation_taken(members, name));
                }
            }
        }
    }
}

/// A name put behind all that do not come after it.
pub open spec fn placed(names: Seq<Seq<char>>, name: Seq<char>) -> Seq<Seq<char>>
    decreases names.len(),
{
    if names.len() == 0 || !text::less_spec(name, names.last()) {
        names.push(name)
    } else {
        placed(names.drop_last(), name).push(names.last())
    }
}

/// Names placed one after the other.
pub open spec fn merged(names: Seq<Seq<char>>, more: Seq<Seq<char>>) -> Seq<Seq<char>>
    decreases more.len(),
{
    if more.len() == 0 {
        names
    } else {
        placed(merged(names, more.drop_last()), more.last())
    }
}

fn place_capability(names: &mut Vec<CapabilityId>, name: CapabilityId)
    ensures
        crate::backend::capability_names(final(names)@) == placed(
            crate::backend::capability_names(old(names)@),
            name@,
        ),
{
    let ghost all = crate::backend::capability_names(names@);
    let mut at: usize = names.len();
    proof {
        assert(all.take(all.len() as int) =~= all);
        assert(placed(all, name@) =~= placed(all.take(all.len() as int), name@) + all.skip(
            all.len() as int,
        ));
    }
    while at > 0
        invariant_except_break
            placed(all, name@) == placed(all.take(at as int), name@) + all.skip(at as int),
        invariant
            at <= names@.len(),
            all == crate::backend::capability_names(names@),
            all.len() == names@.len(),
        ensures
            placed(all, name@) == all.take(at as int).push(name@) + all.skip(at as int),
        decreases at,
    {
        let ghost head = all.take(at as int);
        assert(head.last() == all[at - 1]);
        assert(all[at - 1] == names@[at - 1]@);
        if !text::less(name.as_str(), names[at - 1].as_str()) {
            break;
        }
        proof {
            assert(head.drop_last() =~= all.take(at - 1));
            assert(placed(all.take(at - 1), name@).push(all[at - 1]) + all.skip(at as int)
                =~= placed(all.take(at - 1), name@) + all.skip(at - 1));
        }
        at = at - 1;
    }
    names.insert(at, name);
    assert(crate::backend::capability_names(names@) =~= all.take(at as int).push(name@) + all.skip(
        at as int,
    ));
}

fn place_operation(names: &mut Vec<OperationId>, name: OperationId)
    ensures
        crate::backend::operation_names(final(names)@) == placed(
            crate::backend::operation_names(old(names)@),
            name@,
        ),
{
    let ghost all = crate::backend::operation_names(names@);
    let mut at: usize = names.len();
    proof {
        assert(all.take(all.len() as int) =~= all);
        assert(placed(all, name@) =~= placed(all.take(all.len() as int), name@) + all.skip(
            all.len() as int,
        ));
    }
    while at > 0
        invariant_except_break
            placed(all, name@) == placed(all.take(at as int), name@) + all.skip(at as int),
        invariant
            at <= names@.len(),
            all == crate::backend::operation_names(names@),
            all.len() == names@.len(),
        ensures
            placed(all, name@) == all.take(at as int).push(name@) + all.skip(at as int),
        decreases at,
    {
        let ghost head = all.take(at as int);
        assert(head.last() == all[at - 1]);
        assert(all[at - 1] == names@[at - 1]@);
        if !text::less(name.as_str(), names[at - 1].as_str()) {
            break;
        }
        proof {
            assert(head.drop_last() =~= all.take(at - 1));
            assert(placed(all.take(at - 1), name@).push(all[at - 1]) + all.skip(at as int)
                =~= placed(all.take(at - 1), name@) + all.skip(at - 1));
        }
        at = at - 1;
    }
    names.insert(at, name);
    assert(crate::backend::operation_names(names@) =~= all.take(at as int).push(name@) + all.skip(
        at as int,
    ));
}

/// What a registry owns after one more backend.
pub open spec fn owning(registry: BackendView, new: BackendView) -> BackendView {
    BackendView {
        capabilities: merged(registry.capabilities, new.capabilities),
        operations: merged(registry.operations, new.operations),
        ..registry
    }
}

/// Whether a backend carries out a mutation.
pub open spec fn carries(backend: BackendView, mutation: MutationView) -> bool {
    backend.operations.contains(mutation.kind.operation()) && backend.capabilities.contains(
        mutation.capability,
    )
}

/// Whether some backend carries out a mutation.
pub open spec fn carried(members: Seq<BackendView>, mutation: MutationView) -> bool {
    exists|i: int| 0 <= i < members.len() && carries(#[trigger] members[i], mutation)
}

/// Where the first backend stands that carries out a mutation.
pub open spec fn first_carrying(members: Seq<BackendView>, mutation: MutationView) -> Option<int>
    decreases members.len(),
{
    if members.len() == 0 {
        None
    } else {
        match first_carrying(members.drop_last(), mutation) {
            Some(i) => Some(i),
            None => if carries(members.last(), mutation) {
                Some(members.len() - 1)
            } else {
                None
            },
        }
    }
}

proof fn lemma_first_carrying(members: Seq<BackendView>, mutation: MutationView, k: int)
    requires
        0 <= k <= members.len(),
        forall|j: int| 0 <= j < k ==> !carries(#[trigger] members[j], mutation),
        k < members.len() ==> carries(members[k], mutation),
    ensures
        first_carrying(members, mutation) == if k < members.len() {
            Some(k)
        } else {
            None
        },
    decreases members.len(),
{
    if members.len() > 0 {
        let rest = members.drop_last();
        if k < members.len() {
            assert forall|j: int| 0 <= j < k implies !carries(#[trigger] rest[j], mutation) by {
                assert(rest[j] == members[j]);
            }
            if k < rest.len() {
                assert(rest[k] == members[k]);
            }
            lemma_first_carrying(rest, mutation, k);
        } else {
            assert forall|j: int| 0 <= j < rest.len() implies !carries(
                #[trigger] rest[j],
                mutation,
            ) by {
                assert(rest[j] == members[j]);
            }
            lemma_first_carrying(rest, mutation, rest.len() as int);
        }
    }
}

/// At most one backend carries out a mutation.
pub proof fn one_backend_per_mutation(
    members: Seq<BackendView>,
    mutation: MutationView,
    i: int,
    j: int,
)
    requires
        unique_ownership(members),
        0 <= i < members.len(),
        0 <= j < members.len(),
        carries(members[i], mutation),
        carries(members[j], mutation),
    ensures
        i == j,
{
    if i < j {
        assert(apart(members[i], members[j]));
    } else if j < i {
        assert(apart(members[j], members[i]));
    }
}

pub open spec fn unowned(mutation: MutationView) -> ErrorView {
    ErrorView {
        capability: Some(mutation.capability),
        mutation: Some(mutation.mutation_id),
        ..crate::error::error_view(
            ErrorCode::Unsupported,
            "no registered backend owns the typed operation"@,
        )
    }
}

/// Several inventories as one: all capabilities, as of the latest of them.
pub fn merge_inventories(inventories: Vec<CapabilityInventory>, otherwise: Timestamp) -> (r:
    CapabilityInventory)
    ensures
        r.observed_at == capability::latest(inventories@, otherwise),
        capability::capabilities_view(r.capabilities@) == capability::joined_capabilities(
            inventories@,
        ),
{
    let ghost all = inventories@;
    let mut rest = inventories;
    let n: usize = rest.len();
    let mut observed_at = otherwise;
    let mut capabilities: Vec<CapabilityDescriptor> = Vec::new();
    let mut i: usize = 0;
    proof {
        assert(all.take(0) =~= Seq::empty());
        assert(all.skip(0) =~= all);
        assert(capability::capabilities_view(capabilities@) =~= Seq::empty());
    }
    while i < n
        invariant
            i <= n,
            n == all.len(),
            rest@ == all.skip(i as int),
            observed_at == capability::latest(all.take(i as int), otherwise),
            capability::capabilities_view(capabilities@) == capability::joined_capabilities(
                all.take(i as int),
            ),
        decreases n - i,
    {
        let inventory = rest.remove(0);
        proof {
            assert(inventory == all[i as int]);
            assert(rest@ =~= all.skip(i + 1));
            assert(all.take(i + 1).drop_last() =~= all.take(i as int));
            assert(all.take(i + 1).last() == all[i as int]);
        }
        if i == 0 || inventory.observed_at.millis > observed_at.millis {
            observed_at = inventory.observed_at;
        }
        capability::extend_inventory(&mut capabilities, inventory.capabilities);
        i = i + 1;
    }
    assert(all.take(n as int) =~= all);
    CapabilityInventory { observed_at, capabilities }
}

/// Items with one more behind them.
pub open spec fn added<T>(item: T, items: Seq<T>) -> Seq<T> {
    items.push(item)
}

fn push_last<T>(item: T, items: &mut Vec<T>)
    ensures
        final(items)@ == added(item, old(items)@),
        final(items)@.len() == old(items)@.len() + 1,
        final(items)@[old(items)@.len() as int] == item,
        forall|i: int|
            0 <= i < old(items)@.len() ==> #[trigger] final(items)@[i] == old(items)@[i],
{
    items.push(item);
}

fn apply_at(
    parts: &mut Vec<Box<dyn MutationBackend>>,
    i: usize,
    execution: &BackendExecutionToken,
    mutation: &PlannedMutation,
    snapshot: &Snapshot,
) -> (r: Result<ApplyReceipt, SysboostError>)
    requires
        i < old(parts)@.len(),
    ensures
        final(parts)@.len() == old(parts)@.len(),
        forall|j: int|
            0 <= j < old(parts)@.len() && j != i ==> #[trigger] final(parts)@[j] == old(parts)@[j],
        final(parts)@[i as int].described() == old(parts)@[i as int].described(),
        final(parts)@[i as int].conduct() == old(parts)@[i as int].conduct(),
        old(parts)@[i as int].may_apply(
            final(parts)@[i as int].shown(),
            mutation@,
            snapshot@,
            crate::error::plain(r),
        ),
        (old(parts)@[i as int].conduct().applies)(
            old(parts)@[i as int].shown(),
            final(parts)@[i as int].shown(),
            mutation@,
            snapshot@,
            crate::error::plain(r),
        ),
{
    let part = &mut parts[i];
    part.apply(execution, mutation, snapshot)
}

fn restore_at(
    parts: &mut Vec<Box<dyn MutationBackend>>,
    i: usize,
    execution: &BackendExecutionToken,
    mutation: &PlannedMutation,
    snapshot: &Snapshot,
    ownership: StateFingerprint,
) -> (r: Result<RestoreReceipt, SysboostError>)
    requires
        i < old(parts)@.len(),
    ensures
        final(parts)@.len() == old(parts)@.len(),
        forall|j: int|
            0 <= j < old(parts)@.len() && j != i ==> #[trigger] final(parts)@[j] == old(parts)@[j],
        final(parts)@[i as int].described() == old(parts)@[i as int].described(),
        final(parts)@[i as int].conduct() == old(parts)@[i as int].conduct(),
        old(parts)@[i as int].may_restore(
            final(parts)@[i as int].shown(),
            mutation@,
            snapshot@,
            ownership,
            crate::error::plain(r),
        ),
        (old(parts)@[i as int].conduct().restores)(
            old(parts)@[i as int].shown(),
            final(parts)@[i as int].shown(),
            mutation@,
            snapshot@,
            ownership,
            crate::error::plain(r),
        ),
{
    let part = &mut parts[i];
    part.restore(execution, mutation, snapshot, ownership)
}

/// What several backends show once one of them shows something else.
pub open spec fn shown_with(all: Shown, i: int, part: Shown) -> Shown {
    match all {
        Shown::Parts(parts) => Shown::Parts(parts.update(i, part)),
        other => other,
    }
}

/// How several backends act together: the first that owns a mutation is told what is
/// asked of all, and nothing else changes. What is said of them must be what they are.
pub open spec fn shared_conduct(
    members: Seq<BackendView>,
    described: Seq<BackendView>,
    parts: Seq<Conduct>,
) -> Conduct {
    Conduct {
        members,
        described,
        parts,
        snapshots: |
            shown: Shown,
            mutation: MutationView,
            now: Timestamp,
            reply: Result<SnapshotView, ErrorView>,
        |
            match first_carrying(members, mutation) {
                None => reply == Err::<SnapshotView, ErrorView>(unowned(mutation)),
                Some(i) => members == described ==> (parts[i].snapshots)(
                    shown->Parts_0[i],
                    mutation,
                    now,
                    reply,
                ),
            },
        applies: |
            shown: Shown,
            after: Shown,
            mutation: MutationView,
            snapshot: SnapshotView,
            reply: Result<ApplyReceipt, ErrorView>,
        |
            match first_carrying(members, mutation) {
                None => after == shown && reply == Err::<ApplyReceipt, ErrorView>(
                    unowned(mutation),
                ),
                Some(i) => members == described ==> {
                    &&& after == shown_with(shown, i, after->Parts_0[i])
                    &&& (parts[i].applies)(
                        shown->Parts_0[i],
                        after->Parts_0[i],
                        mutation,
                        snapshot,
                        reply,
                    )
                },
            },
        verifies: |
            shown: Shown,
            mutation: MutationView,
            identity: TargetIdentity,
            reply: Result<StateFingerprint, ErrorView>,
        |
            match first_carrying(members, mutation) {
                None => reply == Err::<StateFingerprint, ErrorView>(unowned(mutation)),
                Some(i) => members == described ==> (parts[i].verifies)(
                    shown->Parts_0[i],
                    mutation,
                    identity,
                    reply,
                ),
            },
        restores: |
            shown: Shown,
            after: Shown,
            mutation: MutationView,
            snapshot: SnapshotView,
            ownership: StateFingerprint,
            reply: Result<RestoreReceipt, ErrorView>,
        |
            match first_carrying(members, mutation) {
                None => after == shown && reply == Err::<RestoreReceipt, ErrorView>(
                    unowned(mutation),
                ),
                Some(i) => members == described ==> {
                    &&& after == shown_with(shown, i, after->Parts_0[i])
                    &&& (parts[i].restores)(
                        shown->Parts_0[i],
                        after->Parts_0[i],
                        mutation,
                        snapshot,
                        ownership,
                        reply,
                    )
                },
            },
    }
}

/// The backends of a composition. Everything has one owner.
pub struct BackendRegistry {
    backends: Vec<Box<dyn MutationBackend>>,
    descriptors: Vec<BackendDescriptor>,
    descriptor: BackendDescriptor,
}

/// What an empty registry is and owns.
pub open spec fn empty_registry() -> BackendView {
    BackendView {
        id: "sysboost.registry"@,
        version: "1"@,
        capabilities: Seq::empty(),
        operations: Seq::empty(),
    }
}

impl BackendRegistry {
    /// What the backends are and own.
    pub closed spec fn members(&self) -> Seq<BackendView> {
        described_all(self.descriptors@)
    }

    /// Whether it is known of every backend what it is and owns.
    pub open spec fn in_step(&self) -> bool {
        &&& self.parts().len() == self.members().len()
        &&& forall|i: int|
            0 <= i < self.members().len() ==> self.parts()[i].described()
                == #[trigger] self.members()[i]
    }

    /// What each backend is and owns.
    pub open spec fn descriptions(&self) -> Seq<BackendView> {
        Seq::new(self.parts().len(), |i: int| self.parts()[i].described())
    }

    /// How each backend acts.
    pub open spec fn conducts(&self) -> Seq<Conduct> {
        Seq::new(self.parts().len(), |i: int| self.parts()[i].conduct())
    }

    /// The backends, in the order in which they were added.
    pub closed spec fn parts(&self) -> Seq<Box<dyn MutationBackend>> {
        self.backends@
    }

    /// What the registry as a whole is and owns.
    pub closed spec fn whole(&self) -> BackendView {
        self.descriptor@
    }

    /// A registry without backends.
    pub fn new() -> (r: BackendRegistry)
        ensures
            r.in_step(),
            r.members() == Seq::<BackendView>::empty(),
            r.whole() == empty_registry(),
    {
        proof {
            reveal_strlit("sysboost.registry");
        }
        let r = BackendRegistry {
            backends: Vec::new(),
            descriptors: Vec::new(),
            descriptor: BackendDescriptor {
                id: crate::capability::backend_named("sysboost.registry"),
                version: "1".to_string(),
                capabilities: Vec::new(),
                operations: Vec::new(),
            },
        };
        assert(r.members() =~= Seq::<BackendView>::empty());
        assert(r.whole() =~= empty_registry());
        r
    }

    fn id_taken(&self, id: &BackendId) -> (r: bool)
        ensures
            r == has_id(self.members(), id@),
    {
        let ghost members = self.members();
        let mut i: usize = 0;
        while i < self.descriptors.len()
            invariant
                i <= self.descriptors.len(),
                members == self.members(),
                members.len() == self.descriptors@.len(),
                forall|j: int| 0 <= j < i ==> (#[trigger] members[j]).id != id@,
            decreases self.descriptors.len() - i,
        {
            assert(members[i as int] == self.descriptors@[i as int]@);
            if self.descriptors[i].id.same(id) {
                return true;
            }
            i = i + 1;
        }
        false
    }

    fn owns_any_capability(&self, name: &str) -> (r: bool)
        ensures
            r == capability_taken(self.members(), name@),
    {
        let ghost members = self.members();
        let mut i: usize = 0;
        while i < self.descriptors.len()
            invariant
                i <= self.descriptors.len(),
                members == self.members(),
                members.len() == self.descriptors@.len(),
                forall|j: int|
                    0 <= j < i ==> !(#[trigger] members[j]).capabilities.contains(name@),
            decreases self.descriptors.len() - i,
        {
            assert(members[i as int] == self.descriptors@[i as int]@);
            if self.descriptors[i].owns_capability(name) {
                return true;
            }
            i = i + 1;
        }
        false
    }

    fn owns_any_operation(&self, name: &str) -> (r: bool)
        ensures
            r == operation_taken(self.members(), name@),
    {
        let ghost members = self.members();
        let mut i: usize = 0;
        while i < self.descriptors.len()
            invariant
                i <= self.descriptors.len(),
                members == self.members(),
                members.len() == self.descriptors@.len(),
                forall|j: int| 0 <= j < i ==> !(#[trigger] members[j]).operations.contains(name@),
            decreases self.descriptors.len() - i,
        {
            assert(members[i as int] == self.descriptors@[i as int]@);
            if self.descriptors[i].owns_operation(name) {
                return true;
            }
            i = i + 1;
        }
        false
    }

    /// Whether a backend may be added.
    fn check_new(&self, descriptor: &BackendDescriptor) -> (r: Result<(), SysboostError>)
        ensures
            match r {
                Ok(_) => registration_refusal(self.members(), descriptor@) is None,
                Err(e) => registration_refusal(self.members(), descriptor@) == Some(e@),
            },
    {
        if self.id_taken(&descriptor.id) {
            return Err(
                SysboostError::new(ErrorCode::InvariantViolation, "duplicate backend registration"),
            );
        }
        let ghost names = descriptor@.capabilities;
        let mut i: usize = 0;
        while i < descriptor.capabilities.len()
            invariant
                i <= descriptor.capabilities.len(),
                names == descriptor@.capabilities,
                names.len() == descriptor.capabilities@.len(),
                !has_id(self.members(), descriptor@.id),
                first_taken(self.members(), names.take(i as int)) is None,
            decreases descriptor.capabilities.len() - i,
        {
            assert(names[i as int] == descriptor.capabilities@[i as int]@);
            assert(names.take(i + 1).drop_last() =~= names.take(i as int));
            if self.owns_any_capability(descriptor.capabilities[i].as_str()) {
                proof {
                    lemma_first_taken_extends(
                        self.members(),
                        names,
                        i + 1,
                    );
                }
                return Err(
                    SysboostError::new(
                        ErrorCode::InvariantViolation,
                        "duplicate capability ownership",
                    ).with_capability(descriptor.capabilities[i].clone()),
                );
            }
            i = i + 1;
        }
        assert(names.take(i as int) =~= names);
        let ghost operations = descriptor@.operations;
        let mut k: usize = 0;
        while k < descriptor.operations.len()
            invariant
                k <= descriptor.operations.len(),
                operations == descriptor@.operations,
                operations.len() == descriptor.operations@.len(),
                !has_id(self.members(), descriptor@.id),
                first_taken(self.members(), descriptor@.capabilities) is None,
                forall|j: int|
                    0 <= j < k ==> !operation_taken(self.members(), #[trigger] operations[j]),
            decreases descriptor.operations.len() - k,
        {
            assert(operations[k as int] == descriptor.operations@[k as int]@);
            if self.owns_any_operation(descriptor.operations[k].as_str()) {
                return Err(
                    SysboostError::new(
                        ErrorCode::InvariantViolation,
                        "duplicate operation ownership",
                    ),
                );
            }
            k = k + 1;
        }
        Ok(())
    }

    /// Whether the first backends find this, one after the other, by what each of them
    /// heard of what the clock told.
    pub open spec fn found_first(
        &self,
        told: Set<Result<Timestamp, ErrorView>>,
        heard: Seq<Set<Result<Timestamp, ErrorView>>>,
        found: Seq<CapabilityInventory>,
    ) -> bool {
        &&& heard.len() == found.len()
        &&& forall|i: int| 0 <= i < heard.len() ==> (#[trigger] heard[i]).subset_of(told)
        &&& forall|i: int|
            0 <= i < found.len() ==> self.parts()[i].may_detect(heard[i], Ok(#[trigger] found[i]))
    }

    /// Adds a backend, unless something that it is or owns is taken already.
    pub fn register(&mut self, backend: Box<dyn MutationBackend>) -> (r: Result<(), SysboostError>)
        ensures
            match r {
                Ok(_) => {
                    &&& registration_refusal(old(self).members(), backend.described()) is None
                    &&& final(self).members() == old(self).members().push(backend.described())
                    &&& final(self).parts() == added(backend, old(self).parts())
                    &&& final(self).parts().len() == old(self).parts().len() + 1
                    &&& final(self).parts().last() == backend
                    &&& final(self).conducts() == old(self).conducts().push(backend.conduct())
                    &&& final(self).shown()->Parts_0 == old(self).shown()->Parts_0.push(
                        backend.shown(),
                    )
                    &&& final(self).whole() == owning(old(self).whole(), backend.described())
                    &&& old(self).in_step() ==> final(self).in_step()
                },
                Err(e) => {
                    &&& registration_refusal(old(self).members(), backend.described()) == Some(e@)
                    &&& *final(self) == *old(self)
                },
            },
    {
        let ghost new = backend.described();
        match self.check_new(backend.descriptor()) {
            Ok(_) => {},
            Err(e) => {
                return Err(e);
            },
        }
        let ghost before = self.descriptor@;
        let n: usize = backend.descriptor().capabilities.len();
        let mut i: usize = 0;
        assert(new.capabilities.take(0) =~= Seq::empty());
        assert(new.operations.take(0) =~= Seq::empty());
        while i < n
            invariant
                i <= n,
                new == backend.described(),
                n == new.capabilities.len(),
                self.backends == old(self).backends,
                self.descriptors == old(self).descriptors,
                self.descriptor@ == (BackendView {
                    capabilities: merged(before.capabilities, new.capabilities.take(i as int)),
                    ..before
                }),
            decreases n - i,
        {
            let name = backend.descriptor().capabilities[i].clone();
            assert(name@ == new.capabilities[i as int]);
            assert(new.capabilities.take(i + 1).drop_last() =~= new.capabilities.take(i as int));
            place_capability(&mut self.descriptor.capabilities, name);
            i = i + 1;
        }
        assert(new.capabilities.take(n as int) =~= new.capabilities);
        let m: usize = backend.descriptor().operations.len();
        let mut k: usize = 0;
        while k < m
            invariant
                k <= m,
                new == backend.described(),
                m == new.operations.len(),
                self.backends == old(self).backends,
                self.descriptors == old(self).descriptors,
                self.descriptor@ == (BackendView {
                    capabilities: merged(before.capabilities, new.capabilities),
                    operations: merged(before.operations, new.operations.take(k as int)),
                    ..before
                }),
            decreases m - k,
        {
            let name = backend.descriptor().operations[k].clone();
            assert(name@ == new.operations[k as int]);
            assert(new.operations.take(k + 1).drop_last() =~= new.operations.take(k as int));
            place_operation(&mut self.descriptor.operations, name);
            k = k + 1;
        }
        assert(new.operations.take(m as int) =~= new.operations);
        let descriptor = backend.descriptor().clone();
        self.descriptors.push(descriptor);
        let ghost given = backend;
        let ghost had = self.backends@;
        push_last(backend, &mut self.backends);
        assert(self.backends@[had.len() as int] == given);
        assert(self.members() =~= old(self).members().push(new));
        proof {
            if old(self).in_step() {
                assert forall|i: int|
                    0 <= i < self.members().len() implies self.parts()[i].described()
                    == #[trigger] self.members()[i] by {
                    if i < old(self).members().len() {
                        assert(self.members()[i] == old(self).members()[i]);
                        assert(self.backends@[i] == old(self).backends@[i]);
                    } else {
                        assert(i == had.len());
                    }
                }
            }
        }
        Ok(())
    }

    /// How many backends there are.
    pub fn len(&self) -> (r: usize)
        ensures
            r == self.members().len(),
    {
        self.descriptors.len()
    }

    /// Whether there is no backend.
    pub fn is_empty(&self) -> (r: bool)
        ensures
            r == (self.members().len() == 0),
    {
        self.descriptors.len() == 0
    }

    /// The backends in the order in which they were added.
    pub fn iter(&self) -> (r: &[Box<dyn MutationBackend>])
        ensures
            r@ == self.parts(),
            self.in_step() ==> r@.len() == self.members().len(),
    {
        self.backends.as_slice()
    }

    /// Where the backend stands that carries out a mutation.
    fn backend_for(&self, mutation: &PlannedMutation) -> (r: Result<usize, SysboostError>)
        ensures
            match r {
                Ok(i) => {
                    &&& i < self.backends@.len()
                    &&& i < self.members().len()
                    &&& carries(self.members()[i as int], mutation@)
                    &&& first_carrying(self.members(), mutation@) == Some(i as int)
                },
                Err(e) => {
                    &&& e@ == unowned(mutation@)
                    &&& self.in_step() ==> !carried(self.members(), mutation@) && first_carrying(
                        self.members(),
                        mutation@,
                    ) is None
                },
            },
    {
        let ghost members = self.members();
        let operation = mutation.kind.operation_name();
        let mut i: usize = 0;
        while i < self.backends.len() && i < self.descriptors.len()
            invariant
                i <= self.descriptors.len(),
                i <= self.backends.len(),
                members == self.members(),
                members.len() == self.descriptors@.len(),
                operation@ == mutation@.kind.operation(),
                forall|j: int| 0 <= j < i ==> !carries(#[trigger] members[j], mutation@),
            decreases self.backends.len() - i,
        {
            assert(members[i as int] == self.descriptors@[i as int]@);
            let descriptor = &self.descriptors[i];
            if descriptor.owns_operation(operation) && descriptor.owns_capability(
                mutation.capability.as_str(),
            ) {
                proof {
                    lemma_first_carrying(members, mutation@, i as int);
                }
                return Ok(i);
            }
            i = i + 1;
        }
        proof {
            if self.in_step() {
                lemma_first_carrying(members, mutation@, members.len() as int);
            }
        }
        Err(
            SysboostError::new(
                ErrorCode::Unsupported,
                "no registered backend owns the typed operation",
            ).with_capability(mutation.capability.clone()).with_mutation(mutation.mutation_id),
        )
    }
}

impl Default for BackendRegistry {
    fn default() -> (r: BackendRegistry)
        ensures
            r.in_step(),
            r.members() == Seq::<BackendView>::empty(),
            r.whole() == empty_registry(),
    {
        BackendRegistry::new()
    }
}

proof fn lemma_first_taken_extends(members: Seq<BackendView>, names: Seq<Seq<char>>, k: int)
    requires
        0 <= k <= names.len(),
        first_taken(members, names.take(k)) is Some,
    ensures
        first_taken(members, names) == first_taken(members, names.take(k)),
    decreases names.len(),
{
    if k < names.len() {
        assert(names.drop_last().take(k) =~= names.take(k));
        lemma_first_taken_extends(members, names.drop_last(), k);
    } else {
        assert(names.take(k) =~= names);
    }
}

/// Asks a backend for its evidence.
fn ask<B: MutationBackend + ?Sized, C: Clock + ?Sized>(backend: &Box<B>, clock: &C) -> (r: Result<
    CapabilityInventory,
    SysboostError,
>)
    ensures
        exists|told: Set<Result<Timestamp, ErrorView>>| #[trigger]
            told.subset_of(clock::times(clock)) && backend.may_detect(
                told,
                crate::error::plain(r),
            ),
{
    let relay = Relay::new(clock);
    let r = backend.detect(&relay);
    proof {
        let told = choose|told: Set<Result<Timestamp, ErrorView>>| #[trigger]
            backend.may_detect(told, crate::error::plain(r)) && forall|
                time: Result<Timestamp, ErrorView>,
            | #[trigger] told.contains(time) ==> relay.may_tell(time);
        clock::lemma_relayed(clock, &relay, told);
    }
    r
}

/// Whether a time is one that a clock may tell, or zero where the clock fails.
pub open spec fn told_or_zero(told: Set<Result<Timestamp, ErrorView>>, time: Timestamp) -> bool {
    ||| told.contains(Ok(time))
    ||| time.millis == 0 && exists|e: ErrorView| told.contains(Err(e))
}

impl MutationBackend for BackendRegistry {
    open spec fn described(&self) -> BackendView {
        self.whole()
    }

    open spec fn shown(&self) -> Shown {
        Shown::Parts(Seq::new(self.parts().len(), |i: int| self.parts()[i].shown()))
    }

    open spec fn conduct(&self) -> Conduct {
        shared_conduct(self.members(), self.descriptions(), self.conducts())
    }

    open spec fn may_detect(
        &self,
        told: Set<Result<Timestamp, ErrorView>>,
        reply: Result<CapabilityInventory, ErrorView>,
    ) -> bool {
        match reply {
            Ok(inventory) => exists|
                found: Seq<CapabilityInventory>,
                heard: Seq<Set<Result<Timestamp, ErrorView>>>,
                otherwise: Timestamp,
            |
                {
                    &&& found.len() == self.parts().len()
                    &&& #[trigger] self.found_first(told, heard, found)
                    &&& found.len() == 0 ==> told_or_zero(told, otherwise)
                    &&& inventory.observed_at == #[trigger] capability::latest(found, otherwise)
                    &&& capability::capabilities_view(inventory.capabilities@)
                        == capability::joined_capabilities(found)
                },
            Err(e) => exists|
                found: Seq<CapabilityInventory>,
                heard: Seq<Set<Result<Timestamp, ErrorView>>>,
                last: Set<Result<Timestamp, ErrorView>>,
            |
                {
                    &&& found.len() < self.parts().len()
                    &&& #[trigger] self.found_first(told, heard, found)
                    &&& #[trigger] last.subset_of(told)
                    &&& self.parts()[found.len() as int].may_detect(last, Err(e))
                },
        }
    }

    open spec fn may_snapshot(
        &self,
        mutation: MutationView,
        now: Timestamp,
        reply: Result<SnapshotView, ErrorView>,
    ) -> bool {
        match first_carrying(self.members(), mutation) {
            None => reply == Err::<SnapshotView, ErrorView>(unowned(mutation)),
            Some(i) => self.in_step() ==> self.parts()[i].may_snapshot(mutation, now, reply),
        }
    }

    open spec fn may_apply(
        &self,
        after: Shown,
        mutation: MutationView,
        snapshot: SnapshotView,
        reply: Result<ApplyReceipt, ErrorView>,
    ) -> bool {
        match first_carrying(self.members(), mutation) {
            None => after == self.shown() && reply == Err::<ApplyReceipt, ErrorView>(
                unowned(mutation),
            ),
            Some(i) => self.in_step() ==> {
                &&& after == shown_with(self.shown(), i, after->Parts_0[i])
                &&& self.parts()[i].may_apply(after->Parts_0[i], mutation, snapshot, reply)
            },
        }
    }

    open spec fn may_verify(
        &self,
        mutation: MutationView,
        expected: StateFingerprint,
        identity: TargetIdentity,
        reply: Result<StateFingerprint, ErrorView>,
    ) -> bool {
        match first_carrying(self.members(), mutation) {
            None => reply == Err::<StateFingerprint, ErrorView>(unowned(mutation)),
            Some(i) => self.in_step() ==> self.parts()[i].may_verify(
                mutation,
                expected,
                identity,
                reply,
            ),
        }
    }

    open spec fn may_restore(
        &self,
        after: Shown,
        mutation: MutationView,
        snapshot: SnapshotView,
        ownership: StateFingerprint,
        reply: Result<RestoreReceipt, ErrorView>,
    ) -> bool {
        match first_carrying(self.members(), mutation) {
            None => after == self.shown() && reply == Err::<RestoreReceipt, ErrorView>(
                unowned(mutation),
            ),
            Some(i) => self.in_step() ==> {
                &&& after == shown_with(self.shown(), i, after->Parts_0[i])
                &&& self.parts()[i].may_restore(
                    after->Parts_0[i],
                    mutation,
                    snapshot,
                    ownership,
                    reply,
                )
            },
        }
    }

    open spec fn may_own(&self, backend: Seq<char>, reply: bool) -> bool {
        if reply {
            exists|i: int|
                0 <= i < self.parts().len() && backend::name_answer(
                    (#[trigger] self.parts()[i]).described(),
                    backend,
                    self.parts()[i].may_own(backend, true),
                    true,
                )
        } else {
            forall|i: int|
                0 <= i < self.parts().len() ==> backend::name_answer(
                    (#[trigger] self.parts()[i]).described(),
                    backend,
                    self.parts()[i].may_own(backend, false),
                    false,
                )
        }
    }

    open spec fn may_admit(
        &self,
        mutation: MutationView,
        identity: TargetIdentity,
        reply: Result<(), ErrorView>,
    ) -> bool {
        match first_carrying(self.members(), mutation) {
            None => reply == Err::<(), ErrorView>(unowned(mutation)),
            Some(i) => self.in_step() ==> backend::admission_answer(
                self.parts()[i].described(),
                mutation,
                self.parts()[i].may_target(mutation, identity, reply),
                self.parts()[i].may_admit(mutation, identity, reply),
                reply,
            ),
        }
    }

    open spec fn may_target(
        &self,
        mutation: MutationView,
        identity: TargetIdentity,
        reply: Result<(), ErrorView>,
    ) -> bool {
        match first_carrying(self.members(), mutation) {
            None => reply == Err::<(), ErrorView>(unowned(mutation)),
            Some(i) => self.in_step() ==> backend::target_answer(
                mutation,
                self.parts()[i].may_target(mutation, identity, reply),
                reply,
            ),
        }
    }

    fn descriptor(&self) -> (r: &BackendDescriptor) {
        &self.descriptor
    }

    /// Whether one of the backends has the given identity, or holds it.
    fn owns_backend(&self, backend: &BackendId) -> (r: bool)
        ensures
            self.may_own(backend@, r),
    {
        let mut i: usize = 0;
        while i < self.backends.len()
            invariant
                i <= self.backends.len(),
                forall|j: int|
                    0 <= j < i ==> backend::name_answer(
                        (#[trigger] self.parts()[j]).described(),
                        backend@,
                        self.parts()[j].may_own(backend@, false),
                        false,
                    ),
            decreases self.backends.len() - i,
        {
            if self.backends[i].owns_backend(backend) {
                assert(backend::name_answer(
                    self.parts()[i as int].described(),
                    backend@,
                    self.parts()[i as int].may_own(backend@, true),
                    true,
                ));
                return true;
            }
            i = i + 1;
        }
        false
    }

    /// All evidence of the backends, as of the latest of them. Every backend is
    /// asked, in order, up to the first that fails. Without backends the time is that of
    /// the clock, or zero where the clock fails.
    fn detect(&self, clock: &dyn Clock) -> (r: Result<CapabilityInventory, SysboostError>)
        ensures
            self.may_detect(clock::times(clock), crate::error::plain(r)),
    {
        let ghost told = clock::times(clock);
        proof {
            clock::lemma_times(clock);
        }
        let ghost mut heard: Seq<Set<Result<Timestamp, ErrorView>>> = Seq::empty();
        let mut inventories: Vec<CapabilityInventory> = Vec::new();
        let mut i: usize = 0;
        while i < self.backends.len()
            invariant
                i <= self.backends.len(),
                inventories@.len() == i,
                told == clock::times(clock),
                clock::heard_from(clock, told),
                self.found_first(told, heard, inventories@),
            decreases self.backends.len() - i,
        {
            let ghost before = inventories@;
            let r = ask(&self.backends[i], clock);
            let ghost last = choose|last: Set<Result<Timestamp, ErrorView>>| #[trigger]
                last.subset_of(told) && self.parts()[i as int].may_detect(
                    last,
                    crate::error::plain(r),
                );
            match r {
                Ok(inventory) => {
                    inventories.push(inventory);
                    proof {
                        heard = heard.push(last);
                        assert forall|j: int| 0 <= j < inventories@.len() implies self.parts()[j].may_detect(
                            heard[j],
                            Ok(#[trigger] inventories@[j]),
                        ) by {
                            if j < i {
                                assert(inventories@[j] == before[j]);
                            }
                        }
                    }
                },
                Err(e) => {
                    assert(self.found_first(told, heard, inventories@));
                    return Err(e);
                },
            }
            i = i + 1;
        }
        let mut otherwise = Timestamp::from_unix_millis(0);
        if inventories.len() == 0 {
            let time = clock.now();
            assert(told.contains(crate::error::plain(time)));
            if let Ok(now) = time {
                otherwise = now;
            }
        }
        assert(self.found_first(told, heard, inventories@));
        Ok(merge_inventories(inventories, otherwise))
    }

    fn snapshot(
        &self,
        execution: &BackendExecutionToken,
        mutation: &PlannedMutation,
        now: Timestamp,
    ) -> (r: Result<Snapshot, SysboostError>)
        ensures
            !carried(self.members(), mutation@) ==> r is Err && r->Err_0@ == unowned(mutation@),
            self.may_snapshot(mutation@, now, crate::error::viewed(r)),
    {
        match self.backend_for(mutation) {
            Ok(i) => self.backends[i].snapshot(execution, mutation, now),
            Err(e) => Err(e),
        }
    }

    fn apply(
        &mut self,
        execution: &BackendExecutionToken,
        mutation: &PlannedMutation,
        snapshot: &Snapshot,
    ) -> (r: Result<ApplyReceipt, SysboostError>)
        ensures
            final(self).members() == old(self).members(),
            !carried(old(self).members(), mutation@) ==> r is Err && r->Err_0@ == unowned(
                mutation@,
            ),
            old(self).in_step() ==> final(self).in_step(),
            old(self).may_apply(
                final(self).shown(),
                mutation@,
                snapshot@,
                crate::error::plain(r),
            ),
    {
        match self.backend_for(mutation) {
            Ok(i) => {
                let r = apply_at(&mut self.backends, i, execution, mutation, snapshot);
                assert(self.members() =~= old(self).members());
                assert(self.descriptions() =~= old(self).descriptions());
                assert(self.conducts() =~= old(self).conducts());
                proof {
                    let shown = self.parts()[i as int].shown();
                    assert(self.shown() == shown_with(old(self).shown(), i as int, shown)) by {
                        assert(self.shown()->Parts_0 =~= old(self).shown()->Parts_0.update(
                            i as int,
                            shown,
                        ));
                    }
                }
                assert(old(self).parts()[i as int].may_apply(
                    self.parts()[i as int].shown(),
                    mutation@,
                    snapshot@,
                    crate::error::plain(r),
                ));
                assert(first_carrying(old(self).members(), mutation@) == Some(i as int));
                r
            },
            Err(e) => Err(e),
        }
    }

    fn verify(
        &self,
        execution: &BackendExecutionToken,
        mutation: &PlannedMutation,
        expected: StateFingerprint,
        expected_target_identity: TargetIdentity,
    ) -> (r: Result<StateFingerprint, SysboostError>)
        ensures
            !carried(self.members(), mutation@) ==> r is Err && r->Err_0@ == unowned(mutation@),
            self.may_verify(
                mutation@,
                expected,
                expected_target_identity,
                crate::error::plain(r),
            ),
    {
        match self.backend_for(mutation) {
            Ok(i) => self.backends[i].verify(
                execution,
                mutation,
                expected,
                expected_target_identity,
            ),
            Err(e) => Err(e),
        }
    }

    fn restore(
        &mut self,
        execution: &BackendExecutionToken,
        mutation: &PlannedMutation,
        snapshot: &Snapshot,
        expected_ownership: StateFingerprint,
    ) -> (r: Result<RestoreReceipt, SysboostError>)
        ensures
            final(self).members() == old(self).members(),
            !carried(old(self).members(), mutation@) ==> r is Err && r->Err_0@ == unowned(
                mutation@,
            ),
            old(self).in_step() ==> final(self).in_step(),
            old(self).may_restore(
                final(self).shown(),
                mutation@,
                snapshot@,
                expected_ownership,
                crate::error::plain(r),
            ),
    {
        match self.backend_for(mutation) {
            Ok(i) => {
                let r = restore_at(
                    &mut self.backends,
                    i,
                    execution,
                    mutation,
                    snapshot,
                    expected_ownership,
                );
                assert(self.members() =~= old(self).members());
                assert(self.descriptions() =~= old(self).descriptions());
                assert(self.conducts() =~= old(self).conducts());
                proof {
                    let shown = self.parts()[i as int].shown();
                    assert(self.shown() == shown_with(old(self).shown(), i as int, shown)) by {
                        assert(self.shown()->Parts_0 =~= old(self).shown()->Parts_0.update(
                            i as int,
                            shown,
                        ));
                    }
                }
                r
            },
            Err(e) => Err(e),
        }
    }

    fn validate_admission(
        &self,
        mutation: &PlannedMutation,
        expected_target_identity: TargetIdentity,
    ) -> (r: Result<(), SysboostError>)
        ensures
            !carried(self.members(), mutation@) ==> r is Err && r->Err_0@ == unowned(mutation@),
            self.may_admit(mutation@, expected_target_identity, crate::error::outcome(r)),
    {
        match self.backend_for(mutation) {
            Ok(i) => self.backends[i].validate_admission(mutation, expected_target_identity),
            Err(e) => Err(e),
        }
    }

    fn validate_target(
        &self,
        mutation: &PlannedMutation,
        expected_target_identity: TargetIdentity,
    ) -> (r: Result<(), SysboostError>)
        ensures
            !carried(self.members(), mutation@) ==> r is Err && r->Err_0@ == unowned(mutation@),
            self.may_target(mutation@, expected_target_identity, crate::error::outcome(r)),
    {
        match self.backend_for(mutation) {
            Ok(i) => self.backends[i].validate_target(mutation, expected_target_identity),
            Err(e) => Err(e),
        }
    }
}

/// A backend that changes nothing and offers nothing.
#[derive(Clone, Debug)]
pub struct ReportOnlyBackend {
    descriptor: BackendDescriptor,
}

/// What the report-only backend is and owns.
pub open spec fn report_only() -> BackendView {
    BackendView {
        id: "linux.report_only"@,
        version: "0.1.0-foundation"@,
        capabilities: Seq::empty(),
        operations: Seq::empty(),
    }
}

/// How the report-only backend acts.
pub open spec fn report_only_conduct() -> Conduct {
    Conduct {
        members: Seq::empty(),
        described: Seq::empty(),
        parts: Seq::empty(),
        snapshots: |
            shown: Shown,
            mutation: MutationView,
            now: Timestamp,
            reply: Result<SnapshotView, ErrorView>,
        | reply == Err::<SnapshotView, ErrorView>(deferred()),
        applies: |
            shown: Shown,
            after: Shown,
            mutation: MutationView,
            snapshot: SnapshotView,
            reply: Result<ApplyReceipt, ErrorView>,
        | after == shown && reply == Err::<ApplyReceipt, ErrorView>(deferred()),
        verifies: |
            shown: Shown,
            mutation: MutationView,
            identity: TargetIdentity,
            reply: Result<StateFingerprint, ErrorView>,
        | reply == Err::<StateFingerprint, ErrorView>(deferred()),
        restores: |
            shown: Shown,
            after: Shown,
            mutation: MutationView,
            snapshot: SnapshotView,
            ownership: StateFingerprint,
            reply: Result<RestoreReceipt, ErrorView>,
        | after == shown && reply == Err::<RestoreReceipt, ErrorView>(deferred()),
    }
}

pub open spec fn deferred() -> ErrorView {
    crate::error::error_view(
        ErrorCode::Unsupported,
        "runtime Linux mutation backends are deferred from the foundation skeleton"@,
    )
}

fn unsupported() -> (r: SysboostError)
    ensures
        r@ == deferred(),
{
    SysboostError::new(
        ErrorCode::Unsupported,
        "runtime Linux mutation backends are deferred from the foundation skeleton",
    )
}

impl ReportOnlyBackend {
    pub fn new() -> (r: ReportOnlyBackend)
        ensures
            r.described() == report_only(),
    {
        proof {
            reveal_strlit("linux.report_only");
        }
        let r = ReportOnlyBackend {
            descriptor: BackendDescriptor {
                id: crate::capability::backend_named("linux.report_only"),
                version: "0.1.0-foundation".to_string(),
                capabilities: Vec::new(),
                operations: Vec::new(),
            },
        };
        assert(r.descriptor@ =~= report_only());
        r
    }
}

impl Default for ReportOnlyBackend {
    fn default() -> (r: ReportOnlyBackend)
        ensures
            r.described() == report_only(),
    {
        ReportOnlyBackend::new()
    }
}

impl MutationBackend for ReportOnlyBackend {
    closed spec fn described(&self) -> BackendView {
        self.descriptor@
    }

    open spec fn conduct(&self) -> Conduct {
        report_only_conduct()
    }

    open spec fn may_detect(
        &self,
        told: Set<Result<Timestamp, ErrorView>>,
        reply: Result<CapabilityInventory, ErrorView>,
    ) -> bool {
        capability::dated(Seq::empty(), told, reply)
    }

    open spec fn may_snapshot(
        &self,
        mutation: MutationView,
        now: Timestamp,
        reply: Result<SnapshotView, ErrorView>,
    ) -> bool {
        reply == Err::<SnapshotView, ErrorView>(deferred())
    }

    open spec fn may_apply(
        &self,
        after: Shown,
        mutation: MutationView,
        snapshot: SnapshotView,
        reply: Result<ApplyReceipt, ErrorView>,
    ) -> bool {
        after == self.shown() && reply == Err::<ApplyReceipt, ErrorView>(deferred())
    }

    open spec fn may_verify(
        &self,
        mutation: MutationView,
        expected: StateFingerprint,
        identity: TargetIdentity,
        reply: Result<StateFingerprint, ErrorView>,
    ) -> bool {
        reply == Err::<StateFingerprint, ErrorView>(deferred())
    }

    open spec fn may_restore(
        &self,
        after: Shown,
        mutation: MutationView,
        snapshot: SnapshotView,
        ownership: StateFingerprint,
        reply: Result<RestoreReceipt, ErrorView>,
    ) -> bool {
        after == self.shown() && reply == Err::<RestoreReceipt, ErrorView>(deferred())
    }

    fn descriptor(&self) -> (r: &BackendDescriptor) {
        &self.descriptor
    }

    fn detect(&self, clock: &dyn Clock) -> (r: Result<CapabilityInventory, SysboostError>)
        ensures
            capability::dated(Seq::empty(), clock::times(clock), crate::error::plain(r)),
    {
        let told = clock.now();
        proof {
            clock::lemma_times(clock);
        }
        assert(clock::times(clock).contains(crate::error::plain(told)));
        match told {
            Ok(observed_at) => {
                let capabilities = Vec::new();
                assert(capability::capabilities_view(capabilities@) =~= Seq::empty());
                Ok(CapabilityInventory { observed_at, capabilities })
            },
            Err(e) => Err(e),
        }
    }

    fn snapshot(
        &self,
        execution: &BackendExecutionToken,
        mutation: &PlannedMutation,
        now: Timestamp,
    ) -> (r: Result<Snapshot, SysboostError>)
        ensures
            r is Err,
            r->Err_0@ == deferred(),
    {
        Err(unsupported())
    }

    fn apply(
        &mut self,
        execution: &BackendExecutionToken,
        mutation: &PlannedMutation,
        snapshot: &Snapshot,
    ) -> (r: Result<ApplyReceipt, SysboostError>)
        ensures
            r is Err,
            r->Err_0@ == deferred(),
            *final(self) == *old(self),
    {
        Err(unsupported())
    }

    fn verify(
        &self,
        execution: &BackendExecutionToken,
        mutation: &PlannedMutation,
        expected: StateFingerprint,
        expected_target_identity: TargetIdentity,
    ) -> (r: Result<StateFingerprint, SysboostError>)
        ensures
            r is Err,
            r->Err_0@ == deferred(),
    {
        Err(unsupported())
    }

    fn restore(
        &mut self,
        execution: &BackendExecutionToken,
        mutation: &PlannedMutation,
        snapshot: &Snapshot,
        expected_ownership: StateFingerprint,
    ) -> (r: Result<RestoreReceipt, SysboostError>)
        ensures
            r is Err,
            r->Err_0@ == deferred(),
            *final(self) == *old(self),
    {
        Err(unsupported())
    }
}

} // verus!
