//! The boundary between a controller and the privileged helper.
//!
//! A peer names plans by identity and digest and sessions by identity. Who the
//! peer is, the transport says; no frame can.

use vstd::prelude::*;

use crate::backend::MutationBackend;
use crate::clock::Clock;
use crate::error::{ErrorCode, ErrorView, Retryability, Stage, SysboostError};
use crate::ids::{MutationId, PlanId, SessionId, TargetIdentity};
use crate::mutation;
use crate::mutation::{ItemView, Plan, PlanAction, PlanDataView, PlanItem};
use crate::process;
use crate::process::ProcessIdentity;
use crate::protocol::{Request, RequestId, RequestView, Response, ResponseView, WireCodec};
use crate::schedule;
use crate::schedule::{Call, RecoverEnd};
use crate::session::{OperationView, RecordView, SessionRecord, SessionState};
use crate::state::{ExclusiveSessionLock, SessionIdSource, SessionStateStore};
use crate::transaction;
use crate::transaction::{Event, TransactionEngine};

verus! {

/// A session with the plan and the owner that it is bound to.
#[derive(Clone, Copy, Debug, PartialEq, Eq)]
pub struct SessionHandle {
    pub session_id: SessionId,
    pub plan_id: PlanId,
    pub plan_digest: [u8; 32],
    pub owner: ProcessIdentity,
}

impl SessionHandle {
    pub fn same(&self, other: &SessionHandle) -> (r: bool)
        ensures
            r == (*self == *other),
    {
        let r = self.session_id.same(&other.session_id) && self.plan_id.same(&other.plan_id)
            && mutation::same_digest(&self.plan_digest, &other.plan_digest) && process::identical(
            &self.owner,
            &other.owner,
        );
        if r {
            assert(self.plan_digest =~= other.plan_digest);
        }
        r
    }
}

/// What a controller asks of the helper. Nothing takes a path, a command or a raw
/// value.
pub trait PrivilegeBroker {
    /// Whether the helper did nothing so far that was not permitted.
    spec fn sound(&self) -> bool;

    /// Validates a plan, reads its targets and makes the intent durable.
    fn prepare(&mut self, plan: &Plan) -> (r: Result<SessionHandle, SysboostError>)
        requires
            old(self).sound(),
        ensures
            final(self).sound(),
    ;

    /// Applies a prepared session.
    fn apply(&mut self, session: SessionHandle) -> (r: Result<SessionState, SysboostError>)
        requires
            old(self).sound(),
        ensures
            final(self).sound(),
    ;

    /// Restores a session.
    fn restore(&mut self, session: SessionHandle) -> (r: Result<SessionState, SysboostError>)
        requires
            old(self).sound(),
        ensures
            final(self).sound(),
    ;

    /// Where a session stands.
    fn status(&self, session: SessionHandle) -> (r: Result<SessionState, SysboostError>)
        requires
            self.sound(),
    ;
}

pub open spec fn boundary(code: ErrorCode, message: Seq<char>) -> ErrorView {
    crate::error::staged(code, message, Stage::Transport)
}

fn boundary_error(code: ErrorCode, message: &str) -> (r: SysboostError)
    ensures
        r@ == boundary(code, message@),
{
    SysboostError::new(code, message).with_stage(Stage::Transport)
}

pub open spec fn plans_view(plans: Seq<Plan>) -> Seq<PlanDataView> {
    plans.map_values(|plan: Plan| plan@)
}

/// The plan that an identity is bound to.
pub open spec fn bound_plan(plans: Seq<PlanDataView>, id: PlanId) -> Option<PlanDataView>
    decreases plans.len(),
{
    if plans.len() == 0 {
        None
    } else if plans.last().id == id {
        Some(plans.last())
    } else {
        bound_plan(plans.drop_last(), id)
    }
}

/// Why a plan is not approved.
pub open spec fn approval_refusal(plans: Seq<PlanDataView>, plan: PlanDataView) -> Option<ErrorView> {
    if mutation::repeated_mutation(plan.mutations) {
        Some(mutation::incomplete_plan())
    } else if bound_plan(plans, plan.id) is Some && bound_plan(plans, plan.id) != Some(plan) {
        Some(
            boundary(
                ErrorCode::AuthorizationError,
                "plan identity is already bound to different content"@,
            ),
        )
    } else {
        None
    }
}

/// The plans that a peer may ask for.
#[derive(Debug)]
pub struct ApprovedPlanCatalog {
    plans: Vec<Plan>,
}

impl View for ApprovedPlanCatalog {
    type V = Seq<PlanDataView>;

    closed spec fn view(&self) -> Seq<PlanDataView> {
        plans_view(self.plans@)
    }
}

impl ApprovedPlanCatalog {
    /// A catalog without plans.
    pub fn new() -> (r: ApprovedPlanCatalog)
        ensures
            r@ == Seq::<PlanDataView>::empty(),
    {
        let r = ApprovedPlanCatalog { plans: Vec::new() };
        assert(r@ =~= Seq::<PlanDataView>::empty());
        r
    }

    fn find(&self, id: &PlanId) -> (r: Option<&Plan>)
        ensures
            match r {
                Some(plan) => bound_plan(self@, *id) == Some(plan@),
                None => bound_plan(self@, *id) is None,
            },
    {
        let ghost all = self@;
        let mut i: usize = self.plans.len();
        assert(all.take(all.len() as int) =~= all);
        while i > 0
            invariant
                i <= self.plans@.len(),
                all == self@,
                all.len() == self.plans@.len(),
                bound_plan(all, *id) == bound_plan(all.take(i as int), *id),
            decreases i,
        {
            i = i - 1;
            assert(all.take(i + 1).drop_last() =~= all.take(i as int));
            assert(all.take(i + 1).last() == self.plans@[i as int]@);
            if self.plans[i].id.same(id) {
                return Some(&self.plans[i]);
            }
        }
        None
    }

    /// Approves a plan. Approving the same plan again changes nothing; an
    /// identity is never bound to other content.
    pub fn register(&mut self, plan: Plan) -> (r: Result<(), SysboostError>)
        ensures
            match r {
                Ok(_) => {
                    &&& approval_refusal(old(self)@, plan@) is None
                    &&& bound_plan(final(self)@, plan@.id) == Some(plan@)
                },
                Err(e) => approval_refusal(old(self)@, plan@) == Some(e@) && final(self)@
                    == old(self)@,
            },
            forall|id: PlanId|
                id != plan@.id ==> #[trigger] bound_plan(final(self)@, id) == bound_plan(
                    old(self)@,
                    id,
                ),
            forall|id: PlanId|
                bound_plan(old(self)@, id) is Some ==> #[trigger] bound_plan(final(self)@, id)
                    == bound_plan(old(self)@, id),
    {
        match plan.validate_complete() {
            Ok(_) => {},
            Err(e) => {
                return Err(e);
            },
        }
        if let Some(existing) = self.find(&plan.id) {
            if existing.same(&plan) {
                return Ok(());
            }
            return Err(
                boundary_error(
                    ErrorCode::AuthorizationError,
                    "plan identity is already bound to different content",
                ),
            );
        }
        let ghost added = plan@;
        self.plans.push(plan);
        proof {
            assert(self@ =~= old(self)@.push(added));
            assert(self@.drop_last() =~= old(self)@);
            assert(self@.last() == added);
        }
        Ok(())
    }

    /// The plan of an identity, if its digest is the given one.
    pub fn get(&self, plan_id: PlanId, plan_digest: [u8; 32]) -> (r: Option<&Plan>)
        ensures
            match r {
                Some(plan) => approved(self@, plan_id, plan_digest@) == Some(plan@),
                None => approved(self@, plan_id, plan_digest@) is None,
            },
    {
        match self.find(&plan_id) {
            Some(plan) => if mutation::same_digest(&plan.plan_digest, &plan_digest) {
                Some(plan)
            } else {
                None
            },
            None => None,
        }
    }
}

impl Default for ApprovedPlanCatalog {
    fn default() -> (r: ApprovedPlanCatalog)
        ensures
            r@ == Seq::<PlanDataView>::empty(),
    {
        ApprovedPlanCatalog::new()
    }
}

/// The plan of an identity, if its digest is the given one.
pub open spec fn approved(plans: Seq<PlanDataView>, id: PlanId, digest: Seq<u8>) -> Option<
    PlanDataView,
> {
    match bound_plan(plans, id) {
        Some(plan) => if plan.plan_digest == digest {
            Some(plan)
        } else {
            None
        },
        None => None,
    }
}

/// Whether a decision of a plan is about a change.
pub open spec fn is_about(item: ItemView, id: MutationId) -> bool {
    item.action == PlanAction::Mutation && item.mutation is Some && item.mutation->0.mutation_id
        == id
}

/// The first decision of a plan about a change.
pub open spec fn item_for(items: Seq<ItemView>, id: MutationId) -> Option<ItemView>
    decreases items.len(),
{
    if items.len() == 0 {
        None
    } else {
        match item_for(items.drop_last(), id) {
            Some(item) => Some(item),
            None => if is_about(items.last(), id) {
                Some(items.last())
            } else {
                None
            },
        }
    }
}

proof fn lemma_item_for(items: Seq<ItemView>, id: MutationId, k: int)
    requires
        0 <= k <= items.len(),
        item_for(items.take(k), id) is Some,
    ensures
        item_for(items, id) == item_for(items.take(k), id),
    decreases items.len(),
{
    if k < items.len() {
        assert(items.drop_last().take(k) =~= items.take(k));
        lemma_item_for(items.drop_last(), id, k);
    } else {
        assert(items.take(k) =~= items);
    }
}

fn find_item(plan: &Plan, id: MutationId) -> (r: Option<&PlanItem>)
    ensures
        match r {
            Some(item) => item_for(plan@.items, id) == Some(item@),
            None => item_for(plan@.items, id) is None,
        },
{
    let ghost all = plan@.items;
    let mut i: usize = 0;
    while i < plan.items.len()
        invariant
            i <= plan.items@.len(),
            all == plan@.items,
            all.len() == plan.items@.len(),
            item_for(all.take(i as int), id) is None,
        decreases plan.items@.len() - i,
    {
        let item = &plan.items[i];
        assert(all[i as int] == item@);
        assert(all.take(i + 1).drop_last() =~= all.take(i as int));
        assert(all.take(i + 1).last() == all[i as int]);
        let about = match &item.mutation {
            Some(candidate) => candidate.mutation_id == id,
            None => false,
        };
        if item.action == PlanAction::Mutation && about {
            proof {
                lemma_item_for(all, id, i + 1);
            }
            return Some(item);
        }
        i = i + 1;
    }
    assert(all.take(i as int) =~= all);
    None
}

/// The target of an approved change, or why it may not be made. Whether the
/// backend that the plan names is there, the backend says.
pub open spec fn admitted_spec(item: Option<ItemView>, owned: bool) -> Result<
    TargetIdentity,
    ErrorView,
> {
    match item {
        None => Err(
            boundary(
                ErrorCode::PlanningError,
                "executable mutation is absent from the approved plan items"@,
            ),
        ),
        Some(item) => if item.backend is None || !owned {
            Err(
                boundary(
                    ErrorCode::AuthorizationError,
                    "operation/backend ownership does not match the approved plan"@,
                ),
            )
        } else {
            match item.target_identity {
                Some(identity) => Ok(identity),
                None => Err(
                    boundary(
                        ErrorCode::TargetError,
                        "approved mutation has no stable target identity"@,
                    ),
                ),
            }
        },
    }
}

/// The target of an approved change, or why it may not be made.
pub fn admitted_target(item: Option<&PlanItem>, owned: bool) -> (r: Result<
    TargetIdentity,
    SysboostError,
>)
    ensures
        crate::error::plain(r) == admitted_spec(
            match item {
                Some(item) => Some(item@),
                None => None,
            },
            owned,
        ),
{
    match item {
        None => Err(
            boundary_error(
                ErrorCode::PlanningError,
                "executable mutation is absent from the approved plan items",
            ),
        ),
        Some(item) => {
            if item.backend.is_none() || !owned {
                return Err(
                    boundary_error(
                        ErrorCode::AuthorizationError,
                        "operation/backend ownership does not match the approved plan",
                    ),
                );
            }
            match item.target_identity {
                Some(identity) => Ok(identity),
                None => Err(
                    boundary_error(
                        ErrorCode::TargetError,
                        "approved mutation has no stable target identity",
                    ),
                ),
            }
        },
    }
}

/// Whether every change of a plan has a decision with a backend and a target.
pub open spec fn all_bound(plan: PlanDataView) -> bool {
    forall|i: int|
        0 <= i < plan.mutations.len() ==> admitted_spec(
            item_for(plan.items, (#[trigger] plan.mutations[i]).mutation_id),
            true,
        ) is Ok
}

/// What is wrong with the target that a snapshot was taken of.
pub open spec fn identity_fault(operation: OperationView, items: Seq<ItemView>) -> Option<ErrorView> {
    match operation.snapshot {
        None => Some(
            boundary(
                ErrorCode::SnapshotError,
                "durable intent operation has no complete snapshot"@,
            ),
        ),
        Some(snapshot) => {
            let item = item_for(items, operation.mutation.mutation_id);
            if item is Some && item->0.target_identity == Some(snapshot.target_identity) {
                None
            } else {
                Some(
                    boundary(
                        ErrorCode::TargetError,
                        "snapshot target identity does not match the approved target"@,
                    ),
                )
            }
        },
    }
}

/// What is wrong with the first target that is not the approved one.
pub open spec fn first_identity_fault(operations: Seq<OperationView>, items: Seq<ItemView>)
    -> Option<ErrorView>
    decreases operations.len(),
{
    if operations.len() == 0 {
        None
    } else {
        match first_identity_fault(operations.drop_last(), items) {
            Some(fault) => Some(fault),
            None => identity_fault(operations.last(), items),
        }
    }
}

proof fn lemma_first_fault(operations: Seq<OperationView>, items: Seq<ItemView>, k: int)
    requires
        0 <= k <= operations.len(),
        first_identity_fault(operations.take(k), items) is Some,
    ensures
        first_identity_fault(operations, items) == first_identity_fault(operations.take(k), items),
    decreases operations.len(),
{
    if k < operations.len() {
        assert(operations.drop_last().take(k) =~= operations.take(k));
        lemma_first_fault(operations.drop_last(), items, k);
    } else {
        assert(operations.take(k) =~= operations);
    }
}

/// Whether the snapshots of a durable intent are of the approved targets.
pub fn check_identities(record: &SessionRecord, plan: &Plan) -> (r: Result<(), SysboostError>)
    ensures
        match r {
            Ok(_) => first_identity_fault(record@.operations, plan@.items) is None,
            Err(e) => first_identity_fault(record@.operations, plan@.items) == Some(e@),
        },
{
    let ghost all = record@.operations;
    let mut i: usize = 0;
    while i < record.operations.len()
        invariant
            i <= record.operations@.len(),
            all == record@.operations,
            all.len() == record.operations@.len(),
            first_identity_fault(all.take(i as int), plan@.items) is None,
        decreases record.operations@.len() - i,
    {
        let operation = &record.operations[i];
        assert(all[i as int] == operation@);
        assert(all.take(i + 1).drop_last() =~= all.take(i as int));
        assert(all.take(i + 1).last() == all[i as int]);
        let expected = match find_item(plan, operation.mutation.mutation_id) {
            Some(item) => item.target_identity,
            None => None,
        };
        let snapshot = match &operation.snapshot {
            Some(snapshot) => snapshot,
            None => {
                proof {
                    lemma_first_fault(all, plan@.items, i + 1);
                }
                return Err(
                    boundary_error(
                        ErrorCode::SnapshotError,
                        "durable intent operation has no complete snapshot",
                    ),
                );
            },
        };
        let matches = match expected {
            Some(identity) => identity.same(&snapshot.target_identity),
            None => false,
        };
        if !matches {
            proof {
                lemma_first_fault(all, plan@.items, i + 1);
            }
            return Err(
                boundary_error(
                    ErrorCode::TargetError,
                    "snapshot target identity does not match the approved target",
                ),
            );
        }
        i = i + 1;
    }
    assert(all.take(i as int) =~= all);
    Ok(())
}

/// The handle that a session is bound to.
pub open spec fn handle_of(bindings: Seq<SessionHandle>, id: SessionId) -> Option<SessionHandle>
    decreases bindings.len(),
{
    if bindings.len() == 0 {
        None
    } else if bindings.last().session_id == id {
        Some(bindings.last())
    } else {
        handle_of(bindings.drop_last(), id)
    }
}

fn find_handle(bindings: &Vec<SessionHandle>, id: &SessionId) -> (r: Option<SessionHandle>)
    ensures
        r == handle_of(bindings@, *id),
{
    let ghost all = bindings@;
    let mut i: usize = bindings.len();
    assert(all.take(all.len() as int) =~= all);
    while i > 0
        invariant
            i <= bindings@.len(),
            all == bindings@,
            handle_of(all, *id) == handle_of(all.take(i as int), *id),
        decreases i,
    {
        i = i - 1;
        assert(all.take(i + 1).drop_last() =~= all.take(i as int));
        assert(all.take(i + 1).last() == all[i as int]);
        if bindings[i].session_id.same(id) {
            return Some(bindings[i]);
        }
    }
    None
}

/// Why a peer may not work with a session that it names.
pub open spec fn lookup_refusal(
    bindings: Seq<SessionHandle>,
    peer: ProcessIdentity,
    session_id: SessionId,
) -> Option<ErrorView> {
    match handle_of(bindings, session_id) {
        None => Some(
            boundary(
                ErrorCode::AuthorizationError,
                "session is not known to this helper lifecycle"@,
            ),
        ),
        Some(handle) => if process::same_process(peer, handle.owner) {
            None
        } else {
            Some(
                boundary(
                    ErrorCode::AuthorizationError,
                    "session handle identity, owner, or plan binding is invalid"@,
                ),
            )
        },
    }
}

/// Why a peer may not work with a handle that it presents.
pub open spec fn handle_refusal(
    bindings: Seq<SessionHandle>,
    peer: ProcessIdentity,
    handle: SessionHandle,
) -> Option<ErrorView> {
    match handle_of(bindings, handle.session_id) {
        None => Some(
            boundary(
                ErrorCode::AuthorizationError,
                "session handle is not known to this helper lifecycle"@,
            ),
        ),
        Some(known) => if known == handle && process::same_process(peer, handle.owner) {
            None
        } else {
            Some(
                boundary(
                    ErrorCode::AuthorizationError,
                    "session handle identity, owner, or plan binding is invalid"@,
                ),
            )
        },
    }
}

/// Why a peer with a handle is refused.
pub open spec fn presented_refusal(
    expected: ProcessIdentity,
    bindings: Seq<SessionHandle>,
    peer: ProcessIdentity,
    handle: SessionHandle,
) -> Option<ErrorView> {
    if process::same_process(peer, expected) {
        handle_refusal(bindings, peer, handle)
    } else {
        Some(unauthorized_peer())
    }
}

/// A handle is honoured only as it was given out, and only for the process that
/// it was given to.
pub proof fn handles_cannot_be_made_up(
    bindings: Seq<SessionHandle>,
    peer: ProcessIdentity,
    handle: SessionHandle,
)
    requires
        handle_refusal(bindings, peer, handle) is None,
    ensures
        bindings.contains(handle),
        process::same_process(peer, handle.owner),
    decreases bindings.len(),
{
    if bindings.last() == handle {
        assert(bindings[bindings.len() - 1] == handle);
    } else {
        handles_cannot_be_made_up(bindings.drop_last(), peer, handle);
        let k = bindings.drop_last().index_of(handle);
        assert(bindings[k] == handle);
    }
}

pub open spec fn unauthorized_peer() -> ErrorView {
    boundary(
        ErrorCode::AuthorizationError,
        "local peer identity is not authorized for this helper session"@,
    )
}

pub open spec fn replayed() -> ErrorView {
    boundary(ErrorCode::TransportError, "duplicate or replayed request ID"@)
}

/// Why a frame is not even dispatched.
pub open spec fn frame_refusal(
    expected: ProcessIdentity,
    last_request: Option<u64>,
    peer: Option<ProcessIdentity>,
    frame: Seq<u8>,
) -> Option<ErrorView> {
    match Request::message_of(frame) {
        Err(e) => Some(e),
        Ok(request) => match peer {
            None => Some(
                boundary(
                    ErrorCode::AuthorizationError,
                    "authenticated local peer credentials are required"@,
                ),
            ),
            Some(peer) => if !process::same_process(peer, expected) {
                Some(unauthorized_peer())
            } else if last_request is Some && request.id() <= last_request->0 {
                Some(replayed())
            } else {
                None
            },
        },
    }
}

/// A request that was accepted once is never accepted again, nor is any earlier
/// one.
pub proof fn requests_are_not_replayed(
    expected: ProcessIdentity,
    last_request: Option<u64>,
    first: Seq<u8>,
    second: Seq<u8>,
    peer: Option<ProcessIdentity>,
)
    requires
        frame_refusal(expected, last_request, peer, first) is None,
        Request::message_of(second) is Ok,
        Request::message_of(second)->Ok_0.id() <= Request::message_of(first)->Ok_0.id(),
    ensures
        frame_refusal(
            expected,
            Some(Request::message_of(first)->Ok_0.id()),
            peer,
            second,
        ) is Some,
{
}

/// Whether a response answers a request.
pub open spec fn answers(request: RequestView, response: ResponseView) -> bool {
    match response {
        ResponseView::Rejected { request_id, .. } => request_id == request.id(),
        ResponseView::Accepted { request_id, .. } => match request {
            RequestView::Prepare { request_id: asked, .. } => request_id == asked,
            _ => false,
        },
        ResponseView::Status { request_id, session_id, .. } => match request {
            RequestView::Prepare { .. } => false,
            RequestView::Apply { request_id: asked, session_id: about } => request_id == asked
                && session_id == about,
            RequestView::Restore { request_id: asked, session_id: about } => request_id == asked
                && session_id == about,
            RequestView::Status { request_id: asked, session_id: about } => request_id == asked
                && session_id == about,
        },
    }
}

pub open spec fn unapproved() -> ErrorView {
    boundary(
        ErrorCode::AuthorizationError,
        "requested plan identity or digest is not approved"@,
    )
}

/// The response that says where a session stands.
pub open spec fn status_reply(
    request_id: u64,
    session_id: SessionId,
    r: Result<SessionState, ErrorView>,
) -> Result<ResponseView, ErrorView> {
    match r {
        Ok(state) => Ok(
            ResponseView::Status { request_id, session_id: session_id.bytes@, state },
        ),
        Err(e) => Err(e),
    }
}

/// What is observable of a helper: the calls of its coordinator, the session that
/// the lock is held for, and the sessions that it gave out.
#[verifier::ext_equal]
pub struct HelperView {
    pub history: Seq<Event>,
    pub active: Option<SessionId>,
    pub bindings: Seq<SessionHandle>,
}

/// What comes of asking whether a plan may be carried out.
#[verifier::ext_equal]
pub struct AdmissionEnd {
    pub at: int,
    pub fits: bool,
    pub result: Result<(), ErrorView>,
}

/// The changes of a plan from a position on are admitted, up to the first that is
/// refused: each must be bound to a backend that goes by the name in the plan, and
/// that backend must know the target.
pub open spec fn admission_run(plan: PlanDataView, i: int, events: Seq<Event>, at: int) -> AdmissionEnd
    decreases plan.mutations.len() - i,
{
    if i >= plan.mutations.len() {
        AdmissionEnd { at, fits: true, result: Ok(()) }
    } else {
        let mutation = plan.mutations[i];
        let item = item_for(plan.items, mutation.mutation_id);
        let named = item is Some && (item->0).backend is Some;
        let fits = named ==> schedule::asked(
            events,
            at,
            Call::Owns { backend: (item->0).backend->0 },
        );
        let owned = named && events[at]->Owns_reply;
        let next = if named {
            at + 1
        } else {
            at
        };
        match admitted_spec(item, owned) {
            Err(error) => AdmissionEnd { at: next, fits, result: Err(error) },
            Ok(identity) => {
                let asked = fits && schedule::asked(
                    events,
                    next,
                    Call::Admit { mutation, identity },
                );
                match events[next]->Admit_reply {
                    Err(error) => AdmissionEnd { at: next + 1, fits: asked, result: Err(error) },
                    Ok(_) => {
                        let end = admission_run(plan, i + 1, events, next + 1);
                        AdmissionEnd { fits: asked && end.fits, ..end }
                    },
                }
            },
        }
    }
}

/// Why a plan is refused before any backend is asked.
pub open spec fn executor_refusal(plan: PlanDataView) -> Option<ErrorView> {
    if mutation::repeated_mutation(plan.mutations) {
        Some(mutation::incomplete_plan())
    } else if plan.mutations.len() == 0 {
        Some(
            boundary(
                ErrorCode::AuthorizationError,
                "report-only or empty plans cannot enter the privileged executor"@,
            ),
        )
    } else {
        None
    }
}

/// What comes of preparing a plan for a peer.
#[verifier::ext_equal]
pub struct BoundEnd {
    pub at: int,
    pub fits: bool,
    pub result: Result<SessionId, ErrorView>,
    pub holds: Option<SessionId>,
}

/// The snapshots of a session that was just prepared are held against the approved
/// targets. Where they differ the session is dropped again.
pub open spec fn binding_run(
    plan: PlanDataView,
    session_id: SessionId,
    events: Seq<Event>,
    at: int,
) -> BoundEnd {
    let loaded = schedule::asked(events, at, Call::Load { session_id });
    let fault = match events[at]->Load_reply {
        Err(error) => Some(error),
        Ok(record) => first_identity_fault(record.operations, plan.items),
    };
    match fault {
        None => BoundEnd {
            at: at + 1,
            fits: loaded,
            result: Ok(session_id),
            holds: Some(session_id),
        },
        Some(error) => {
            let end = schedule::abort_request(session_id, Some(session_id), events, at + 1);
            BoundEnd {
                at: end.at,
                fits: loaded && end.fits,
                result: match end.result {
                    Ok(_) => Err(error),
                    Err(failure) => Err(failure),
                },
                holds: end.holds,
            }
        },
    }
}

/// An approved plan is admitted, prepared and bound to its targets.
pub open spec fn bound_run(
    plan: Option<PlanDataView>,
    held: Option<SessionId>,
    events: Seq<Event>,
    at: int,
) -> BoundEnd {
    match plan {
        None => BoundEnd { at, fits: true, result: Err(unapproved()), holds: held },
        Some(plan) => match executor_refusal(plan) {
            Some(refusal) => BoundEnd { at, fits: true, result: Err(refusal), holds: held },
            None => {
                let admitted = admission_run(plan, 0, events, at);
                match admitted.result {
                    Err(error) => BoundEnd {
                        at: admitted.at,
                        fits: admitted.fits,
                        result: Err(error),
                        holds: held,
                    },
                    Ok(_) => {
                        let prepared = schedule::prepare_run(plan, held, events, admitted.at);
                        let fits = admitted.fits && prepared.fits;
                        match prepared.result {
                            Err(error) => BoundEnd {
                                at: prepared.at,
                                fits,
                                result: Err(error),
                                holds: held,
                            },
                            Ok(session_id) => {
                                let end = binding_run(plan, session_id, events, prepared.at);
                                BoundEnd { fits: fits && end.fits, ..end }
                            },
                        }
                    },
                }
            },
        },
    }
}

/// What preparing an approved plan for a peer does. No target is changed; on
/// success the session is bound to the plan and to the peer.
pub open spec fn prepared_for(
    before: HelperView,
    after: HelperView,
    peer: ProcessIdentity,
    plan: Option<PlanDataView>,
    plan_id: PlanId,
    plan_digest: [u8; 32],
    r: Result<SessionHandle, ErrorView>,
) -> bool {
    &&& transaction::untouched(before.history, after.history)
    &&& bound_run(plan, before.active, after.history, before.history.len() as int) == (BoundEnd {
        at: after.history.len() as int,
        fits: true,
        result: match r {
            Ok(handle) => Ok(handle.session_id),
            Err(e) => Err(e),
        },
        holds: after.active,
    })
    &&& match r {
        Ok(handle) => {
            &&& handle == (SessionHandle {
                session_id: handle.session_id,
                plan_id,
                plan_digest,
                owner: peer,
            })
            &&& after.bindings == before.bindings.push(handle)
        },
        Err(_) => after.bindings == before.bindings,
    }
}

/// What happens to a request from the right peer that was not seen before.
///
/// A plan must be approved and a session must be the peer's own, or nothing is
/// done. Otherwise the coordinator decides.
pub open spec fn dispatched(
    before: HelperView,
    after: HelperView,
    plans: Seq<PlanDataView>,
    peer: ProcessIdentity,
    request: Request,
    r: Result<ResponseView, ErrorView>,
) -> bool {
    match request {
        Request::Prepare { request_id, plan_id, plan_digest } => exists|
            made: Result<SessionHandle, ErrorView>,
        |
            {
                &&& #[trigger] prepared_for(
                    before,
                    after,
                    peer,
                    approved(plans, plan_id, plan_digest@),
                    plan_id,
                    plan_digest,
                    made,
                )
                &&& r == match made {
                    Ok(handle) => Ok(
                        ResponseView::Accepted {
                            request_id: request_id@,
                            session_id: handle.session_id.bytes@,
                        },
                    ),
                    Err(e) => Err(e),
                }
            },
        Request::Apply { request_id, session_id } => {
            &&& after.bindings == before.bindings
            &&& match lookup_refusal(before.bindings, peer, session_id) {
                Some(refusal) => r == Err::<ResponseView, ErrorView>(refusal) && after == before,
                None => exists|state: Result<SessionState, ErrorView>|
                    r == #[trigger] status_reply(request_id@, session_id, state)
                        && transaction::apply_outcome(
                        before.history,
                        before.active,
                        after.history,
                        after.active,
                        session_id,
                        state,
                    ),
            }
        },
        Request::Restore { request_id, session_id } => {
            &&& after.bindings == before.bindings
            &&& match lookup_refusal(before.bindings, peer, session_id) {
                Some(refusal) => r == Err::<ResponseView, ErrorView>(refusal) && after == before,
                None => exists|state: Result<SessionState, ErrorView>|
                    r == #[trigger] status_reply(request_id@, session_id, state)
                        && transaction::restore_outcome(
                        before.history,
                        before.active,
                        after.history,
                        after.active,
                        session_id,
                        state,
                    ),
            }
        },
        Request::Status { request_id, session_id } => {
            &&& after.bindings == before.bindings
            &&& after.active == before.active
            &&& match lookup_refusal(before.bindings, peer, session_id) {
                Some(refusal) => r == Err::<ResponseView, ErrorView>(refusal) && after == before,
                None => exists|reply: Result<RecordView, ErrorView>|
                    after.history == before.history.push(#[trigger] loaded(session_id, reply))
                        && r == status_reply(
                        request_id@,
                        session_id,
                        standing(session_id, reply),
                    ),
            }
        },
    }
}

/// The question for a record, with its answer.
pub open spec fn loaded(session_id: SessionId, reply: Result<RecordView, ErrorView>) -> Event {
    Event::Load { session_id, reply }
}

/// Where a session stands, by the answer to the question for its record.
pub open spec fn standing(session_id: SessionId, reply: Result<RecordView, ErrorView>) -> Result<
    SessionState,
    ErrorView,
> {
    match reply {
        Ok(record) => Ok(record.state),
        Err(error) => Err(
            transaction::in_context(error, Stage::Recovery, Some(session_id), None),
        ),
    }
}

/// The response to a request, where an error is a rejection.
pub open spec fn response_to(request_id: u64, r: Result<ResponseView, ErrorView>) -> ResponseView {
    match r {
        Ok(response) => response,
        Err(e) => ResponseView::Rejected { request_id, code: e.code },
    }
}

/// What a helper starts from: all unfinished sessions were recovered, or it does
/// not start.
pub open spec fn recovered(
    before: Seq<Event>,
    after: Seq<Event>,
    end: RecoverEnd,
    r: Result<Seq<Event>, ErrorView>,
) -> bool {
    &&& transaction::extends(before, after)
    &&& end.fits
    &&& end.at == after.len()
    &&& match (r, end.result) {
        (Ok(history), Ok(_)) => history == after,
        (Err(e), Err(failure)) => e == (ErrorView {
            stage: Some(Stage::Recovery),
            retryability: Retryability::AfterRecovery,
            ..failure
        }),
        _ => false,
    }
}

/// The helper: it answers one peer, with plans that were approved beforehand.
pub struct PrivilegeService<B, S, L: ExclusiveSessionLock, G, C> {
    engine: TransactionEngine<B, S, L, G, C>,
    expected_peer: ProcessIdentity,
    catalog: ApprovedPlanCatalog,
    sessions: Vec<SessionHandle>,
    last_request: Option<u64>,
}

impl<B, S, L, G, C> PrivilegeService<B, S, L, G, C> where
    B: MutationBackend,
    S: SessionStateStore,
    L: ExclusiveSessionLock,
    G: SessionIdSource,
    C: Clock,
 {
    /// What the coordinator did, the session that it holds the lock for, and the sessions
    /// that the helper gave out. The peer, the approved plans and the last request are
    /// `peer`, `plans` and `last`.
    pub open spec fn observed(&self) -> HelperView {
        HelperView {
            history: self.coordinator().history(),
            active: self.coordinator().active(),
            bindings: self.handles(),
        }
    }

    /// The sessions that the helper gave out.
    pub closed spec fn handles(&self) -> Seq<SessionHandle> {
        self.sessions@
    }

    /// The peer that is answered.
    pub closed spec fn peer(&self) -> ProcessIdentity {
        self.expected_peer
    }

    /// The approved plans.
    pub closed spec fn plans(&self) -> Seq<PlanDataView> {
        self.catalog@
    }

    /// The last request that was accepted.
    pub closed spec fn last(&self) -> Option<u64> {
        self.last_request
    }

    /// The place where records are kept.
    pub closed spec fn store(&self) -> S {
        self.engine.held_store()
    }

    /// The coordinator.
    pub closed spec fn coordinator(&self) -> TransactionEngine<B, S, L, G, C> {
        self.engine
    }

    /// Whether the coordinator did nothing that was not permitted, and every answer of
    /// its history was given by the one who was asked.
    pub open spec fn wf(&self) -> bool {
        self.coordinator().wf()
    }

    /// Whether all that was done since an earlier moment was done by the steps that
    /// the coordinator added.
    pub open spec fn goes_on_from(&self, earlier: &Self) -> bool {
        self.coordinator().goes_on_from(&earlier.coordinator())
    }

    /// A helper for one peer, once all unfinished sessions are restored.
    pub fn new(engine: TransactionEngine<B, S, L, G, C>, expected_peer: ProcessIdentity) -> (r:
        Result<Self, SysboostError>)
        requires
            engine.wf(),
        ensures
            !process::same_process(expected_peer, expected_peer) ==> r is Err && r->Err_0@
                == boundary(
                ErrorCode::AuthorizationError,
                "helper peer policy requires a strong process identity"@,
            ),
            match r {
                Ok(service) => {
                    &&& service.wf()
                    &&& service.coordinator().goes_on_from(&engine)
                    &&& service.peer() == expected_peer
                    &&& service.plans() == Seq::<PlanDataView>::empty()
                    &&& service.last() is None
                    &&& service.observed().bindings == Seq::<SessionHandle>::empty()
                    &&& service.observed().active is None
                    &&& transaction::extends(engine.history(), service.observed().history)
                    &&& transaction::applied(service.observed().history) == transaction::applied(
                        engine.history(),
                    )
                },
                Err(_) => true,
            },
            process::same_process(expected_peer, expected_peer) ==> exists|after: Seq<Event>|
                recovered(
                    engine.history(),
                    after,
                    #[trigger] schedule::recover_request(
                        engine.active(),
                        after,
                        engine.history().len() as int,
                    ),
                    match r {
                        Ok(service) => Ok(service.observed().history),
                        Err(e) => Err(e@),
                    },
                ),
    {
        if !process::is_strong(&expected_peer) {
            return Err(
                boundary_error(
                    ErrorCode::AuthorizationError,
                    "helper peer policy requires a strong process identity",
                ),
            );
        }
        let ghost before = engine.history();
        let ghost held = engine.active();
        let mut engine = engine;
        let statuses = engine.recover_unfinished();
        let ghost end = schedule::recover_request(held, engine.history(), before.len() as int);
        assert(end.fits && end.at == engine.history().len());
        match statuses {
            Ok(_) => {},
            Err(e) => {
                return Err(
                    e.with_stage(Stage::Recovery).retryable(Retryability::AfterRecovery),
                );
            },
        }
        Ok(
            PrivilegeService {
                engine,
                expected_peer,
                catalog: ApprovedPlanCatalog::new(),
                sessions: Vec::new(),
                last_request: None,
            },
        )
    }

    /// Approves a plan. Only the composition around the helper can do this.
    pub fn register_plan(&mut self, plan: Plan) -> (r: Result<(), SysboostError>)
        ensures
            match r {
                Ok(_) => approval_refusal(old(self).plans(), plan@) is None && bound_plan(
                    final(self).plans(),
                    plan@.id,
                ) == Some(plan@),
                Err(e) => approval_refusal(old(self).plans(), plan@) == Some(e@)
                    && final(self).plans() == old(self).plans(),
            },
            forall|id: PlanId|
                bound_plan(old(self).plans(), id) is Some || id != plan@.id
                    ==> #[trigger] bound_plan(final(self).plans(), id) == bound_plan(
                    old(self).plans(),
                    id,
                ),
            final(self).observed() == old(self).observed(),
            final(self).coordinator() == old(self).coordinator(),
            final(self).peer() == old(self).peer(),
            final(self).last() == old(self).last(),
    {
        self.catalog.register(plan)
    }

    fn authenticate_peer(&self, peer: ProcessIdentity) -> (r: Result<(), SysboostError>)
        ensures
            match r {
                Ok(_) => process::same_process(peer, self.peer()),
                Err(e) => !process::same_process(peer, self.peer()) && e@ == unauthorized_peer(),
            },
    {
        if peer.same_generation(self.expected_peer) {
            Ok(())
        } else {
            Err(
                boundary_error(
                    ErrorCode::AuthorizationError,
                    "local peer identity is not authorized for this helper session",
                ),
            )
        }
    }

    fn accept_request_id(&mut self, request_id: RequestId) -> (r: Result<(), SysboostError>)
        ensures
            final(self).observed() == old(self).observed(),
            final(self).coordinator() == old(self).coordinator(),
            final(self).peer() == old(self).peer(),
            final(self).plans() == old(self).plans(),
            if old(self).last() is Some && request_id@ <= old(self).last()->0 {
                r is Err && r->Err_0@ == replayed() && final(self).last() == old(self).last()
            } else {
                r is Ok && final(self).last() == Some(request_id@)
            },
    {
        let value: u64 = request_id.get();
        if let Some(last) = self.last_request {
            if value <= last {
                return Err(
                    boundary_error(ErrorCode::TransportError, "duplicate or replayed request ID"),
                );
            }
        }
        self.last_request = Some(value);
        Ok(())
    }

    fn lookup_session(&self, peer: ProcessIdentity, session_id: SessionId) -> (r: Result<
        (),
        SysboostError,
    >)
        ensures
            match r {
                Ok(_) => lookup_refusal(self.observed().bindings, peer, session_id) is None,
                Err(e) => lookup_refusal(self.observed().bindings, peer, session_id) == Some(e@),
            },
    {
        match find_handle(&self.sessions, &session_id) {
            None => Err(
                boundary_error(
                    ErrorCode::AuthorizationError,
                    "session is not known to this helper lifecycle",
                ),
            ),
            Some(handle) => if peer.same_generation(handle.owner) {
                Ok(())
            } else {
                Err(
                    boundary_error(
                        ErrorCode::AuthorizationError,
                        "session handle identity, owner, or plan binding is invalid",
                    ),
                )
            },
        }
    }

    fn authorize_session(&self, peer: ProcessIdentity, handle: SessionHandle) -> (r: Result<
        (),
        SysboostError,
    >)
        ensures
            match r {
                Ok(_) => handle_refusal(self.observed().bindings, peer, handle) is None,
                Err(e) => handle_refusal(self.observed().bindings, peer, handle) == Some(e@),
            },
    {
        match find_handle(&self.sessions, &handle.session_id) {
            None => Err(
                boundary_error(
                    ErrorCode::AuthorizationError,
                    "session handle is not known to this helper lifecycle",
                ),
            ),
            Some(known) => if known.same(&handle) && peer.same_generation(handle.owner) {
                Ok(())
            } else {
                Err(
                    boundary_error(
                        ErrorCode::AuthorizationError,
                        "session handle identity, owner, or plan binding is invalid",
                    ),
                )
            },
        }
    }

    /// Whether every change of a plan is one that the backends own, on a target
    /// that they found themselves.
    fn validate_plan_admission(&mut self, plan: &Plan) -> (r: Result<(), SysboostError>)
        requires
            old(self).wf(),
        ensures
            final(self).wf(),
            final(self).goes_on_from(old(self)),
            final(self).peer() == old(self).peer(),
            final(self).plans() == old(self).plans(),
            final(self).last() == old(self).last(),
            final(self).observed().bindings == old(self).observed().bindings,
            final(self).observed().active == old(self).observed().active,
            transaction::extends(old(self).observed().history, final(self).observed().history),
            transaction::untouched(old(self).observed().history, final(self).observed().history),
            match executor_refusal(plan@) {
                Some(refusal) => r is Err && r->Err_0@ == refusal && final(self).observed()
                    == old(self).observed(),
                None => forall|all: Seq<Event>| #[trigger]
                    schedule::goes_on(final(self).observed().history, all) ==> admission_run(
                        plan@,
                        0,
                        all,
                        old(self).observed().history.len() as int,
                    ) == (AdmissionEnd {
                        at: final(self).observed().history.len() as int,
                        fits: true,
                        result: crate::error::outcome(r),
                    }),
            },
    {
        match plan.validate_complete() {
            Ok(_) => {},
            Err(e) => {
                return Err(e);
            },
        }
        assert(plan@.mutations.len() == plan.mutations@.len());
        if plan.mutations.len() == 0 {
            return Err(
                boundary_error(
                    ErrorCode::AuthorizationError,
                    "report-only or empty plans cannot enter the privileged executor",
                ),
            );
        }
        let ghost h0 = self.observed().history;
        let n: usize = plan.mutations.len();
        let mut i: usize = 0;
        while i < n
            invariant
                i <= n,
                n == plan.mutations@.len(),
                n == plan@.mutations.len(),
                h0 == old(self).observed().history,
                self.wf(),
                self.goes_on_from(old(self)),
                self.peer() == old(self).peer(),
                self.plans() == old(self).plans(),
                self.last() == old(self).last(),
                self.observed().bindings == old(self).observed().bindings,
                self.observed().active == old(self).observed().active,
                transaction::extends(h0, self.observed().history),
                transaction::untouched(h0, self.observed().history),
                executor_refusal(plan@) is None,
                forall|all: Seq<Event>| #[trigger]
                    schedule::goes_on(self.observed().history, all) ==> admission_run(
                        plan@,
                        0,
                        all,
                        h0.len() as int,
                    ) == admission_run(
                        plan@,
                        i as int,
                        all,
                        self.observed().history.len() as int,
                    ),
            decreases n - i,
        {
            let ghost h = self.observed().history;
            let step = self.admit_one(plan, i);
            proof {
                assert forall|all: Seq<Event>| #[trigger]
                    schedule::goes_on(self.observed().history, all) implies schedule::goes_on(
                    h,
                    all,
                ) by {
                    transaction::lemma_goes_on(h, self.observed().history, all);
                }
            }
            match step {
                Ok(_) => {},
                Err(e) => {
                    return Err(e);
                },
            }
            i = i + 1;
        }
        Ok(())
    }

    /// Whether one change of a plan is one that the backends own.
    fn admit_one(&mut self, plan: &Plan, i: usize) -> (r: Result<(), SysboostError>)
        requires
            old(self).wf(),
            i < plan.mutations@.len(),
        ensures
            final(self).wf(),
            final(self).goes_on_from(old(self)),
            final(self).peer() == old(self).peer(),
            final(self).plans() == old(self).plans(),
            final(self).last() == old(self).last(),
            final(self).observed().bindings == old(self).observed().bindings,
            final(self).observed().active == old(self).observed().active,
            transaction::extends(old(self).observed().history, final(self).observed().history),
            transaction::untouched(old(self).observed().history, final(self).observed().history),
            forall|all: Seq<Event>| #[trigger]
                schedule::goes_on(final(self).observed().history, all) ==> admission_run(
                    plan@,
                    i as int,
                    all,
                    old(self).observed().history.len() as int,
                ) == match r {
                    Ok(_) => admission_run(
                        plan@,
                        i + 1,
                        all,
                        final(self).observed().history.len() as int,
                    ),
                    Err(e) => AdmissionEnd {
                        at: final(self).observed().history.len() as int,
                        fits: true,
                        result: Err(e@),
                    },
                },
    {
        let mutation = &plan.mutations[i];
        assert(plan@.mutations[i as int] == mutation@);
        let item = find_item(plan, mutation.mutation_id);
        let owned = match item {
            Some(item) => match &item.backend {
                Some(backend) => self.engine.goes_by(backend),
                None => false,
            },
            None => false,
        };
        let identity = match admitted_target(item, owned) {
            Ok(identity) => identity,
            Err(e) => {
                return Err(e);
            },
        };
        self.engine.lets_change(mutation, identity)
    }

    #[verifier::rlimit(40)]
    fn prepare_by_identity(
        &mut self,
        peer: ProcessIdentity,
        plan_id: PlanId,
        plan_digest: [u8; 32],
    ) -> (r: Result<SessionHandle, SysboostError>)
        requires
            old(self).wf(),
        ensures
            final(self).wf(),
            final(self).goes_on_from(old(self)),
            final(self).peer() == old(self).peer(),
            final(self).plans() == old(self).plans(),
            final(self).last() == old(self).last(),
            transaction::extends(old(self).observed().history, final(self).observed().history),
            prepared_for(
                old(self).observed(),
                final(self).observed(),
                peer,
                approved(old(self).plans(), plan_id, plan_digest@),
                plan_id,
                plan_digest,
                crate::error::plain(r),
            ),
    {
        let plan = match self.catalog.get(plan_id, plan_digest) {
            Some(plan) => plan.clone(),
            None => {
                return Err(
                    boundary_error(
                        ErrorCode::AuthorizationError,
                        "requested plan identity or digest is not approved",
                    ),
                );
            },
        };
        match self.validate_plan_admission(&plan) {
            Ok(_) => {},
            Err(e) => {
                assert(schedule::goes_on(self.observed().history, self.observed().history));
                return Err(e);
            },
        }
        let ghost admitted = self.observed().history;
        let session_id = match self.engine.prepare_plan(&plan) {
            Ok(session_id) => session_id,
            Err(e) => {
                proof {
                    let now = self.observed().history;
                    assert(schedule::goes_on(now, now));
                    transaction::lemma_goes_on(admitted, now, now);
                }
                return Err(e);
            },
        };
        let ghost prepared = self.observed().history;
        let checked = match self.engine.load(session_id) {
            Ok(record) => check_identities(&record, &plan),
            Err(e) => Err(e),
        };
        if let Err(e) = checked {
            let dropped = self.engine.abort_prepared(session_id);
            proof {
                let now = self.observed().history;
                assert(schedule::goes_on(now, now));
                transaction::lemma_goes_on(prepared, now, now);
                transaction::lemma_goes_on(admitted, now, now);
            }
            match dropped {
                Ok(_) => {
                    return Err(e);
                },
                Err(failure) => {
                    return Err(failure);
                },
            }
        }
        proof {
            let now = self.observed().history;
            assert(schedule::goes_on(now, now));
            transaction::lemma_goes_on(prepared, now, now);
            transaction::lemma_goes_on(admitted, now, now);
        }
        let handle = SessionHandle { session_id, plan_id, plan_digest, owner: peer };
        self.sessions.push(handle);
        Ok(handle)
    }

    fn dispatch(&mut self, peer: ProcessIdentity, request: Request) -> (r: Result<
        Response,
        SysboostError,
    >)
        requires
            old(self).wf(),
        ensures
            final(self).wf(),
            final(self).goes_on_from(old(self)),
            final(self).peer() == old(self).peer(),
            final(self).plans() == old(self).plans(),
            final(self).last() == old(self).last(),
            transaction::extends(old(self).observed().history, final(self).observed().history),
            dispatched(
                old(self).observed(),
                final(self).observed(),
                old(self).plans(),
                peer,
                request,
                crate::error::viewed(r),
            ),
    {
        match request {
            Request::Prepare { request_id, plan_id, plan_digest } => {
                let made = self.prepare_by_identity(peer, plan_id, plan_digest);
                let ghost seen = crate::error::plain(made);
                assert(prepared_for(
                    old(self).observed(),
                    self.observed(),
                    peer,
                    approved(old(self).plans(), plan_id, plan_digest@),
                    plan_id,
                    plan_digest,
                    seen,
                ));
                match made {
                    Ok(handle) => Ok(
                        Response::Accepted { request_id, session_id: handle.session_id },
                    ),
                    Err(e) => Err(e),
                }
            },
            Request::Apply { request_id, session_id } => {
                match self.lookup_session(peer, session_id) {
                    Ok(_) => {},
                    Err(e) => {
                        return Err(e);
                    },
                }
                let state = self.engine.apply(session_id);
                let ghost seen = crate::error::plain(state);
                let r = match state {
                    Ok(state) => Ok(Response::Status { request_id, session_id, state }),
                    Err(e) => Err(e),
                };
                assert(crate::error::viewed(r) == status_reply(request_id@, session_id, seen));
                r
            },
            Request::Restore { request_id, session_id } => {
                match self.lookup_session(peer, session_id) {
                    Ok(_) => {},
                    Err(e) => {
                        return Err(e);
                    },
                }
                let state = self.engine.restore(session_id);
                let ghost seen = crate::error::plain(state);
                let r = match state {
                    Ok(state) => Ok(Response::Status { request_id, session_id, state }),
                    Err(e) => Err(e),
                };
                assert(crate::error::viewed(r) == status_reply(request_id@, session_id, seen));
                r
            },
            Request::Status { request_id, session_id } => {
                match self.lookup_session(peer, session_id) {
                    Ok(_) => {},
                    Err(e) => {
                        return Err(e);
                    },
                }
                let ghost h = self.engine.history();
                let reply = self.engine.load(session_id);
                let ghost seen = crate::error::viewed(reply);
                assert(self.engine.history() == h.push(loaded(session_id, seen)));
                match transaction::status_of(session_id, reply) {
                    Ok(status) => Ok(
                        Response::Status { request_id, session_id, state: status.state },
                    ),
                    Err(e) => Err(e),
                }
            },
        }
    }

    /// Answers one frame of a peer whose credentials the transport vouches for.
    ///
    /// Frames of anyone else, and requests that are not newer than the last one,
    /// are refused before anything is looked at.
    pub fn handle_frame(&mut self, peer: Option<ProcessIdentity>, frame: &[u8]) -> (r: Result<
        Vec<u8>,
        SysboostError,
    >)
        requires
            old(self).wf(),
        ensures
            final(self).wf(),
            final(self).goes_on_from(old(self)),
            final(self).peer() == old(self).peer(),
            final(self).plans() == old(self).plans(),
            match frame_refusal(old(self).peer(), old(self).last(), peer, frame@) {
                Some(refusal) => {
                    &&& r is Err
                    &&& r->Err_0@ == refusal
                    &&& final(self).observed() == old(self).observed()
                    &&& final(self).last() == old(self).last()
                },
                None => {
                    &&& r is Ok
                    &&& final(self).last() == Some(Request::message_of(frame@)->Ok_0.id())
                    &&& transaction::extends(
                        old(self).observed().history,
                        final(self).observed().history,
                    )
                    &&& exists|request: Request, answer: Result<ResponseView, ErrorView>|
                        {
                            &&& Request::message_of(frame@) == Ok::<RequestView, ErrorView>(
                                request@,
                            )
                            &&& #[trigger] dispatched(
                                old(self).observed(),
                                final(self).observed(),
                                old(self).plans(),
                                peer->0,
                                request,
                                answer,
                            )
                            &&& r->Ok_0@ == Response::frame_of(response_to(request@.id(), answer))
                        }
                },
            },
    {
        let request = match Request::decode(frame) {
            Ok(request) => request,
            Err(e) => {
                return Err(e);
            },
        };
        let ghost asked = request;
        let request_id = request.request_id();
        let peer = match peer {
            Some(peer) => peer,
            None => {
                return Err(
                    boundary_error(
                        ErrorCode::AuthorizationError,
                        "authenticated local peer credentials are required",
                    ),
                );
            },
        };
        match self.authenticate_peer(peer) {
            Ok(_) => {},
            Err(e) => {
                return Err(e);
            },
        }
        match self.accept_request_id(request_id) {
            Ok(_) => {},
            Err(e) => {
                return Err(e);
            },
        }
        let made = self.dispatch(peer, request);
        let ghost answer = crate::error::viewed(made);
        assert(dispatched(
            old(self).observed(),
            self.observed(),
            old(self).plans(),
            peer,
            asked,
            answer,
        ));
        let response = match made {
            Ok(response) => response,
            Err(e) => Response::Rejected { request_id, code: e.code },
        };
        assert(response@ == response_to(asked@.id(), answer));
        response.encode()
    }

    /// Approves a plan and prepares it for a peer.
    pub fn prepare_for_peer(&mut self, peer: ProcessIdentity, plan: &Plan) -> (r: Result<
        SessionHandle,
        SysboostError,
    >)
        requires
            old(self).wf(),
        ensures
            final(self).wf(),
            transaction::extends(old(self).observed().history, final(self).observed().history),
            final(self).goes_on_from(old(self)),
            final(self).peer() == old(self).peer(),
            final(self).last() == old(self).last(),
            process::same_process(peer, old(self).peer()) && approval_refusal(
                old(self).plans(),
                plan@,
            ) is None ==> bound_plan(final(self).plans(), plan@.id) == Some(plan@),
            forall|id: PlanId|
                bound_plan(old(self).plans(), id) is Some || id != plan@.id
                    ==> #[trigger] bound_plan(final(self).plans(), id) == bound_plan(
                    old(self).plans(),
                    id,
                ),
            if !process::same_process(peer, old(self).peer()) {
                r is Err && r->Err_0@ == unauthorized_peer() && final(self).observed()
                    == old(self).observed() && final(self).plans() == old(self).plans()
            } else if approval_refusal(old(self).plans(), plan@) is Some {
                r is Err && Some(r->Err_0@) == approval_refusal(old(self).plans(), plan@)
                    && final(self).observed() == old(self).observed() && final(self).plans()
                    == old(self).plans()
            } else {
                prepared_for(
                    old(self).observed(),
                    final(self).observed(),
                    peer,
                    Some(plan@),
                    plan.id,
                    plan.plan_digest,
                    crate::error::plain(r),
                )
            },
    {
        match self.authenticate_peer(peer) {
            Ok(_) => {},
            Err(e) => {
                return Err(e);
            },
        }
        match self.register_plan(plan.clone()) {
            Ok(_) => {},
            Err(e) => {
                return Err(e);
            },
        }
        self.prepare_by_identity(peer, plan.id, plan.plan_digest)
    }

    /// Applies a session for a peer that presents its handle.
    pub fn apply_for_peer(&mut self, peer: ProcessIdentity, handle: SessionHandle) -> (r: Result<
        SessionState,
        SysboostError,
    >)
        requires
            old(self).wf(),
        ensures
            final(self).wf(),
            transaction::extends(old(self).observed().history, final(self).observed().history),
            final(self).goes_on_from(old(self)),
            final(self).peer() == old(self).peer(),
            final(self).plans() == old(self).plans(),
            final(self).last() == old(self).last(),
            final(self).observed().bindings == old(self).observed().bindings,
            match presented_refusal(
                old(self).peer(),
                old(self).observed().bindings,
                peer,
                handle,
            ) {
                Some(refusal) => r is Err && r->Err_0@ == refusal && final(self).observed()
                    == old(self).observed(),
                None => transaction::apply_outcome(
                    old(self).observed().history,
                    old(self).observed().active,
                    final(self).observed().history,
                    final(self).observed().active,
                    handle.session_id,
                    crate::error::plain(r),
                ),
            },
    {
        match self.authenticate_peer(peer) {
            Ok(_) => {},
            Err(e) => {
                return Err(e);
            },
        }
        match self.authorize_session(peer, handle) {
            Ok(_) => {},
            Err(e) => {
                return Err(e);
            },
        }
        self.engine.apply(handle.session_id)
    }

    /// Restores a session for a peer that presents its handle.
    pub fn restore_for_peer(&mut self, peer: ProcessIdentity, handle: SessionHandle) -> (r: Result<
        SessionState,
        SysboostError,
    >)
        requires
            old(self).wf(),
        ensures
            final(self).wf(),
            transaction::extends(old(self).observed().history, final(self).observed().history),
            final(self).goes_on_from(old(self)),
            final(self).peer() == old(self).peer(),
            final(self).plans() == old(self).plans(),
            final(self).last() == old(self).last(),
            final(self).observed().bindings == old(self).observed().bindings,
            match presented_refusal(
                old(self).peer(),
                old(self).observed().bindings,
                peer,
                handle,
            ) {
                Some(refusal) => r is Err && r->Err_0@ == refusal && final(self).observed()
                    == old(self).observed(),
                None => transaction::restore_outcome(
                    old(self).observed().history,
                    old(self).observed().active,
                    final(self).observed().history,
                    final(self).observed().active,
                    handle.session_id,
                    crate::error::plain(r),
                ),
            },
    {
        match self.authenticate_peer(peer) {
            Ok(_) => {},
            Err(e) => {
                return Err(e);
            },
        }
        match self.authorize_session(peer, handle) {
            Ok(_) => {},
            Err(e) => {
                return Err(e);
            },
        }
        self.engine.restore(handle.session_id)
    }

    /// Where a session stands, for a peer that presents its handle.
    pub fn status_for_peer(&self, peer: ProcessIdentity, handle: SessionHandle) -> (r: Result<
        SessionState,
        SysboostError,
    >)
        ensures
            match presented_refusal(self.peer(), self.observed().bindings, peer, handle) {
                Some(refusal) => r is Err && r->Err_0@ == refusal,
                None => exists|reply: Result<RecordView, ErrorView>| #[trigger]
                    self.store().may_load(handle.session_id, reply) && crate::error::plain(r)
                        == standing(handle.session_id, reply),
            },
    {
        match self.authenticate_peer(peer) {
            Ok(_) => {},
            Err(e) => {
                return Err(e);
            },
        }
        match self.authorize_session(peer, handle) {
            Ok(_) => {},
            Err(e) => {
                return Err(e);
            },
        }
        let status = self.engine.status(handle.session_id);
        proof {
            let reply = choose|reply: Result<RecordView, ErrorView>| #[trigger]
                self.engine.held_store().may_load(handle.session_id, reply)
                    && crate::error::plain(status) == transaction::stands(
                    handle.session_id,
                    reply,
                );
            assert(self.store().may_load(handle.session_id, reply));
        }
        match status {
            Ok(status) => Ok(status.state),
            Err(e) => Err(e),
        }
    }
}

impl<B, S, L, G, C> PrivilegeBroker for PrivilegeService<B, S, L, G, C> where
    B: MutationBackend,
    S: SessionStateStore,
    L: ExclusiveSessionLock,
    G: SessionIdSource,
    C: Clock,
 {
    open spec fn sound(&self) -> bool {
        self.wf()
    }

    /// Approves and prepares a plan for the peer of this helper.
    fn prepare(&mut self, plan: &Plan) -> (r: Result<SessionHandle, SysboostError>)
        ensures
            transaction::extends(old(self).observed().history, final(self).observed().history),
            final(self).goes_on_from(old(self)),
            final(self).peer() == old(self).peer(),
            final(self).last() == old(self).last(),
            process::same_process(old(self).peer(), old(self).peer()) && approval_refusal(
                old(self).plans(),
                plan@,
            ) is None ==> bound_plan(final(self).plans(), plan@.id) == Some(plan@),
            forall|id: PlanId|
                bound_plan(old(self).plans(), id) is Some || id != plan@.id
                    ==> #[trigger] bound_plan(final(self).plans(), id) == bound_plan(
                    old(self).plans(),
                    id,
                ),
            if !process::same_process(old(self).peer(), old(self).peer()) {
                r is Err && r->Err_0@ == unauthorized_peer() && final(self).observed()
                    == old(self).observed() && final(self).plans() == old(self).plans()
            } else if approval_refusal(old(self).plans(), plan@) is Some {
                r is Err && Some(r->Err_0@) == approval_refusal(old(self).plans(), plan@)
                    && final(self).observed() == old(self).observed() && final(self).plans()
                    == old(self).plans()
            } else {
                prepared_for(
                    old(self).observed(),
                    final(self).observed(),
                    old(self).peer(),
                    Some(plan@),
                    plan.id,
                    plan.plan_digest,
                    crate::error::plain(r),
                )
            },
    {
        let peer = self.expected_peer;
        self.prepare_for_peer(peer, plan)
    }

    /// Applies a session for the peer of this helper.
    fn apply(&mut self, session: SessionHandle) -> (r: Result<SessionState, SysboostError>)
        ensures
            transaction::extends(old(self).observed().history, final(self).observed().history),
            final(self).goes_on_from(old(self)),
            final(self).peer() == old(self).peer(),
            final(self).plans() == old(self).plans(),
            final(self).last() == old(self).last(),
            final(self).observed().bindings == old(self).observed().bindings,
            match presented_refusal(
                old(self).peer(),
                old(self).observed().bindings,
                old(self).peer(),
                session,
            ) {
                Some(refusal) => r is Err && r->Err_0@ == refusal && final(self).observed()
                    == old(self).observed(),
                None => transaction::apply_outcome(
                    old(self).observed().history,
                    old(self).observed().active,
                    final(self).observed().history,
                    final(self).observed().active,
                    session.session_id,
                    crate::error::plain(r),
                ),
            },
    {
        let peer = self.expected_peer;
        self.apply_for_peer(peer, session)
    }

    /// Restores a session for the peer of this helper.
    fn restore(&mut self, session: SessionHandle) -> (r: Result<SessionState, SysboostError>)
        ensures
            transaction::extends(old(self).observed().history, final(self).observed().history),
            final(self).goes_on_from(old(self)),
            final(self).peer() == old(self).peer(),
            final(self).plans() == old(self).plans(),
            final(self).last() == old(self).last(),
            final(self).observed().bindings == old(self).observed().bindings,
            match presented_refusal(
                old(self).peer(),
                old(self).observed().bindings,
                old(self).peer(),
                session,
            ) {
                Some(refusal) => r is Err && r->Err_0@ == refusal && final(self).observed()
                    == old(self).observed(),
                None => transaction::restore_outcome(
                    old(self).observed().history,
                    old(self).observed().active,
                    final(self).observed().history,
                    final(self).observed().active,
                    session.session_id,
                    crate::error::plain(r),
                ),
            },
    {
        let peer = self.expected_peer;
        self.restore_for_peer(peer, session)
    }

    /// Where a session stands, for the peer of this helper.
    fn status(&self, session: SessionHandle) -> (r: Result<SessionState, SysboostError>)
        ensures
            match presented_refusal(
                self.peer(),
                self.observed().bindings,
                self.peer(),
                session,
            ) {
                Some(refusal) => r is Err && r->Err_0@ == refusal,
                None => exists|reply: Result<RecordView, ErrorView>| #[trigger]
                    self.store().may_load(session.session_id, reply) && crate::error::plain(r)
                        == standing(session.session_id, reply),
            },
    {
        self.status_for_peer(self.expected_peer, session)
    }
}

proof fn lemma_bound_plan(plans: Seq<PlanDataView>, id: PlanId)
    ensures
        match bound_plan(plans, id) {
            Some(plan) => plans.contains(plan) && plan.id == id,
            None => forall|i: int| 0 <= i < plans.len() ==> (#[trigger] plans[i]).id != id,
        },
    decreases plans.len(),
{
    if plans.len() > 0 {
        let rest = plans.drop_last();
        lemma_bound_plan(rest, id);
        if plans.last().id == id {
            assert(plans[plans.len() - 1].id == id);
        } else {
            if let Some(plan) = bound_plan(rest, id) {
                let k = rest.index_of(plan);
                assert(plans[k] == plan);
            }
            assert forall|i: int| 0 <= i < plans.len() && bound_plan(rest, id) is None implies (
            #[trigger] plans[i]).id != id by {
                if i < rest.len() {
                    assert(rest[i].id != id);
                }
            }
        }
    }
}

/// What may be prepared is a plan that was approved, under its own identity and with
/// the very content that was approved. One that was, and whose identity no other
/// plan has, may be.
pub proof fn only_approved_plans_are_prepared(
    plans: Seq<PlanDataView>,
    id: PlanId,
    digest: Seq<u8>,
    k: int,
)
    ensures
        approved(plans, id, digest) matches Some(plan) ==> plans.contains(plan) && plan.id == id
            && plan.plan_digest == digest,
        0 <= k < plans.len() && plans[k].id == id && plans[k].plan_digest == digest && (forall|
            i: int,
        |
            0 <= i < plans.len() && (#[trigger] plans[i]).id == id ==> plans[i] == plans[k])
            ==> approved(plans, id, digest) == Some(plans[k]),
{
    lemma_bound_plan(plans, id);
    if let Some(plan) = bound_plan(plans, id) {
        let j = plans.index_of(plan);
        assert(plans[j].id == id);
    }
}

proof fn lemma_item_found(items: Seq<ItemView>, id: MutationId)
    ensures
        match item_for(items, id) {
            Some(item) => items.contains(item) && is_about(item, id),
            None => forall|i: int| 0 <= i < items.len() ==> !is_about(#[trigger] items[i], id),
        },
    decreases items.len(),
{
    if items.len() > 0 {
        let rest = items.drop_last();
        lemma_item_found(rest, id);
        if let Some(item) = item_for(rest, id) {
            let k = rest.index_of(item);
            assert(items[k] == item);
        } else {
            assert forall|i: int| 0 <= i < rest.len() implies !is_about(#[trigger] items[i], id) by {
                assert(rest[i] == items[i]);
            }
            assert(items[items.len() - 1] == items.last());
        }
    }
}

/// A mutation is admitted only where the approved plan has an item for it that is to
/// be carried out, names a backend that owns it, and names its target, and then for
/// that target.
pub proof fn only_planned_mutations_are_admitted(
    items: Seq<ItemView>,
    id: MutationId,
    owned: bool,
    identity: TargetIdentity,
)
    ensures
        admitted_spec(item_for(items, id), owned) == Ok::<TargetIdentity, ErrorView>(identity) ==> {
            &&& owned
            &&& exists|i: int|
                0 <= i < items.len() && (#[trigger] items[i]).action == PlanAction::Mutation
                    && items[i].mutation is Some && items[i].mutation->0.mutation_id == id
                    && items[i].backend is Some && items[i].target_identity == Some(identity)
        },
        !owned ==> admitted_spec(item_for(items, id), owned) is Err,
{
    lemma_item_found(items, id);
    if let Some(item) = item_for(items, id) {
        let k = items.index_of(item);
        assert(items[k].action == PlanAction::Mutation);
    }
}

/// A frame is taken only from the process that the helper serves, once: its sender
/// is known and has that process's number, start and boot, and its number is above
/// every number taken before.
pub proof fn frames_are_taken_from_one_process_once(
    expected: ProcessIdentity,
    last_request: Option<u64>,
    peer: Option<ProcessIdentity>,
    frame: Seq<u8>,
)
    requires
        frame_refusal(expected, last_request, peer, frame) is None,
    ensures
        peer is Some,
        peer->0.pid == expected.pid,
        peer->0.generation == expected.generation && expected.generation != 0,
        peer->0.boot_id@ == expected.boot_id@,
        Request::message_of(frame) is Ok,
        last_request is Some ==> Request::message_of(frame)->Ok_0.id() > last_request->0,
{
}

} // verus!
