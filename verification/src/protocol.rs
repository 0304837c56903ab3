//! The messages between the controller and the privileged helper.
//!
//! A message carries identities, digests and states, never a path, a command or
//! an untyped value. Its frame is bounded, versioned and read whole.

use vstd::prelude::*;

use crate::bytes;
use crate::error::{ErrorCode, SysboostError};
use crate::ids::{PlanId, SessionId};
use crate::session::SessionState;

verus! {

/// The version of the frames.
pub const PROTOCOL_VERSION: u16 = 1;

/// The most bytes of a frame.
pub const MAX_FRAME_BYTES: usize = 65_536;

/// The first bytes of every frame.
pub open spec fn magic() -> Seq<u8> {
    seq![0x53u8, 0x42u8, 0x50u8, 0x31u8]
}

/// The number by which a controller tells its requests apart. It is never zero.
#[derive(Clone, Copy, Debug, PartialEq, Eq, Structural)]
pub struct RequestId {
    value: u64,
}

impl View for RequestId {
    type V = u64;

    closed spec fn view(&self) -> u64 {
        self.value
    }
}

pub open spec fn zero_request() -> crate::error::ErrorView {
    crate::error::error_view(ErrorCode::InvalidInput, "request ID must be non-zero"@)
}

impl RequestId {
    #[verifier::type_invariant]
    spec fn inv(self) -> bool {
        self.value > 0
    }

    /// Takes any number but zero.
    pub fn new(value: u64) -> (r: Result<RequestId, SysboostError>)
        ensures
            match r {
                Ok(id) => value > 0 && id@ == value,
                Err(e) => value == 0 && e@ == zero_request(),
            },
    {
        if value == 0 {
            Err(SysboostError::new(ErrorCode::InvalidInput, "request ID must be non-zero"))
        } else {
            Ok(RequestId { value })
        }
    }

    pub fn get(self) -> (r: u64)
        ensures
            r == self@,
            r > 0,
    {
        proof {
            use_type_invariant(self);
        }
        self.value
    }
}

/// What a controller asks of the helper.
#[derive(Debug, PartialEq, Eq)]
pub enum Request {
    /// Bind an approved plan to a new session.
    Prepare { request_id: RequestId, plan_id: PlanId, plan_digest: [u8; 32] },
    /// Apply a prepared session.
    Apply { request_id: RequestId, session_id: SessionId },
    /// Restore a session.
    Restore { request_id: RequestId, session_id: SessionId },
    /// Ask where a session stands.
    Status { request_id: RequestId, session_id: SessionId },
}

/// A request as plain values.
#[verifier::ext_equal]
pub enum RequestView {
    Prepare { request_id: u64, plan_id: Seq<u8>, plan_digest: Seq<u8> },
    Apply { request_id: u64, session_id: Seq<u8> },
    Restore { request_id: u64, session_id: Seq<u8> },
    Status { request_id: u64, session_id: Seq<u8> },
}

impl View for Request {
    type V = RequestView;

    open spec fn view(&self) -> RequestView {
        match *self {
            Request::Prepare { request_id, plan_id, plan_digest } => RequestView::Prepare {
                request_id: request_id@,
                plan_id: plan_id.bytes@,
                plan_digest: plan_digest@,
            },
            Request::Apply { request_id, session_id } => RequestView::Apply {
                request_id: request_id@,
                session_id: session_id.bytes@,
            },
            Request::Restore { request_id, session_id } => RequestView::Restore {
                request_id: request_id@,
                session_id: session_id.bytes@,
            },
            Request::Status { request_id, session_id } => RequestView::Status {
                request_id: request_id@,
                session_id: session_id.bytes@,
            },
        }
    }
}

impl RequestView {
    pub open spec fn id(self) -> u64 {
        match self {
            RequestView::Prepare { request_id, .. } => request_id,
            RequestView::Apply { request_id, .. } => request_id,
            RequestView::Restore { request_id, .. } => request_id,
            RequestView::Status { request_id, .. } => request_id,
        }
    }

    /// Whether the values are of the sizes that a request holds.
    pub open spec fn wf(self) -> bool {
        &&& self.id() > 0
        &&& match self {
            RequestView::Prepare { plan_id, plan_digest, .. } => plan_id.len() == 16
                && plan_digest.len() == 32,
            RequestView::Apply { session_id, .. } => session_id.len() == 16,
            RequestView::Restore { session_id, .. } => session_id.len() == 16,
            RequestView::Status { session_id, .. } => session_id.len() == 16,
        }
    }
}

impl Request {
    /// The number of the request.
    pub fn request_id(&self) -> (r: RequestId)
        ensures
            r@ == self@.id(),
    {
        match self {
            Request::Prepare { request_id, .. } => *request_id,
            Request::Apply { request_id, .. } => *request_id,
            Request::Restore { request_id, .. } => *request_id,
            Request::Status { request_id, .. } => *request_id,
        }
    }
}

/// What the helper answers.
#[derive(Debug, PartialEq, Eq)]
pub enum Response {
    /// A session was prepared.
    Accepted { request_id: RequestId, session_id: SessionId },
    /// Where a session stands.
    Status { request_id: RequestId, session_id: SessionId, state: SessionState },
    /// The request was refused.
    Rejected { request_id: RequestId, code: ErrorCode },
}

/// A response as plain values.
#[verifier::ext_equal]
pub enum ResponseView {
    Accepted { request_id: u64, session_id: Seq<u8> },
    Status { request_id: u64, session_id: Seq<u8>, state: SessionState },
    Rejected { request_id: u64, code: ErrorCode },
}

impl View for Response {
    type V = ResponseView;

    open spec fn view(&self) -> ResponseView {
        match *self {
            Response::Accepted { request_id, session_id } => ResponseView::Accepted {
                request_id: request_id@,
                session_id: session_id.bytes@,
            },
            Response::Status { request_id, session_id, state } => ResponseView::Status {
                request_id: request_id@,
                session_id: session_id.bytes@,
                state,
            },
            Response::Rejected { request_id, code } => ResponseView::Rejected {
                request_id: request_id@,
                code,
            },
        }
    }
}

impl ResponseView {
    /// Whether the values are of the sizes that a response holds.
    pub open spec fn wf(self) -> bool {
        match self {
            ResponseView::Accepted { request_id, session_id } => request_id > 0
                && session_id.len() == 16,
            ResponseView::Status { request_id, session_id, .. } => request_id > 0
                && session_id.len() == 16,
            ResponseView::Rejected { request_id, .. } => request_id > 0,
        }
    }
}

/// A message with one frame for each value.
pub trait WireCodec: Sized + View {
    /// The frame of a message.
    spec fn frame_of(message: Self::V) -> Seq<u8>;

    /// The message of a frame, or why there is none.
    spec fn message_of(bytes: Seq<u8>) -> Result<Self::V, crate::error::ErrorView>;

    /// Writes a message. Every message fits into a frame.
    fn encode(&self) -> (r: Result<Vec<u8>, SysboostError>)
        ensures
            r is Ok,
            r->Ok_0@ == Self::frame_of(self@),
    ;

    /// Reads one whole frame.
    fn decode(bytes: &[u8]) -> (r: Result<Self, SysboostError>)
        ensures
            match r {
                Ok(message) => Self::message_of(bytes@) == Ok::<Self::V, crate::error::ErrorView>(
                    message@,
                ),
                Err(e) => Self::message_of(bytes@) == Err::<Self::V, crate::error::ErrorView>(e@),
            },
    ;
}

/// A frame: the magic, the version, the tag, the length of the payload, the
/// payload.
pub open spec fn frame_spec(tag: u8, payload: Seq<u8>) -> Seq<u8> {
    magic() + bytes::be(PROTOCOL_VERSION as nat, 2) + seq![tag] + bytes::be(payload.len(), 4)
        + payload
}

pub open spec fn wire_error(message: Seq<char>) -> crate::error::ErrorView {
    crate::error::error_view(ErrorCode::TransportError, message)
}

/// The tag and the payload of a frame.
pub open spec fn unframe_spec(frame: Seq<u8>) -> Result<(u8, Seq<u8>), crate::error::ErrorView> {
    if frame.len() > MAX_FRAME_BYTES || frame.len() < 11 {
        Err(wire_error("protocol frame length is invalid"@))
    } else if frame.take(4) != magic() {
        Err(wire_error("protocol magic is invalid"@))
    } else if bytes::be_value(frame.subrange(4, 6)) != PROTOCOL_VERSION {
        Err(wire_error("protocol version is unsupported"@))
    } else if bytes::be_value(frame.subrange(7, 11)) != frame.len() - 11 {
        Err(wire_error("protocol payload length does not match frame"@))
    } else {
        Ok((frame[6], frame.skip(11)))
    }
}

/// Unframing gives back what was framed.
pub proof fn unframe_frame(tag: u8, payload: Seq<u8>)
    requires
        payload.len() + 11 <= MAX_FRAME_BYTES,
    ensures
        unframe_spec(frame_spec(tag, payload)) == Ok::<(u8, Seq<u8>), crate::error::ErrorView>(
            (tag, payload),
        ),
{
    let version = bytes::be(PROTOCOL_VERSION as nat, 2);
    let length = bytes::be(payload.len(), 4);
    bytes::be_ranges();
    bytes::be_round_trip(PROTOCOL_VERSION as nat, 2);
    bytes::be_round_trip(payload.len(), 4);
    let frame = frame_spec(tag, payload);
    assert(frame.take(4) =~= magic());
    assert(frame.subrange(4, 6) =~= version);
    assert(frame.subrange(7, 11) =~= length);
    assert(frame.skip(11) =~= payload);
}

/// Framing gives back what was unframed: a tag and a payload have one frame.
pub proof fn frame_unframe(frame: Seq<u8>)
    requires
        unframe_spec(frame) is Ok,
    ensures
        frame_spec(unframe_spec(frame)->Ok_0.0, unframe_spec(frame)->Ok_0.1) == frame,
{
    bytes::be_read_back(frame.subrange(4, 6));
    bytes::be_read_back(frame.subrange(7, 11));
    assert(bytes::be(PROTOCOL_VERSION as nat, 2) == frame.subrange(4, 6));
    assert(bytes::be(frame.skip(11).len(), 4) == frame.subrange(7, 11));
    assert(frame_spec(frame[6], frame.skip(11)) =~= frame);
}

/// The frame of a tag and a payload, if the payload is not too long for one.
pub open spec fn framed(tag: u8, payload: Seq<u8>) -> Result<Seq<u8>, crate::error::ErrorView> {
    if payload.len() + 11 <= MAX_FRAME_BYTES {
        Ok(frame_spec(tag, payload))
    } else {
        Err(wire_error("protocol frame exceeds maximum size"@))
    }
}

/// A frame is read as a tag and a payload exactly if it is written for them. What is
/// refused, on either side, is refused as a fault of the transport.
pub proof fn framing_is_exact(tag: u8, payload: Seq<u8>, frame: Seq<u8>)
    ensures
        unframe_spec(frame) == Ok::<(u8, Seq<u8>), crate::error::ErrorView>((tag, payload))
            <==> framed(tag, payload) == Ok::<Seq<u8>, crate::error::ErrorView>(frame),
        framed(tag, payload) is Ok <==> payload.len() + 11 <= MAX_FRAME_BYTES,
        framed(tag, payload) matches Err(e) ==> e.code == ErrorCode::TransportError,
        unframe_spec(frame) matches Err(e) ==> e.code == ErrorCode::TransportError,
        frame.len() < 11 || frame.len() > MAX_FRAME_BYTES ==> unframe_spec(frame) is Err,
{
    if unframe_spec(frame) is Ok {
        frame_unframe(frame);
    }
    if payload.len() + 11 <= MAX_FRAME_BYTES {
        unframe_frame(tag, payload);
    }
}

fn protocol_error(message: &str) -> (r: SysboostError)
    ensures
        r@ == wire_error(message@),
{
    SysboostError::new(ErrorCode::TransportError, message)
}

fn push_all(out: &mut Vec<u8>, more: &[u8])
    ensures
        final(out)@ == old(out)@ + more@,
{
    for i in 0..more.len()
        invariant
            out@ == old(out)@ + more@.take(i as int),
    {
        out.push(more[i]);
        assert(out@ =~= old(out)@ + more@.take(i + 1));
    }
    assert(more@.take(more@.len() as int) =~= more@);
}

fn push_magic(out: &mut Vec<u8>)
    ensures
        final(out)@ == old(out)@ + magic(),
{
    out.push(0x53);
    out.push(0x42);
    out.push(0x50);
    out.push(0x31);
    assert(out@ =~= old(out)@ + magic());
}

/// The frame of a tag and a payload.
pub fn frame(tag: u8, payload: &[u8]) -> (r: Result<Vec<u8>, SysboostError>)
    ensures
        match r {
            Ok(out) => framed(tag, payload@) == Ok::<Seq<u8>, crate::error::ErrorView>(out@),
            Err(e) => framed(tag, payload@) == Err::<Seq<u8>, crate::error::ErrorView>(e@),
        },
{
    if payload.len() > MAX_FRAME_BYTES - 11 {
        return Err(protocol_error("protocol frame exceeds maximum size"));
    }
    let mut out: Vec<u8> = Vec::new();
    push_magic(&mut out);
    bytes::push_be(&mut out, PROTOCOL_VERSION as u128, 2);
    out.push(tag);
    bytes::push_be(&mut out, payload.len() as u128, 4);
    push_all(&mut out, payload);
    assert(out@ =~= frame_spec(tag, payload@));
    Ok(out)
}

/// The tag and the payload of a frame.
pub fn unframe(frame: &[u8]) -> (r: Result<(u8, &[u8]), SysboostError>)
    ensures
        match r {
            Ok((tag, payload)) => unframe_spec(frame@) == Ok::<
                (u8, Seq<u8>),
                crate::error::ErrorView,
            >((tag, payload@)),
            Err(e) => unframe_spec(frame@) == Err::<(u8, Seq<u8>), crate::error::ErrorView>(e@),
        },
{
    if frame.len() > MAX_FRAME_BYTES || frame.len() < 11 {
        return Err(protocol_error("protocol frame length is invalid"));
    }
    if frame[0] != 0x53 || frame[1] != 0x42 || frame[2] != 0x50 || frame[3] != 0x31 {
        proof {
            if frame@.take(4) == magic() {
                assert(frame@[0] == frame@.take(4)[0]);
                assert(frame@[1] == frame@.take(4)[1]);
                assert(frame@[2] == frame@.take(4)[2]);
                assert(frame@[3] == frame@.take(4)[3]);
            }
        }
        return Err(protocol_error("protocol magic is invalid"));
    }
    assert(frame@.take(4) =~= magic());
    let version: u128 = bytes::read_be(vstd::slice::slice_subrange(frame, 4, 6));
    if version != PROTOCOL_VERSION as u128 {
        return Err(protocol_error("protocol version is unsupported"));
    }
    let length: u128 = bytes::read_be(vstd::slice::slice_subrange(frame, 7, 11));
    if length != (frame.len() - 11) as u128 {
        return Err(protocol_error("protocol payload length does not match frame"));
    }
    let payload = vstd::slice::slice_subrange(frame, 11, frame.len());
    assert(payload@ =~= frame@.skip(11));
    Ok((frame[6], payload))
}

/// The payload of a message about one session.
pub open spec fn two_ids_spec(request_id: u64, session_id: Seq<u8>) -> Seq<u8> {
    bytes::be(request_id as nat, 8) + session_id
}

fn two_ids(request_id: RequestId, session_id: SessionId) -> (r: Vec<u8>)
    ensures
        r@ == two_ids_spec(request_id@, session_id.bytes@),
        r@.len() == 24,
{
    let mut payload: Vec<u8> = Vec::new();
    bytes::push_be(&mut payload, request_id.get() as u128, 8);
    proof {
        bytes::be_len(request_id@ as nat, 8);
    }
    push_array_16(&mut payload, &session_id.bytes);
    assert(payload@ =~= two_ids_spec(request_id@, session_id.bytes@));
    payload
}

fn push_array_16(out: &mut Vec<u8>, more: &[u8; 16])
    ensures
        final(out)@ == old(out)@ + more@,
{
    for i in 0..16usize
        invariant
            out@ == old(out)@ + more@.take(i as int),
    {
        out.push(more[i]);
        assert(out@ =~= old(out)@ + more@.take(i + 1));
    }
    assert(more@.take(16) =~= more@);
}

fn push_array_32(out: &mut Vec<u8>, more: &[u8; 32])
    ensures
        final(out)@ == old(out)@ + more@,
{
    for i in 0..32usize
        invariant
            out@ == old(out)@ + more@.take(i as int),
    {
        out.push(more[i]);
        assert(out@ =~= old(out)@ + more@.take(i + 1));
    }
    assert(more@.take(32) =~= more@);
}

fn array_16(bytes: &[u8], at: usize) -> (r: [u8; 16])
    requires
        at + 16 <= bytes@.len(),
    ensures
        r@ == bytes@.subrange(at as int, at + 16),
{
    let mut out: [u8; 16] = [0u8; 16];
    for i in 0..16usize
        invariant
            at + 16 <= bytes.len(),
            forall|j: int| 0 <= j < i ==> out@[j] == bytes@[at + j],
    {
        out[i] = bytes[at + i];
    }
    assert(out@ =~= bytes@.subrange(at as int, at + 16));
    out
}

fn array_32(bytes: &[u8], at: usize) -> (r: [u8; 32])
    requires
        at + 32 <= bytes@.len(),
    ensures
        r@ == bytes@.subrange(at as int, at + 32),
{
    let mut out: [u8; 32] = [0u8; 32];
    for i in 0..32usize
        invariant
            at + 32 <= bytes.len(),
            forall|j: int| 0 <= j < i ==> out@[j] == bytes@[at + j],
    {
        out[i] = bytes[at + i];
    }
    assert(out@ =~= bytes@.subrange(at as int, at + 32));
    out
}

/// The number that stands for a state.
pub open spec fn state_number(state: SessionState) -> u8 {
    match state {
        SessionState::New => 0,
        SessionState::Detected => 1,
        SessionState::Planned => 2,
        SessionState::Snapshotted => 3,
        SessionState::IntentDurable => 4,
        SessionState::Applying => 5,
        SessionState::Active => 6,
        SessionState::Restoring => 7,
        SessionState::Restored => 8,
        SessionState::RollingBack => 9,
        SessionState::Degraded => 10,
        SessionState::RecoveryPending => 11,
    }
}

fn state_tag(state: SessionState) -> (r: u8)
    ensures
        r == state_number(state),
{
    match state {
        SessionState::New => 0,
        SessionState::Detected => 1,
        SessionState::Planned => 2,
        SessionState::Snapshotted => 3,
        SessionState::IntentDurable => 4,
        SessionState::Applying => 5,
        SessionState::Active => 6,
        SessionState::Restoring => 7,
        SessionState::Restored => 8,
        SessionState::RollingBack => 9,
        SessionState::Degraded => 10,
        SessionState::RecoveryPending => 11,
    }
}

fn state_from_tag(tag: u8) -> (r: Result<SessionState, SysboostError>)
    ensures
        match r {
            Ok(state) => state_number(state) == tag,
            Err(e) => tag > 11 && e@ == wire_error("unknown session-state tag"@),
        },
{
    match tag {
        0 => Ok(SessionState::New),
        1 => Ok(SessionState::Detected),
        2 => Ok(SessionState::Planned),
        3 => Ok(SessionState::Snapshotted),
        4 => Ok(SessionState::IntentDurable),
        5 => Ok(SessionState::Applying),
        6 => Ok(SessionState::Active),
        7 => Ok(SessionState::Restoring),
        8 => Ok(SessionState::Restored),
        9 => Ok(SessionState::RollingBack),
        10 => Ok(SessionState::Degraded),
        11 => Ok(SessionState::RecoveryPending),
        _ => Err(protocol_error("unknown session-state tag")),
    }
}

/// The number that stands for an error code.
pub open spec fn error_number(code: ErrorCode) -> u16 {
    match code {
        ErrorCode::ConfigError => 1,
        ErrorCode::CapabilityError => 2,
        ErrorCode::Unsupported => 3,
        ErrorCode::AuthorizationError => 4,
        ErrorCode::TargetError => 5,
        ErrorCode::PlanningError => 6,
        ErrorCode::SnapshotError => 7,
        ErrorCode::DurabilityError => 8,
        ErrorCode::TransportError => 9,
        ErrorCode::ApplyError => 10,
        ErrorCode::VerificationError => 11,
        ErrorCode::RestoreConflict => 12,
        ErrorCode::RestoreError => 13,
        ErrorCode::JournalCorrupt => 14,
        ErrorCode::InvariantViolation => 15,
        ErrorCode::InvalidInput => 16,
    }
}

fn error_tag(code: ErrorCode) -> (r: u16)
    ensures
        r == error_number(code),
{
    match code {
        ErrorCode::ConfigError => 1,
        ErrorCode::CapabilityError => 2,
        ErrorCode::Unsupported => 3,
        ErrorCode::AuthorizationError => 4,
        ErrorCode::TargetError => 5,
        ErrorCode::PlanningError => 6,
        ErrorCode::SnapshotError => 7,
        ErrorCode::DurabilityError => 8,
        ErrorCode::TransportError => 9,
        ErrorCode::ApplyError => 10,
        ErrorCode::VerificationError => 11,
        ErrorCode::RestoreConflict => 12,
        ErrorCode::RestoreError => 13,
        ErrorCode::JournalCorrupt => 14,
        ErrorCode::InvariantViolation => 15,
        ErrorCode::InvalidInput => 16,
    }
}

fn error_from_tag(tag: u16) -> (r: Result<ErrorCode, SysboostError>)
    ensures
        match r {
            Ok(code) => error_number(code) == tag,
            Err(e) => !(1 <= tag <= 16) && e@ == wire_error("unknown error tag"@),
        },
{
    match tag {
        1 => Ok(ErrorCode::ConfigError),
        2 => Ok(ErrorCode::CapabilityError),
        3 => Ok(ErrorCode::Unsupported),
        4 => Ok(ErrorCode::AuthorizationError),
        5 => Ok(ErrorCode::TargetError),
        6 => Ok(ErrorCode::PlanningError),
        7 => Ok(ErrorCode::SnapshotError),
        8 => Ok(ErrorCode::DurabilityError),
        9 => Ok(ErrorCode::TransportError),
        10 => Ok(ErrorCode::ApplyError),
        11 => Ok(ErrorCode::VerificationError),
        12 => Ok(ErrorCode::RestoreConflict),
        13 => Ok(ErrorCode::RestoreError),
        14 => Ok(ErrorCode::JournalCorrupt),
        15 => Ok(ErrorCode::InvariantViolation),
        16 => Ok(ErrorCode::InvalidInput),
        _ => Err(protocol_error("unknown error tag")),
    }
}

/// The state that a number stands for.
pub open spec fn state_of(tag: u8) -> SessionState {
    choose|state: SessionState| state_number(state) == tag
}

/// The error code that a number stands for.
pub open spec fn error_of(tag: u16) -> ErrorCode {
    choose|code: ErrorCode| error_number(code) == tag
}

pub open spec fn truncated() -> crate::error::ErrorView {
    wire_error("protocol payload is truncated"@)
}

pub open spec fn trailing() -> crate::error::ErrorView {
    wire_error("protocol payload contains trailing bytes"@)
}

/// The number of the message that a payload begins with.
pub open spec fn payload_id(payload: Seq<u8>) -> u64 {
    bytes::be_value(payload.take(8)) as u64
}

/// Whether a payload has exactly the bytes that its message needs.
pub open spec fn sized<T>(payload: Seq<u8>, needed: nat, message: T) -> Result<
    T,
    crate::error::ErrorView,
> {
    if payload.len() < needed {
        Err(truncated())
    } else if payload.len() > needed {
        Err(trailing())
    } else {
        Ok(message)
    }
}

pub open spec fn request_payload(tag: u8, payload: Seq<u8>) -> Result<
    RequestView,
    crate::error::ErrorView,
> {
    let request_id = payload_id(payload);
    if payload.len() < 8 {
        Err(truncated())
    } else if request_id == 0 {
        Err(zero_request())
    } else if tag == 1 {
        sized(
            payload,
            56,
            RequestView::Prepare {
                request_id,
                plan_id: payload.subrange(8, 24),
                plan_digest: payload.subrange(24, 56),
            },
        )
    } else if tag == 2 {
        sized(
            payload,
            24,
            RequestView::Apply { request_id, session_id: payload.subrange(8, 24) },
        )
    } else if tag == 3 {
        sized(
            payload,
            24,
            RequestView::Restore { request_id, session_id: payload.subrange(8, 24) },
        )
    } else if tag == 4 {
        sized(
            payload,
            24,
            RequestView::Status { request_id, session_id: payload.subrange(8, 24) },
        )
    } else {
        Err(wire_error("unknown request tag"@))
    }
}

fn read_id(payload: &[u8]) -> (r: Result<RequestId, SysboostError>)
    ensures
        match r {
            Ok(id) => payload@.len() >= 8 && id@ == payload_id(payload@) && id@ > 0,
            Err(e) => if payload@.len() < 8 {
                e@ == truncated()
            } else {
                payload_id(payload@) == 0 && e@ == zero_request()
            },
        },
{
    if payload.len() < 8 {
        return Err(protocol_error("protocol payload is truncated"));
    }
    let head = vstd::slice::slice_subrange(payload, 0, 8);
    assert(head@ =~= payload@.take(8));
    proof {
        bytes::be_ranges();
    }
    let value: u128 = bytes::read_be(head);
    RequestId::new(value as u64)
}

fn check_size(payload: &[u8], needed: usize) -> (r: Result<(), SysboostError>)
    ensures
        match r {
            Ok(_) => payload@.len() == needed,
            Err(e) => if payload@.len() < needed {
                e@ == truncated()
            } else {
                payload@.len() > needed && e@ == trailing()
            },
        },
{
    if payload.len() < needed {
        Err(protocol_error("protocol payload is truncated"))
    } else if payload.len() > needed {
        Err(protocol_error("protocol payload contains trailing bytes"))
    } else {
        Ok(())
    }
}

impl WireCodec for Request {
    open spec fn frame_of(message: RequestView) -> Seq<u8> {
        match message {
            RequestView::Prepare { request_id, plan_id, plan_digest } => frame_spec(
                1,
                bytes::be(request_id as nat, 8) + plan_id + plan_digest,
            ),
            RequestView::Apply { request_id, session_id } => frame_spec(
                2,
                two_ids_spec(request_id, session_id),
            ),
            RequestView::Restore { request_id, session_id } => frame_spec(
                3,
                two_ids_spec(request_id, session_id),
            ),
            RequestView::Status { request_id, session_id } => frame_spec(
                4,
                two_ids_spec(request_id, session_id),
            ),
        }
    }

    open spec fn message_of(bytes: Seq<u8>) -> Result<RequestView, crate::error::ErrorView> {
        match unframe_spec(bytes) {
            Err(e) => Err(e),
            Ok((tag, payload)) => request_payload(tag, payload),
        }
    }

    fn encode(&self) -> (r: Result<Vec<u8>, SysboostError>) {
        match self {
            Request::Prepare { request_id, plan_id, plan_digest } => {
                let mut payload: Vec<u8> = Vec::new();
                bytes::push_be(&mut payload, request_id.get() as u128, 8);
                proof {
                    bytes::be_len(request_id@ as nat, 8);
                }
                push_array_16(&mut payload, &plan_id.bytes);
                push_array_32(&mut payload, plan_digest);
                assert(payload@ =~= bytes::be(request_id@ as nat, 8) + plan_id.bytes@
                    + plan_digest@);
                frame(1, payload.as_slice())
            },
            Request::Apply { request_id, session_id } => {
                let payload = two_ids(*request_id, *session_id);
                frame(2, payload.as_slice())
            },
            Request::Restore { request_id, session_id } => {
                let payload = two_ids(*request_id, *session_id);
                frame(3, payload.as_slice())
            },
            Request::Status { request_id, session_id } => {
                let payload = two_ids(*request_id, *session_id);
                frame(4, payload.as_slice())
            },
        }
    }

    fn decode(bytes: &[u8]) -> (r: Result<Request, SysboostError>) {
        let (tag, payload) = match unframe(bytes) {
            Ok(parts) => parts,
            Err(e) => return Err(e),
        };
        let request_id = match read_id(payload) {
            Ok(id) => id,
            Err(e) => return Err(e),
        };
        if tag == 0 || tag > 4 {
            return Err(protocol_error("unknown request tag"));
        }
        let needed: usize = if tag == 1 {
            56
        } else {
            24
        };
        match check_size(payload, needed) {
            Ok(_) => {},
            Err(e) => return Err(e),
        }
        if tag == 1 {
            return Ok(
                Request::Prepare {
                    request_id,
                    plan_id: PlanId { bytes: array_16(payload, 8) },
                    plan_digest: array_32(payload, 24),
                },
            );
        }
        let session_id = SessionId { bytes: array_16(payload, 8) };
        if tag == 2 {
            Ok(Request::Apply { request_id, session_id })
        } else if tag == 3 {
            Ok(Request::Restore { request_id, session_id })
        } else {
            Ok(Request::Status { request_id, session_id })
        }
    }
}

pub open spec fn response_payload(tag: u8, payload: Seq<u8>) -> Result<
    ResponseView,
    crate::error::ErrorView,
> {
    let request_id = payload_id(payload);
    if payload.len() < 8 {
        Err(truncated())
    } else if request_id == 0 {
        Err(zero_request())
    } else if tag == 0x81 {
        sized(
            payload,
            24,
            ResponseView::Accepted { request_id, session_id: payload.subrange(8, 24) },
        )
    } else if tag == 0x82 {
        if payload.len() >= 25 && payload[24] > 11 {
            Err(wire_error("unknown session-state tag"@))
        } else {
            sized(
                payload,
                25,
                ResponseView::Status {
                    request_id,
                    session_id: payload.subrange(8, 24),
                    state: state_of(payload[24]),
                },
            )
        }
    } else if tag == 0x83 {
        let number = bytes::be_value(payload.subrange(8, 10));
        if payload.len() >= 10 && !(1 <= number <= 16) {
            Err(wire_error("unknown error tag"@))
        } else {
            sized(
                payload,
                10,
                ResponseView::Rejected { request_id, code: error_of(number as u16) },
            )
        }
    } else {
        Err(wire_error("unknown response tag"@))
    }
}

impl WireCodec for Response {
    open spec fn frame_of(message: ResponseView) -> Seq<u8> {
        match message {
            ResponseView::Accepted { request_id, session_id } => frame_spec(
                0x81,
                two_ids_spec(request_id, session_id),
            ),
            ResponseView::Status { request_id, session_id, state } => frame_spec(
                0x82,
                two_ids_spec(request_id, session_id).push(state_number(state)),
            ),
            ResponseView::Rejected { request_id, code } => frame_spec(
                0x83,
                bytes::be(request_id as nat, 8) + bytes::be(error_number(code) as nat, 2),
            ),
        }
    }

    open spec fn message_of(bytes: Seq<u8>) -> Result<ResponseView, crate::error::ErrorView> {
        match unframe_spec(bytes) {
            Err(e) => Err(e),
            Ok((tag, payload)) => response_payload(tag, payload),
        }
    }

    fn encode(&self) -> (r: Result<Vec<u8>, SysboostError>) {
        match self {
            Response::Accepted { request_id, session_id } => {
                let payload = two_ids(*request_id, *session_id);
                frame(0x81, payload.as_slice())
            },
            Response::Status { request_id, session_id, state } => {
                let mut payload = two_ids(*request_id, *session_id);
                payload.push(state_tag(*state));
                frame(0x82, payload.as_slice())
            },
            Response::Rejected { request_id, code } => {
                let mut payload: Vec<u8> = Vec::new();
                bytes::push_be(&mut payload, request_id.get() as u128, 8);
                bytes::push_be(&mut payload, error_tag(*code) as u128, 2);
                proof {
                    bytes::be_len(request_id@ as nat, 8);
                    bytes::be_len(error_number(*code) as nat, 2);
                }
                assert(payload@ =~= bytes::be(request_id@ as nat, 8) + bytes::be(
                    error_number(*code) as nat,
                    2,
                ));
                frame(0x83, payload.as_slice())
            },
        }
    }

    fn decode(bytes: &[u8]) -> (r: Result<Response, SysboostError>) {
        let (tag, payload) = match unframe(bytes) {
            Ok(parts) => parts,
            Err(e) => return Err(e),
        };
        let request_id = match read_id(payload) {
            Ok(id) => id,
            Err(e) => return Err(e),
        };
        if tag == 0x81 {
            match check_size(payload, 24) {
                Ok(_) => {},
                Err(e) => return Err(e),
            }
            return Ok(
                Response::Accepted {
                    request_id,
                    session_id: SessionId { bytes: array_16(payload, 8) },
                },
            );
        }
        if tag == 0x82 {
            if payload.len() < 25 {
                return Err(protocol_error("protocol payload is truncated"));
            }
            let state = match state_from_tag(payload[24]) {
                Ok(state) => state,
                Err(e) => return Err(e),
            };
            proof {
                state_numbers_differ(state, state_of(payload@[24]));
            }
            match check_size(payload, 25) {
                Ok(_) => {},
                Err(e) => return Err(e),
            }
            return Ok(
                Response::Status {
                    request_id,
                    session_id: SessionId { bytes: array_16(payload, 8) },
                    state,
                },
            );
        }
        if tag == 0x83 {
            if payload.len() < 10 {
                return Err(protocol_error("protocol payload is truncated"));
            }
            proof {
                bytes::be_ranges();
            }
            let number: u128 = bytes::read_be(vstd::slice::slice_subrange(payload, 8, 10));
            let code = match error_from_tag(number as u16) {
                Ok(code) => code,
                Err(e) => return Err(e),
            };
            proof {
                error_numbers_differ(code, error_of(number as u16));
            }
            match check_size(payload, 10) {
                Ok(_) => {},
                Err(e) => return Err(e),
            }
            return Ok(Response::Rejected { request_id, code });
        }
        Err(protocol_error("unknown response tag"))
    }
}

/// Different states have different numbers.
pub proof fn state_numbers_differ(a: SessionState, b: SessionState)
    ensures
        state_number(a) == state_number(b) <==> a == b,
{
}

/// Different error codes have different numbers.
pub proof fn error_numbers_differ(a: ErrorCode, b: ErrorCode)
    ensures
        error_number(a) == error_number(b) <==> a == b,
{
}

/// Reading the frame of a request gives back the request.
pub proof fn request_round_trip(message: RequestView)
    requires
        message.wf(),
    ensures
        Request::message_of(Request::frame_of(message)) == Ok::<
            RequestView,
            crate::error::ErrorView,
        >(message),
{
    bytes::be_ranges();
    let id = message.id();
    bytes::be_round_trip(id as nat, 8);
    match message {
        RequestView::Prepare { request_id, plan_id, plan_digest } => {
            let payload = bytes::be(request_id as nat, 8) + plan_id + plan_digest;
            unframe_frame(1, payload);
            assert(payload.take(8) =~= bytes::be(request_id as nat, 8));
            assert(payload.subrange(8, 24) =~= plan_id);
            assert(payload.subrange(24, 56) =~= plan_digest);
        },
        RequestView::Apply { request_id, session_id } => {
            let payload = two_ids_spec(request_id, session_id);
            unframe_frame(2, payload);
            assert(payload.take(8) =~= bytes::be(request_id as nat, 8));
            assert(payload.subrange(8, 24) =~= session_id);
        },
        RequestView::Restore { request_id, session_id } => {
            let payload = two_ids_spec(request_id, session_id);
            unframe_frame(3, payload);
            assert(payload.take(8) =~= bytes::be(request_id as nat, 8));
            assert(payload.subrange(8, 24) =~= session_id);
        },
        RequestView::Status { request_id, session_id } => {
            let payload = two_ids_spec(request_id, session_id);
            unframe_frame(4, payload);
            assert(payload.take(8) =~= bytes::be(request_id as nat, 8));
            assert(payload.subrange(8, 24) =~= session_id);
        },
    }
}

/// Reading the frame of a response gives back the response.
pub proof fn response_round_trip(message: ResponseView)
    requires
        message.wf(),
    ensures
        Response::message_of(Response::frame_of(message)) == Ok::<
            ResponseView,
            crate::error::ErrorView,
        >(message),
{
    bytes::be_ranges();
    match message {
        ResponseView::Accepted { request_id, session_id } => {
            let payload = two_ids_spec(request_id, session_id);
            bytes::be_round_trip(request_id as nat, 8);
            unframe_frame(0x81, payload);
            assert(payload.take(8) =~= bytes::be(request_id as nat, 8));
            assert(payload.subrange(8, 24) =~= session_id);
        },
        ResponseView::Status { request_id, session_id, state } => {
            let payload = two_ids_spec(request_id, session_id).push(state_number(state));
            bytes::be_round_trip(request_id as nat, 8);
            unframe_frame(0x82, payload);
            assert(payload.take(8) =~= bytes::be(request_id as nat, 8));
            assert(payload.subrange(8, 24) =~= session_id);
            state_numbers_differ(state, state_of(payload[24]));
        },
        ResponseView::Rejected { request_id, code } => {
            let number = bytes::be(error_number(code) as nat, 2);
            let payload = bytes::be(request_id as nat, 8) + number;
            bytes::be_round_trip(request_id as nat, 8);
            bytes::be_round_trip(error_number(code) as nat, 2);
            unframe_frame(0x83, payload);
            assert(payload.take(8) =~= bytes::be(request_id as nat, 8));
            assert(payload.subrange(8, 10) =~= number);
            error_numbers_differ(code, error_of(error_number(code)));
        },
    }
}

/// A frame has one reading at most: equal frames come from equal requests.
pub proof fn request_frames_differ(a: RequestView, b: RequestView)
    requires
        a.wf(),
        b.wf(),
        Request::frame_of(a) == Request::frame_of(b),
    ensures
        a == b,
{
    request_round_trip(a);
    request_round_trip(b);
}

/// A session state and an error go over the wire under these numbers.
pub proof fn states_and_errors_go_by_these_numbers()
    ensures
        state_number(SessionState::New) == 0,
        state_number(SessionState::Detected) == 1,
        state_number(SessionState::Planned) == 2,
        state_number(SessionState::Snapshotted) == 3,
        state_number(SessionState::IntentDurable) == 4,
        state_number(SessionState::Applying) == 5,
        state_number(SessionState::Active) == 6,
        state_number(SessionState::Restoring) == 7,
        state_number(SessionState::Restored) == 8,
        state_number(SessionState::RollingBack) == 9,
        state_number(SessionState::Degraded) == 10,
        state_number(SessionState::RecoveryPending) == 11,
        error_number(ErrorCode::ConfigError) == 1,
        error_number(ErrorCode::CapabilityError) == 2,
        error_number(ErrorCode::Unsupported) == 3,
        error_number(ErrorCode::AuthorizationError) == 4,
        error_number(ErrorCode::TargetError) == 5,
        error_number(ErrorCode::PlanningError) == 6,
        error_number(ErrorCode::SnapshotError) == 7,
        error_number(ErrorCode::DurabilityError) == 8,
        error_number(ErrorCode::TransportError) == 9,
        error_number(ErrorCode::ApplyError) == 10,
        error_number(ErrorCode::VerificationError) == 11,
        error_number(ErrorCode::RestoreConflict) == 12,
        error_number(ErrorCode::RestoreError) == 13,
        error_number(ErrorCode::JournalCorrupt) == 14,
        error_number(ErrorCode::InvariantViolation) == 15,
        error_number(ErrorCode::InvalidInput) == 16,
{
}

/// What a message asks or answers is told by its number alone, whatever follows:
/// one prepares, two applies, three restores and four asks for the state; an answer
/// accepts, gives the state, or rejects. The sender's number of the request stands
/// first in every one.
pub proof fn messages_are_told_by_their_numbers(tag: u8, payload: Seq<u8>)
    ensures
        request_payload(tag, payload) matches Ok(request) ==> {
            &&& request is Prepare <==> tag == 1
            &&& request is Apply <==> tag == 2
            &&& request is Restore <==> tag == 3
            &&& request is Status <==> tag == 4
            &&& request.id() == bytes::be_value(payload.take(8)) as u64
            &&& request.id() > 0
        },
        response_payload(tag, payload) matches Ok(response) ==> {
            &&& response is Accepted <==> tag == 0x81
            &&& response is Status <==> tag == 0x82
            &&& response is Rejected <==> tag == 0x83
        },
        magic() == seq!['S' as u8, 'B' as u8, 'P' as u8, '1' as u8],
{
    assert('S' as u8 == 0x53u8 && 'B' as u8 == 0x42u8 && 'P' as u8 == 0x50u8 && '1' as u8
        == 0x31u8);
}

} // verus!
