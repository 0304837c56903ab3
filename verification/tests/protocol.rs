use sysboost::error::ErrorCode;
use sysboost::ids::{PlanId, SessionId};
use sysboost::protocol::{frame, unframe, Request, RequestId, Response, WireCodec, MAX_FRAME_BYTES};
use sysboost::session::SessionState;

#[test]
fn request_round_trips_without_raw_path_fields() {
    let request = Request::Prepare {
        request_id: RequestId::new(7).expect("not zero"),
        plan_id: PlanId::from_bytes([1; 16]),
        plan_digest: [2; 32],
    };
    let encoded = request.encode().expect("bounded encoding");
    let decoded = Request::decode(&encoded).expect("valid frame");
    assert_eq!(decoded, request);
}

#[test]
fn response_round_trips_session_state() {
    let response = Response::Status {
        request_id: RequestId::new(9).expect("not zero"),
        session_id: SessionId::from_bytes([3; 16]),
        state: SessionState::Degraded,
    };
    let encoded = response.encode().expect("bounded encoding");
    let decoded = Response::decode(&encoded).expect("valid frame");
    assert_eq!(decoded, response);
}

#[test]
fn malformed_frame_is_rejected() {
    assert!(Request::decode(b"not-a-frame").is_err());
}

#[test]
fn oversized_frame_is_rejected_at_protocol_boundary() {
    let oversized = vec![0_u8; MAX_FRAME_BYTES + 1];
    assert!(Request::decode(&oversized).is_err());
}

#[test]
fn unknown_operation_or_enum_discriminant_is_rejected() {
    let mut unknown_request = vec![b'S', b'B', b'P', b'1', 0, 1, 0xff, 0, 0, 0, 8];
    unknown_request.extend_from_slice(&1_u64.to_be_bytes());
    assert_eq!(
        Request::decode(&unknown_request)
            .expect_err("unknown request operation")
            .code,
        ErrorCode::TransportError
    );

    let mut unknown_state = vec![b'S', b'B', b'P', b'1', 0, 1, 0x82, 0, 0, 0, 25];
    unknown_state.extend_from_slice(&1_u64.to_be_bytes());
    unknown_state.extend_from_slice(&[2; 16]);
    unknown_state.push(0xff);
    assert_eq!(
        Response::decode(&unknown_state)
            .expect_err("unknown session-state enum")
            .code,
        ErrorCode::TransportError
    );
}

#[test]
fn frames_have_the_documented_bytes() {
    let request = Request::Apply {
        request_id: RequestId::new(0x0102).expect("not zero"),
        session_id: SessionId::from_bytes([5; 16]),
    };
    let mut expected = vec![b'S', b'B', b'P', b'1', 0, 1, 0x02, 0, 0, 0, 24];
    expected.extend_from_slice(&0x0102_u64.to_be_bytes());
    expected.extend_from_slice(&[5; 16]);
    assert_eq!(request.encode().expect("bounded encoding"), expected);
}

#[test]
fn trailing_bytes_are_rejected() {
    let request = Request::Status {
        request_id: RequestId::new(1).expect("not zero"),
        session_id: SessionId::from_bytes([5; 16]),
    };
    let mut encoded = request.encode().expect("bounded encoding");
    encoded.push(0);
    assert_eq!(
        Request::decode(&encoded).expect_err("one byte too many").code,
        ErrorCode::TransportError
    );
}

#[test]
fn request_numbers_are_not_zero() {
    assert!(RequestId::new(0).is_err());
    assert_eq!(RequestId::new(1).expect("not zero").get(), 1);
}

#[test]
fn frames_that_are_read_are_written_alike() {
    let mut frame = vec![b'S', b'B', b'P', b'1', 0, 1, 0x02, 0, 0, 0, 24];
    frame.extend_from_slice(&7_u64.to_be_bytes());
    frame.extend_from_slice(&[9; 16]);
    let request = Request::decode(&frame).expect("a frame");
    assert_eq!(
        request,
        Request::Apply {
            request_id: RequestId::new(7).expect("not zero"),
            session_id: SessionId::from_bytes([9; 16]),
        }
    );
    assert_eq!(request.encode().expect("bounded encoding"), frame);
}

#[test]
fn payloads_are_framed_and_unframed() {
    let framed = frame(0x07, &[1, 2]).expect("short enough");
    assert_eq!(framed, vec![b'S', b'B', b'P', b'1', 0, 1, 0x07, 0, 0, 0, 2, 1, 2]);
    let (tag, payload) = unframe(&framed).expect("a frame");
    assert_eq!((tag, payload), (0x07, &[1_u8, 2][..]));
    let longest = vec![0_u8; MAX_FRAME_BYTES - 11];
    assert_eq!(frame(1, &longest).expect("just short enough").len(), MAX_FRAME_BYTES);
    let too_long = vec![0_u8; MAX_FRAME_BYTES - 10];
    assert_eq!(frame(1, &too_long).expect_err("too long").code, ErrorCode::TransportError);
    let mut other = framed.clone();
    other[3] = b'2';
    for broken in [&framed[..12], &framed[..10], &other[..]] {
        assert_eq!(unframe(broken).expect_err("no frame").code, ErrorCode::TransportError);
    }
}
