use lambda_runtime_core::proto::Response;
use lambda_runtime_core::proto::decode_response;
use lambda_runtime_core::proto::encode_response;

#[test]
fn encode_ping_exact_bytes() {
    let bytes = encode_response(&Response::Ping(0x0102030405060708));
    assert_eq!(bytes, vec![0u8, 1, 2, 3, 4, 5, 6, 7, 8]);
}

#[test]
fn encode_invoke_ok_exact_bytes() {
    let bytes = encode_response(&Response::Invoke(5, Ok(vec![0xAA, 0xBB])));
    assert_eq!(bytes, vec![1u8, 0, 0, 0, 0, 0, 0, 0, 5, 0xAA, 0xBB]);
}

#[test]
fn encode_invoke_err_exact_bytes() {
    let bytes = encode_response(&Response::Invoke(6, Err(vec![0xEE])));
    assert_eq!(bytes, vec![2u8, 0, 0, 0, 0, 0, 0, 0, 6, 0xEE]);
}

#[test]
fn round_trip_ping() {
    let original = Response::Ping(42);
    let bytes = encode_response(&original);
    match decode_response(&bytes) {
        Some(Response::Ping(seq)) => assert_eq!(seq, 42),
        _ => panic!("ping did not round-trip"),
    }
}

#[test]
fn round_trip_invoke_ok() {
    let payload = vec![1u8, 2, 3, 4];
    let original = Response::Invoke(7, Ok(payload.clone()));
    let bytes = encode_response(&original);
    match decode_response(&bytes) {
        Some(Response::Invoke(seq, Ok(p))) => {
            assert_eq!(seq, 7);
            assert_eq!(p, payload);
        },
        _ => panic!("successful invocation did not round-trip"),
    }
}

#[test]
fn round_trip_invoke_err() {
    let error = vec![9u8, 9];
    let original = Response::Invoke(u64::MAX, Err(error.clone()));
    let bytes = encode_response(&original);
    match decode_response(&bytes) {
        Some(Response::Invoke(seq, Err(e))) => {
            assert_eq!(seq, u64::MAX);
            assert_eq!(e, error);
        },
        _ => panic!("failed invocation did not round-trip"),
    }
}

#[test]
fn decode_rejects_short_frame() {
    assert!(decode_response(&vec![0u8, 1, 2]).is_none());
    assert!(decode_response(&Vec::new()).is_none());
}

#[test]
fn decode_rejects_unknown_tag() {
    assert!(decode_response(&vec![9u8, 0, 0, 0, 0, 0, 0, 0, 1]).is_none());
}

#[test]
fn decode_rejects_ping_with_trailing_bytes() {
    assert!(decode_response(&vec![0u8, 0, 0, 0, 0, 0, 0, 0, 1, 7]).is_none());
}
