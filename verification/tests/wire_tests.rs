use melnet_client::RawRequest;
use melnet_client::RawResponse;
use melnet_client::wire::build_request_frame;
use melnet_client::wire::decode_request;
use melnet_client::wire::decode_response;
use melnet_client::wire::encode_request;
use melnet_client::wire::encode_response;
use melnet_client::wire::frame;
use melnet_client::wire::frame_len;
use melnet_client::wire::unframe;

fn sample_request() -> RawRequest {
    RawRequest {
        proto_ver: 1,
        netname: b"net".to_vec(),
        verb: b"echo".to_vec(),
        payload: vec![5],
    }
}

#[test]
fn request_exact_bytes() {
    let bytes = encode_request(&sample_request());
    let expected = vec![
        1, // protocol version
        3, b'n', b'e', b't', // netname, length-prefixed
        4, b'e', b'c', b'h', b'o', // verb, length-prefixed
        1, 5, // payload, length-prefixed
    ];
    assert_eq!(bytes, expected);
}

#[test]
fn response_exact_bytes() {
    let resp = RawResponse { kind: b"Ok".to_vec(), body: vec![1, 2, 3] };
    let bytes = encode_response(&resp);
    assert_eq!(bytes, vec![2, b'O', b'k', 3, 1, 2, 3]);
}

#[test]
fn request_roundtrip() {
    let req = sample_request();
    let bytes = encode_request(&req);
    let back = decode_request(&bytes).expect("well-formed request must decode");
    assert_eq!(back, req);
}

#[test]
fn response_roundtrip() {
    let resp = RawResponse { kind: b"Ok".to_vec(), body: (0..=255).collect() };
    let bytes = encode_response(&resp);
    let back = decode_response(&bytes).expect("well-formed response must decode");
    assert_eq!(back, resp);
}

#[test]
fn response_roundtrip_wide_length() {
    // a body longer than 250 bytes forces the two-byte length form
    let resp = RawResponse { kind: b"Ok".to_vec(), body: vec![7u8; 300] };
    let bytes = encode_response(&resp);
    assert_eq!(bytes[3], 251); // width tag of the body length
    assert_eq!(bytes[4], 44); // 300 = 44 + 1 * 256, little endian
    assert_eq!(bytes[5], 1);
    let back = decode_response(&bytes).expect("well-formed response must decode");
    assert_eq!(back, resp);
}

#[test]
fn decode_rejects_trailing_bytes() {
    let resp = RawResponse { kind: b"Ok".to_vec(), body: vec![1] };
    let mut bytes = encode_response(&resp);
    bytes.push(0);
    assert_eq!(decode_response(&bytes), None);
}

#[test]
fn decode_rejects_truncation() {
    let resp = RawResponse { kind: b"Ok".to_vec(), body: vec![1, 2, 3] };
    let mut bytes = encode_response(&resp);
    bytes.pop();
    assert_eq!(decode_response(&bytes), None);
}

#[test]
fn decode_rejects_noncanonical_length() {
    // 251-tagged two-byte length holding a value that fits one byte
    let bytes = vec![251, 2, 0, b'O', b'k', 0];
    assert_eq!(decode_response(&bytes), None);
}

#[test]
fn frame_roundtrip() {
    let payload = vec![9, 8, 7];
    let framed = frame(&payload);
    assert_eq!(framed, vec![0, 0, 0, 3, 9, 8, 7]);
    assert_eq!(frame_len(&framed), Some(3));
    assert_eq!(unframe(&framed), Some(payload));
}

#[test]
fn unframe_rejects_bad_lengths() {
    assert_eq!(unframe(&vec![0, 0, 0]), None); // too short for a prefix
    assert_eq!(unframe(&vec![0, 0, 0, 2, 1]), None); // truncated payload
    assert_eq!(unframe(&vec![0, 0, 0, 1, 1, 1]), None); // trailing byte
    assert_eq!(frame_len(&vec![0, 0]), None);
}

#[test]
fn request_frame_end_to_end() {
    let req = sample_request();
    let framed = build_request_frame(&req).expect("small request must frame");
    let envelope = unframe(&framed).expect("frame must carry the envelope");
    assert_eq!(envelope, encode_request(&req));
    let back = decode_request(&envelope).expect("envelope must decode");
    assert_eq!(back, req);
}
