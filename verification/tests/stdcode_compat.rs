//! The envelope layout against the codec the wire peers use: a tuple of
//! the same fields must serialize to byte-identical output, in both
//! directions.

use melnet_client::RawRequest;
use melnet_client::RawResponse;
use melnet_client::wire::decode_response;
use melnet_client::wire::encode_request;
use melnet_client::wire::encode_response;

#[test]
fn request_encoding_matches_stdcode() {
    let req = RawRequest {
        proto_ver: 1,
        netname: b"net".to_vec(),
        verb: b"echo".to_vec(),
        payload: vec![5],
    };
    let ours = encode_request(&req);
    let theirs = stdcode::serialize(&(
        1u8,
        String::from("net"),
        String::from("echo"),
        vec![5u8],
    ))
    .unwrap();
    assert_eq!(ours, theirs);
}

#[test]
fn response_encoding_matches_stdcode() {
    let resp = RawResponse { kind: b"Ok".to_vec(), body: vec![9u8; 300] };
    let ours = encode_response(&resp);
    let theirs = stdcode::serialize(&(String::from("Ok"), vec![9u8; 300])).unwrap();
    assert_eq!(ours, theirs);
}

#[test]
fn decode_accepts_stdcode_output() {
    let theirs = stdcode::serialize(&(String::from("NoVerb"), Vec::<u8>::new())).unwrap();
    let back = decode_response(&theirs).expect("peer-encoded response must decode");
    assert_eq!(back.kind, b"NoVerb".to_vec());
    assert_eq!(back.body, Vec::<u8>::new());
}

#[test]
fn stdcode_accepts_our_output() {
    let resp = RawResponse { kind: b"Error".to_vec(), body: b"boom".to_vec() };
    let ours = encode_response(&resp);
    let (kind, body): (String, Vec<u8>) = stdcode::deserialize(&ours).unwrap();
    assert_eq!(kind, "Error");
    assert_eq!(body, b"boom".to_vec());
}
