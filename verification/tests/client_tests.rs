//! The shared client end to end: per-destination pools behind one handle,
//! admission, and whole-call scenarios composed from the verified pieces
//! the way the transport loop composes them.

use melnet_client::AttemptOutcome;
use melnet_client::Classified;
use melnet_client::Client;
use melnet_client::Destination;
use melnet_client::LeaseDecision;
use melnet_client::MelnetError;
use melnet_client::RawRequest;
use melnet_client::RawResponse;
use melnet_client::Step;
use melnet_client::classify::interpret_response;
use melnet_client::retry::next_step;
use melnet_client::wire::build_request_frame;
use melnet_client::wire::decode_request;
use melnet_client::wire::encode_response;
use melnet_client::wire::frame;
use melnet_client::wire::unframe;

fn dest(n: u16) -> Destination {
    Destination { host: 0x7f000001, port: n }
}

#[test]
fn client_creates_pool_lazily_and_reuses_it() {
    let mut c = Client::new();
    assert_eq!(c.lease(dest(1)), LeaseDecision::ConnectNew(0));
    assert!(c.replenish(dest(1), 0, 100));
    assert_eq!(c.lease(dest(1)), LeaseDecision::ReuseIdle(0));
}

#[test]
fn client_admission_cap() {
    let mut c = Client::new();
    for _ in 0..128 {
        assert!(c.try_admit());
    }
    assert!(!c.try_admit());
    assert!(c.release_admission());
    assert!(c.try_admit());
}

#[test]
fn exhausted_destination_does_not_poison_others() {
    let mut c = Client::new();
    for i in 0..32u64 {
        assert_eq!(c.lease(dest(1)), LeaseDecision::ConnectNew(i));
    }
    assert_eq!(c.lease(dest(1)), LeaseDecision::AtCapacity);
    // a different destination still gets its own fresh pool
    assert_eq!(c.lease(dest(2)), LeaseDecision::ConnectNew(0));
    // and the first destination recovers once a connection is discarded
    assert!(c.discard(dest(1), 5));
    assert_eq!(c.lease(dest(1)), LeaseDecision::ConnectNew(32));
}

/// A scripted server: answers "echo" by returning the request payload,
/// any other verb with kind "NoVerb".
fn fake_server(frame_bytes: &Vec<u8>) -> Vec<u8> {
    let envelope = unframe(frame_bytes).expect("server: bad frame");
    let req = decode_request(&envelope).expect("server: bad envelope");
    let resp = if req.verb == b"echo".to_vec() {
        RawResponse { kind: b"Ok".to_vec(), body: req.payload }
    } else {
        RawResponse { kind: b"NoVerb".to_vec(), body: Vec::new() }
    };
    frame(&encode_response(&resp))
}

/// One network attempt against the scripted server, with the client's
/// bookkeeping around it.
fn one_attempt(c: &mut Client, d: Destination, verb: &[u8], payload: Vec<u8>) -> AttemptOutcome {
    assert!(c.try_admit());
    let lease = c.lease(d);
    let conn = match lease {
        LeaseDecision::ReuseIdle(id) => id,
        LeaseDecision::ConnectNew(id) => id,
        LeaseDecision::AtCapacity => {
            assert!(c.release_admission());
            return AttemptOutcome::Failure(MelnetError::Network);
        }
    };
    let req = RawRequest {
        proto_ver: 1,
        netname: b"net".to_vec(),
        verb: verb.to_vec(),
        payload,
    };
    let framed = build_request_frame(&req).expect("request must frame");
    let reply = fake_server(&framed);
    let reply_envelope = unframe(&reply).expect("client: bad reply frame");
    let outcome = match interpret_response(&reply_envelope) {
        Classified::Payload(body) => {
            assert!(c.replenish(d, conn, 100));
            AttemptOutcome::Success(body)
        }
        Classified::Error(e) => {
            assert!(c.discard(d, conn));
            AttemptOutcome::Failure(e)
        }
    };
    assert!(c.release_admission());
    outcome
}

#[test]
fn echo_call_succeeds_first_attempt_and_reuses_connection() {
    let mut c = Client::new();
    let d = dest(9);
    let outcome = one_attempt(&mut c, d, b"echo", vec![5]);
    assert_eq!(outcome, AttemptOutcome::Success(vec![5]));
    match next_step(0, outcome) {
        Step::Finish(res) => assert_eq!(res, Ok(vec![5])),
        Step::Retry(_) => panic!("a success must not be retried"),
    }
    // a second immediate call to the same destination reuses the connection
    assert_eq!(c.lease(d), LeaseDecision::ReuseIdle(0));
}

#[test]
fn missing_verb_fails_immediately_without_retry() {
    let mut c = Client::new();
    let d = dest(9);
    let outcome = one_attempt(&mut c, d, b"missing", vec![1]);
    assert_eq!(outcome, AttemptOutcome::Failure(MelnetError::VerbNotFound));
    match next_step(0, outcome) {
        Step::Finish(res) => assert_eq!(res, Err(MelnetError::VerbNotFound)),
        Step::Retry(_) => panic!("a terminal failure must not be retried"),
    }
    // the failed attempt's connection was discarded, not returned
    assert_eq!(c.lease(d), LeaseDecision::ConnectNew(1));
}
