//! The retry policy and response classification, driven the way the
//! dispatcher drives them: one `next_step` decision after each attempt.

use melnet_client::AttemptOutcome;
use melnet_client::Classified;
use melnet_client::MelnetError;
use melnet_client::RawResponse;
use melnet_client::Step;
use melnet_client::classify::classify_response;
use melnet_client::classify::interpret_response;
use melnet_client::retry::backoff_ms;
use melnet_client::retry::deadline_exceeded;
use melnet_client::retry::next_step;
use melnet_client::wire::encode_response;

/// Drives the retry loop over scripted attempt outcomes, returning the
/// backoff waits performed and the final result.
fn run_dispatch(
    mut outcomes: Vec<AttemptOutcome>,
) -> (usize, Vec<u64>, Result<Vec<u8>, MelnetError>) {
    let mut backoffs: Vec<u64> = Vec::new();
    let mut attempts: usize = 0;
    let mut i: u8 = 0;
    loop {
        assert!(!outcomes.is_empty(), "dispatcher demanded more attempts than scripted");
        attempts += 1;
        let outcome = outcomes.remove(0);
        match next_step(i, outcome) {
            Step::Retry(ms) => {
                backoffs.push(ms);
                i += 1;
            }
            Step::Finish(res) => return (attempts, backoffs, res),
        }
    }
}

#[test]
fn backoff_schedule() {
    assert_eq!(backoff_ms(0), 100);
    assert_eq!(backoff_ms(1), 200);
    assert_eq!(backoff_ms(2), 400);
    assert_eq!(backoff_ms(3), 800);
}

#[test]
fn success_finishes_first_attempt() {
    let (attempts, backoffs, res) = run_dispatch(vec![AttemptOutcome::Success(vec![5])]);
    assert_eq!(attempts, 1);
    assert_eq!(backoffs, Vec::<u64>::new());
    assert_eq!(res, Ok(vec![5]));
}

#[test]
fn verb_not_found_never_retried() {
    let (attempts, backoffs, res) =
        run_dispatch(vec![AttemptOutcome::Failure(MelnetError::VerbNotFound)]);
    assert_eq!(attempts, 1);
    assert_eq!(backoffs, Vec::<u64>::new());
    assert_eq!(res, Err(MelnetError::VerbNotFound));
}

#[test]
fn application_error_never_retried() {
    // even with retry budget left after a transient failure
    let (attempts, backoffs, res) = run_dispatch(vec![
        AttemptOutcome::Failure(MelnetError::Network),
        AttemptOutcome::Failure(MelnetError::Custom(b"boom".to_vec())),
    ]);
    assert_eq!(attempts, 2);
    assert_eq!(backoffs, vec![100]);
    assert_eq!(res, Err(MelnetError::Custom(b"boom".to_vec())));
}

#[test]
fn decode_error_never_retried() {
    let (attempts, backoffs, res) =
        run_dispatch(vec![AttemptOutcome::Failure(MelnetError::DecodeError)]);
    assert_eq!(attempts, 1);
    assert_eq!(backoffs, Vec::<u64>::new());
    assert_eq!(res, Err(MelnetError::DecodeError));
}

#[test]
fn two_refusals_then_success() {
    let (attempts, backoffs, res) = run_dispatch(vec![
        AttemptOutcome::Failure(MelnetError::Network),
        AttemptOutcome::Failure(MelnetError::Network),
        AttemptOutcome::Success(vec![1, 2]),
    ]);
    assert_eq!(attempts, 3);
    assert_eq!(backoffs, vec![100, 200]);
    assert_eq!(res, Ok(vec![1, 2]));
}

#[test]
fn all_attempts_transient() {
    let (attempts, backoffs, res) = run_dispatch(vec![
        AttemptOutcome::Failure(MelnetError::Network),
        AttemptOutcome::Failure(MelnetError::Network),
        AttemptOutcome::Failure(MelnetError::Network),
        AttemptOutcome::Failure(MelnetError::Network),
        AttemptOutcome::Failure(MelnetError::Network),
    ]);
    assert_eq!(attempts, 5);
    assert_eq!(backoffs, vec![100, 200, 400, 800]);
    assert_eq!(res, Err(MelnetError::Network));
}

#[test]
fn deadline_boundary() {
    assert!(!deadline_exceeded(0));
    assert!(!deadline_exceeded(60000));
    assert!(deadline_exceeded(60001));
}

#[test]
fn classify_ok_carries_payload() {
    let resp = RawResponse { kind: b"Ok".to_vec(), body: vec![42] };
    assert_eq!(classify_response(resp), Classified::Payload(vec![42]));
}

#[test]
fn classify_noverb() {
    let resp = RawResponse { kind: b"NoVerb".to_vec(), body: Vec::new() };
    assert_eq!(classify_response(resp), Classified::Error(MelnetError::VerbNotFound));
}

#[test]
fn classify_other_kind_is_application_error() {
    let resp = RawResponse { kind: b"Err".to_vec(), body: b"no such user".to_vec() };
    assert_eq!(
        classify_response(resp),
        Classified::Error(MelnetError::Custom(b"no such user".to_vec()))
    );
}

#[test]
fn interpret_corrupt_envelope_is_network() {
    let garbage = vec![255, 1, 2];
    assert_eq!(interpret_response(&garbage), Classified::Error(MelnetError::Network));
}

#[test]
fn interpret_valid_envelope() {
    let resp = RawResponse { kind: b"Ok".to_vec(), body: vec![5] };
    let bytes = encode_response(&resp);
    assert_eq!(interpret_response(&bytes), Classified::Payload(vec![5]));
}

#[test]
fn transient_classification() {
    assert!(MelnetError::Network.transient());
    assert!(!MelnetError::VerbNotFound.transient());
    assert!(!MelnetError::Custom(Vec::new()).transient());
    assert!(!MelnetError::DecodeError.transient());
    assert!(!MelnetError::Timeout.transient());
}
