//! The dispatcher's retry policy: up to five attempts per call, an
//! exponentially growing backoff before each retry, and a retry only after
//! a transient network failure — every other outcome ends the call at
//! once.

use vstd::prelude::*;
use crate::errors::MelnetError;

verus! {

/// Attempts allowed per logical call.
pub const MAX_ATTEMPTS: u64 = 5;

/// Overall wall-clock deadline around one call, in milliseconds.
pub const DEADLINE_MS: u64 = 60000;

/// What one network attempt produced: the decoded frame payload of an
/// "Ok" response, or a failure already classified.
#[derive(Clone, Debug, PartialEq, Eq)]
pub enum AttemptOutcome {
    Success(Vec<u8>),
    Failure(MelnetError),
}

/// The dispatcher's decision after one attempt: wait the given number of
/// milliseconds and try again, or finish with the call's result.
#[derive(Debug, PartialEq, Eq)]
pub enum Step {
    Retry(u64),
    Finish(Result<Vec<u8>, MelnetError>),
}

/// Backoff in milliseconds after the 0-based attempt `i` fails
/// transiently: 0.1 * 2^i seconds for i = 0..3.
pub open spec fn spec_backoff_ms(i: int) -> u64 {
    if i <= 0 {
        100
    } else if i == 1 {
        200
    } else if i == 2 {
        400
    } else {
        800
    }
}

/// Runtime backoff table, equal to `spec_backoff_ms`.
pub fn backoff_ms(i: u8) -> (r: u64)
    requires
        i < 4,
    ensures
        r == spec_backoff_ms(i as int),
{
    if i == 0 {
        100
    } else if i == 1 {
        200
    } else if i == 2 {
        400
    } else {
        800
    }
}

/// Decides what follows the 0-based attempt `i`: success and terminal
/// failures finish the call at once; a transient failure is retried after
/// the backoff while attempts remain, and is the call's result on the
/// last attempt.
pub fn next_step(i: u8, outcome: AttemptOutcome) -> (r: Step)
    requires
        i < MAX_ATTEMPTS,
    ensures
        outcome matches AttemptOutcome::Success(v) ==> (r matches Step::Finish(res) && res
            matches Ok(p) && p@ == v@),
        outcome matches AttemptOutcome::Failure(e) ==> (!e.is_transient() ==> (r matches
            Step::Finish(res) && res matches Err(e2) && e2 == e)),
        outcome matches AttemptOutcome::Failure(e) ==> ((e.is_transient() && i < 4) ==> r
            == Step::Retry(spec_backoff_ms(i as int))),
        outcome matches AttemptOutcome::Failure(e) ==> ((e.is_transient() && i == 4) ==> (r
            matches Step::Finish(res) && res matches Err(e2) && e2 == e)),
{
    match outcome {
        AttemptOutcome::Success(v) => Step::Finish(Ok(v)),
        AttemptOutcome::Failure(e) => {
            if e.transient() && i < 4 {
                Step::Retry(backoff_ms(i))
            } else {
                Step::Finish(Err(e))
            }
        },
    }
}

/// What a whole call does, given the outcome each attempt would produce:
/// how many attempts run, which backoff waits happen, and which attempt's
/// outcome becomes the call's result.
pub ghost struct DispatchTrace {
    /// 1-based count of attempts performed.
    pub attempts: int,
    /// The backoff waits performed, in order, in milliseconds.
    pub backoffs: Seq<u64>,
    /// The outcome of the last attempt performed: the call's result.
    pub outcome: AttemptOutcome,
}

/// The dispatcher's behaviour from the 0-based attempt `i` on, mirroring
/// `next_step`: stop on success or a terminal failure, retry a transient
/// one until the attempt budget is spent.
pub open spec fn spec_dispatch(outcomes: Seq<AttemptOutcome>, i: int) -> DispatchTrace
    recommends
        0 <= i < 5,
        outcomes.len() >= 5,
    decreases 5 - i,
{
    let o = outcomes[i];
    if i >= 4 {
        DispatchTrace { attempts: 5, backoffs: Seq::empty(), outcome: o }
    } else if o matches AttemptOutcome::Failure(e) && e.is_transient() {
        let t = spec_dispatch(outcomes, i + 1);
        DispatchTrace {
            attempts: t.attempts,
            backoffs: seq![spec_backoff_ms(i)] + t.backoffs,
            outcome: t.outcome,
        }
    } else {
        DispatchTrace { attempts: i + 1, backoffs: Seq::empty(), outcome: o }
    }
}

/// A success or a terminal failure on any attempt ends the call at once:
/// no retry and no backoff follow it, whatever the remaining budget.
pub proof fn lemma_terminal_never_retried(outcomes: Seq<AttemptOutcome>, i: int)
    requires
        0 <= i <= 4,
        outcomes.len() >= 5,
        !(outcomes[i] matches AttemptOutcome::Failure(e) && e.is_transient()),
    ensures
        spec_dispatch(outcomes, i).attempts == i + 1,
        spec_dispatch(outcomes, i).backoffs.len() == 0,
        spec_dispatch(outcomes, i).outcome == outcomes[i],
{
}

/// A transient failure on a 0-based attempt `i` before the last is
/// followed by a retry, after exactly the specified backoff.
pub proof fn lemma_transient_retried(outcomes: Seq<AttemptOutcome>, i: int)
    requires
        0 <= i < 4,
        outcomes.len() >= 5,
        outcomes[i] matches AttemptOutcome::Failure(e) && e.is_transient(),
    ensures
        spec_dispatch(outcomes, i).attempts > i + 1,
        spec_dispatch(outcomes, i).backoffs.len() > 0,
        spec_dispatch(outcomes, i).backoffs[0] == spec_backoff_ms(i),
{
    lemma_dispatch_attempt_budget(outcomes, i + 1);
}

/// A call performs at least one attempt, and never more than five.
pub proof fn lemma_dispatch_attempt_budget(outcomes: Seq<AttemptOutcome>, i: int)
    requires
        0 <= i <= 4,
        outcomes.len() >= 5,
    ensures
        i + 1 <= spec_dispatch(outcomes, i).attempts <= 5,
    decreases 5 - i,
{
    if i < 4 && (outcomes[i] matches AttemptOutcome::Failure(e) && e.is_transient()) {
        lemma_dispatch_attempt_budget(outcomes, i + 1);
    }
}

/// A transient failure on the fifth attempt is the call's result: no
/// sixth attempt and no further backoff happen.
pub proof fn lemma_fifth_attempt_final(outcomes: Seq<AttemptOutcome>)
    requires
        outcomes.len() >= 5,
    ensures
        spec_dispatch(outcomes, 4).attempts == 5,
        spec_dispatch(outcomes, 4).backoffs.len() == 0,
        spec_dispatch(outcomes, 4).outcome == outcomes[4],
{
}

/// Transient failures on every attempt spend the whole budget: exactly
/// five attempts, the four specified backoff waits in order, and the
/// fifth attempt's failure as the call's result.
pub proof fn lemma_transient_exhausts(outcomes: Seq<AttemptOutcome>)
    requires
        outcomes.len() >= 5,
        forall|i: int|
            0 <= i < 5 ==> ((#[trigger] outcomes[i]) matches AttemptOutcome::Failure(e)
                && e.is_transient()),
    ensures
        spec_dispatch(outcomes, 0).attempts == 5,
        spec_dispatch(outcomes, 0).backoffs =~= seq![100u64, 200u64, 400u64, 800u64],
        spec_dispatch(outcomes, 0).outcome == outcomes[4],
{
    assert(outcomes[0] matches AttemptOutcome::Failure(e) && e.is_transient());
    assert(outcomes[1] matches AttemptOutcome::Failure(e) && e.is_transient());
    assert(outcomes[2] matches AttemptOutcome::Failure(e) && e.is_transient());
    assert(outcomes[3] matches AttemptOutcome::Failure(e) && e.is_transient());
    assert(spec_dispatch(outcomes, 4).attempts == 5);
    assert(spec_dispatch(outcomes, 4).backoffs =~= Seq::<u64>::empty());
    assert(spec_dispatch(outcomes, 3).attempts == 5);
    assert(spec_dispatch(outcomes, 3).backoffs =~= seq![800u64]);
    assert(spec_dispatch(outcomes, 2).attempts == 5);
    assert(spec_dispatch(outcomes, 2).backoffs =~= seq![400u64, 800u64]);
    assert(spec_dispatch(outcomes, 1).attempts == 5);
    assert(spec_dispatch(outcomes, 1).backoffs =~= seq![200u64, 400u64, 800u64]);
    assert(spec_dispatch(outcomes, 0).backoffs =~= seq![100u64, 200u64, 400u64, 800u64]);
}

/// True when the overall deadline has elapsed; the call then fails with
/// `MelnetError::Timeout` whatever its retry state.
pub fn deadline_exceeded(elapsed_ms: u64) -> (r: bool)
    ensures
        r == (elapsed_ms > DEADLINE_MS),
{
    elapsed_ms > DEADLINE_MS
}

} // verus!
