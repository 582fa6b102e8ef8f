//! Single-retry recovery from rate limiting and expired authorisation.

use vstd::prelude::*;

verus! {

/// How an upstream attempt ended.
pub enum AttemptOutcome {
    /// A successful response.
    Success,
    /// A response with an error status.
    Status(u16),
    /// No response at all.
    Transport,
}

/// What to do after an attempt.
pub enum RetryAction {
    /// Use the response.
    Proceed,
    /// Wait this many seconds, then try once more.
    WaitThenRetry(u64),
    /// Obtain a new access token, then try once more.
    ReauthenticateThenRetry,
    /// Give up and report the failure.
    Fail,
}

/// The cool-down after a rate-limited feed request, in seconds.
pub const RATE_LIMIT_COOL_DOWN_SECS: u64 = 60;

/// The decision after attempt number `attempt` (from 0) of a feed poll:
/// a rate-limited first attempt waits the cool-down and is retried once.
pub open spec fn feed_action_spec(attempt: u32, outcome: AttemptOutcome) -> RetryAction {
    match outcome {
        AttemptOutcome::Success => RetryAction::Proceed,
        AttemptOutcome::Status(code) => if code == 429 && attempt == 0 {
            RetryAction::WaitThenRetry(RATE_LIMIT_COOL_DOWN_SECS)
        } else {
            RetryAction::Fail
        },
        AttemptOutcome::Transport => RetryAction::Fail,
    }
}

/// The decision after attempt number `attempt` (from 0) of an authenticated
/// call: a first attempt refused as unauthorised re-authenticates and is
/// retried once.
pub open spec fn auth_action_spec(attempt: u32, outcome: AttemptOutcome) -> RetryAction {
    match outcome {
        AttemptOutcome::Success => RetryAction::Proceed,
        AttemptOutcome::Status(code) => if code == 401 && attempt == 0 {
            RetryAction::ReauthenticateThenRetry
        } else {
            RetryAction::Fail
        },
        AttemptOutcome::Transport => RetryAction::Fail,
    }
}

/// What a feed poll does after an attempt.
pub fn feed_retry_action(attempt: u32, outcome: &AttemptOutcome) -> (r: RetryAction)
    ensures
        r == feed_action_spec(attempt, *outcome),
{
    match outcome {
        AttemptOutcome::Success => RetryAction::Proceed,
        AttemptOutcome::Status(code) => {
            if *code == 429 && attempt == 0 {
                RetryAction::WaitThenRetry(RATE_LIMIT_COOL_DOWN_SECS)
            } else {
                RetryAction::Fail
            }
        },
        AttemptOutcome::Transport => RetryAction::Fail,
    }
}

/// What an authenticated call does after an attempt.
pub fn auth_retry_action(attempt: u32, outcome: &AttemptOutcome) -> (r: RetryAction)
    ensures
        r == auth_action_spec(attempt, *outcome),
{
    match outcome {
        AttemptOutcome::Success => RetryAction::Proceed,
        AttemptOutcome::Status(code) => {
            if *code == 401 && attempt == 0 {
                RetryAction::ReauthenticateThenRetry
            } else {
                RetryAction::Fail
            }
        },
        AttemptOutcome::Transport => RetryAction::Fail,
    }
}

/// At most one retry: no attempt after the first is ever retried.
pub proof fn lemma_single_retry(attempt: u32, outcome: AttemptOutcome)
    requires
        attempt >= 1,
    ensures
        feed_action_spec(attempt, outcome) is Proceed || feed_action_spec(attempt, outcome) is Fail,
        auth_action_spec(attempt, outcome) is Proceed || auth_action_spec(attempt, outcome) is Fail,
{
}

/// The largest batch the metered platform-A API takes.
pub const YT_MAX_BATCH: usize = 50;

/// The largest batch the platform-B API takes.
pub const TW_MAX_BATCH: usize = 100;

/// Splits `len` items into consecutive batches of `size`, the last possibly
/// shorter: the half-open ranges of the batches, in order.
pub fn batch_bounds(len: usize, size: usize) -> (r: Vec<(usize, usize)>)
    requires
        size > 0,
    ensures
        len == 0 ==> r@.len() == 0,
        len > 0 ==> r@.len() > 0 && r@[0].0 == 0 && r@.last().1 == len
            && 0 < r@.last().1 - r@.last().0 <= size,
        forall|j: int| 0 <= j < r@.len() - 1 ==> #[trigger] r@[j].1 == r@[j + 1].0 && r@[j].1 - r@[j].0 == size,
{
    let mut out: Vec<(usize, usize)> = Vec::new();
    let mut start: usize = 0;
    while start < len
        invariant
            start <= len,
            size > 0,
            out@.len() == 0 ==> start == 0,
            out@.len() > 0 ==> out@.last().1 == start && 0 < out@.last().1 - out@.last().0 <= size
                && out@[0].0 == 0,
            out@.len() > 0 && start < len ==> out@.last().1 - out@.last().0 == size,
            forall|j: int| 0 <= j < out@.len() - 1 ==> #[trigger] out@[j].1 == out@[j + 1].0 && out@[j].1 - out@[j].0 == size,
        decreases len - start,
    {
        let end = if len - start > size { start + size } else { len };
        let ghost before = out@;
        out.push((start, end));
        proof {
            assert forall|j: int| 0 <= j < out@.len() - 1 implies #[trigger] out@[j].1 == out@[j + 1].0 && out@[j].1 - out@[j].0 == size by {
                if j < before.len() - 1 {
                    assert(out@[j] == before[j] && out@[j + 1] == before[j + 1]);
                } else {
                    assert(out@[j] == before.last());
                }
            }
        }
        start = end;
    }
    out
}

} // verus!
