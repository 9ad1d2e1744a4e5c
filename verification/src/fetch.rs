//! The fetch client's retry policy as a pure state machine. The host
//! performs the actual request and hands each attempt's outcome back; the
//! decision whether to return, back off and retry, or give up is verified
//! here.
use vstd::prelude::*;

verus! {

/// The default number of attempts a fetch is allowed.
pub const DEFAULT_RETRIES: u32 = 3;

/// Seconds to wait between attempts; fixed interval, no jitter.
pub const BACKOFF_SECONDS: u64 = 1;

/// Per-request timeout in seconds.
pub const TIMEOUT_SECONDS: u64 = 30;

/// The identifying user-agent string sent with every request.
pub const USER_AGENT: &'static str = "Mozilla/5.0 (Windows NT 10.0; Win64; x64) AppleWebKit/537.36 (KHTML, like Gecko) Chrome/91.0.4472.124 Safari/537.36";

/// What one attempt produced: a decoded body, a transport error, an
/// unsuccessful status, or a body that could not be decoded as text.
pub enum AttemptOutcome {
    Success(String),
    TransportError(String),
    HttpStatus(u16),
    BodyDecodeError(String),
}

/// The outcome counts as a failure.
pub open spec fn is_failure(o: AttemptOutcome) -> bool {
    !(o is Success)
}

/// What the host must do next: hand the body to the caller, sleep one
/// backoff interval and try again, or surface the last failure.
pub enum FetchStep {
    Done(String),
    RetryAfterBackoff,
    Fail(AttemptOutcome),
}

/// The retry budget of one fetch in flight.
pub struct RetryState {
    pub retries_left: u32,
}

impl RetryState {
    /// A fresh fetch with the default budget.
    pub fn new() -> (s: Self)
        ensures
            s.retries_left == DEFAULT_RETRIES,
    {
        RetryState { retries_left: DEFAULT_RETRIES }
    }

    /// A fresh fetch with a chosen budget.
    pub fn with_retries(retries: u32) -> (s: Self)
        ensures
            s.retries_left == retries,
    {
        RetryState { retries_left: retries }
    }

    /// Decides after one attempt. A success is returned at once, without
    /// touching the budget and without any further backoff sleep. A
    /// failure spends one attempt; the last failure is surfaced, an
    /// earlier one answered with a backoff retry.
    pub fn on_attempt(&mut self, outcome: AttemptOutcome) -> (step: FetchStep)
        requires
            old(self).retries_left > 0,
        ensures
            outcome matches AttemptOutcome::Success(b) ==> step == FetchStep::Done(b)
                && final(self).retries_left == old(self).retries_left,
            is_failure(outcome) ==> final(self).retries_left == old(self).retries_left - 1,
            is_failure(outcome) && old(self).retries_left > 1 ==> step
                == FetchStep::RetryAfterBackoff,
            is_failure(outcome) && old(self).retries_left == 1 ==> step == FetchStep::Fail(
                outcome,
            ),
    {
        match outcome {
            AttemptOutcome::Success(body) => FetchStep::Done(body),
            other => {
                self.retries_left = self.retries_left - 1;
                if self.retries_left == 0 {
                    FetchStep::Fail(other)
                } else {
                    FetchStep::RetryAfterBackoff
                }
            },
        }
    }
}

} // verus!
