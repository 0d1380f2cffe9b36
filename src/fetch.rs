//! Decisions of the resilient fetch: which statuses fail, and when to try again.
use vstd::prelude::*;

verus! {

/// Seconds to wait between two attempts of one fetch.
pub const RETRY_BACKOFF_SECS: u64 = 3;

/// Seconds after which one request is abandoned.
pub const REQUEST_TIMEOUT_SECS: u64 = 1000;

/// How a failed fetch is tried again, and how long to pause after it.
#[derive(Debug, Clone, Copy, PartialEq, Eq)]
pub struct RetryPolicy {
    /// Attempts allowed after the first one; `None` allows none.
    pub max_retries: Option<u8>,
    /// Seconds between two attempts.
    pub backoff_secs: u64,
    /// Seconds to pause once the fetch is over, whatever its outcome.
    pub delay_secs: Option<u64>,
}

/// Why one fetch failed.
#[derive(Debug, Clone, PartialEq, Eq)]
pub enum FetchError {
    /// The server answered `url` with a status outside 2xx and 3xx.
    HttpStatus { code: u16, url: String },
    /// The request to `url` did not complete: DNS, connection or timeout.
    TransportError { reason: String, url: String },
    /// A disguised fragment from `url` is too short to hold its signature.
    ShortPayload { url: String },
}

/// What the fetch loop does after an attempt.
#[derive(Debug, Clone, Copy, PartialEq, Eq)]
pub enum RetryAction {
    /// Wait this many seconds, then make one more attempt.
    Retry { wait_secs: u64 },
    /// Stop; pause this many seconds first, where given.
    Finish { delay_secs: Option<u64> },
}

/// Number of attempts a policy allows after the first.
pub open spec fn retry_budget(p: RetryPolicy) -> nat {
    match p.max_retries {
        Some(n) => n as nat,
        None => 0,
    }
}

/// Whether a status code counts as a successful answer.
pub open spec fn status_ok(code: u16) -> bool {
    200 <= code && code < 400
}

/// The action after attempt number `made` (counted from 1) had the given outcome.
pub open spec fn next_action(p: RetryPolicy, made: nat, succeeded: bool) -> RetryAction {
    if !succeeded && made <= retry_budget(p) {
        RetryAction::Retry { wait_secs: p.backoff_secs }
    } else {
        RetryAction::Finish { delay_secs: p.delay_secs }
    }
}

impl RetryPolicy {
    /// A policy with the fixed backoff between attempts.
    pub fn new(max_retries: Option<u8>, delay_secs: Option<u64>) -> (r: RetryPolicy)
        ensures
            r.max_retries == max_retries,
            r.delay_secs == delay_secs,
            r.backoff_secs == RETRY_BACKOFF_SECS,
    {
        RetryPolicy { max_retries, backoff_secs: RETRY_BACKOFF_SECS, delay_secs }
    }

    /// Decides what follows attempt number `made` (counted from 1), given its outcome.
    pub fn after_attempt(&self, made: u32, succeeded: bool) -> (r: RetryAction)
        requires
            made >= 1,
        ensures
            r == next_action(*self, made as nat, succeeded),
    {
        let budget: u32 = match self.max_retries {
            Some(n) => n as u32,
            None => 0,
        };
        if !succeeded && made <= budget {
            RetryAction::Retry { wait_secs: self.backoff_secs }
        } else {
            RetryAction::Finish { delay_secs: self.delay_secs }
        }
    }
}

/// Maps the status with which `url` answered to the outcome of the attempt.
pub fn check_status(code: u16, url: &str) -> (r: Result<(), FetchError>)
    ensures
        r is Ok <==> status_ok(code),
        !status_ok(code) ==> (r matches Err(FetchError::HttpStatus { code: c, url: u }) && c == code
            && u@ == url@),
{
    if 200 <= code && code < 400 {
        Ok(())
    } else {
        Err(FetchError::HttpStatus { code, url: String::from_str(url) })
    }
}

/// Attempts a fetch makes when attempt `k + 1` has outcome `outcomes[k]`, after `made`
/// attempts have been made; it stops where the outcomes run out.
pub open spec fn attempts_run(p: RetryPolicy, outcomes: Seq<bool>, made: nat) -> nat
    decreases outcomes.len() - made,
{
    if made >= outcomes.len() {
        made
    } else {
        match next_action(p, made + 1, outcomes[made as int]) {
            RetryAction::Finish { .. } => made + 1,
            RetryAction::Retry { .. } => attempts_run(p, outcomes, made + 1),
        }
    }
}

proof fn lemma_attempts_run(p: RetryPolicy, outcomes: Seq<bool>, made: nat, k: nat)
    requires
        made <= retry_budget(p),
    ensures
        made <= attempts_run(p, outcomes, made) <= retry_budget(p) + 1,
        made < outcomes.len() ==> made < attempts_run(p, outcomes, made),
        made < k <= retry_budget(p) + 1 && k <= outcomes.len() && outcomes[k - 1] && (forall|j: int|
            made <= j < k - 1 ==> !outcomes[j]) ==> attempts_run(p, outcomes, made) == k,
    decreases outcomes.len() - made,
{
    if made < outcomes.len() {
        if !outcomes[made as int] && made + 1 <= retry_budget(p) {
            lemma_attempts_run(p, outcomes, made + 1, k);
        }
    }
}

/// Retry budget: with a budget of N retries a fetch makes at most N + 1 attempts, and one that
/// succeeds at attempt k (k at most N + 1), after k - 1 failures, makes no further attempt.
pub proof fn lemma_retry_budget(p: RetryPolicy, outcomes: Seq<bool>, k: nat)
    ensures
        1 <= outcomes.len() ==> 1 <= attempts_run(p, outcomes, 0),
        attempts_run(p, outcomes, 0) <= retry_budget(p) + 1,
        1 <= k <= retry_budget(p) + 1 && k <= outcomes.len() && outcomes[k - 1] && (forall|j: int|
            0 <= j < k - 1 ==> !outcomes[j]) ==> attempts_run(p, outcomes, 0) == k,
{
    lemma_attempts_run(p, outcomes, 0, k);
}

} // verus!
