use vstd::prelude::*;

verus! {

/// Seconds to wait after the service says that the day's quota is spent.
pub const DAY_SECONDS: u64 = 86400;

/// Why a single-record lookup gave up on its record.
#[derive(Debug, PartialEq, Eq, Structural)]
pub enum LookupError {
    /// The record has no identifier; nothing was sent.
    EmptyIdentifier,
    /// The service answered, without a DOI for the record.
    MissingDoi,
    /// No usable answer came: the request or the reading of its answer failed.
    Transport,
}

/// What the service's answer to one single-record request said.
pub enum SingleAnswer {
    /// The answer carries the soft quota signal.
    QuotaExceeded,
    /// The answer carries this DOI.
    Found(String),
    /// The answer carries no DOI.
    NoDoi,
    /// The request failed, or its answer could not be read.
    Failed,
}

/// What to do next for the record being looked up.
pub enum LookupStep {
    /// Wait for the rate limiter, then send the request for the identifier.
    Call,
    /// Sleep this many seconds, then wait for the rate limiter and ask again.
    Cooldown(u64),
    /// The record's DOI.
    Done(String),
    /// Give the record up, log it, and go on with the next one.
    Skip(LookupError),
}

/// The wait after a soft quota signal; there is no cap on retries.
pub struct RetryPolicy {
    pub cooldown_secs: u64,
}

impl RetryPolicy {
    /// A wait of a full day.
    pub fn daily() -> (p: RetryPolicy)
        ensures
            p.cooldown_secs == DAY_SECONDS,
    {
        RetryPolicy { cooldown_secs: DAY_SECONDS }
    }
}

/// The first step for a record: an empty identifier is given up at once,
/// without a request; any other is sent.
pub fn start_single_lookup(uid: &String) -> (s: LookupStep)
    ensures
        uid@.len() == 0 ==> s == LookupStep::Skip(LookupError::EmptyIdentifier),
        uid@.len() > 0 ==> s is Call,
{
    if uid.as_str().is_empty() {
        LookupStep::Skip(LookupError::EmptyIdentifier)
    } else {
        LookupStep::Call
    }
}

/// The step after an answer: the quota signal leads to the policy's wait and
/// a new request for the same record; a DOI ends the lookup; an answer
/// without one, or none at all, gives the record up.
pub fn after_single_answer(answer: SingleAnswer, policy: &RetryPolicy) -> (s: LookupStep)
    ensures
        answer is QuotaExceeded ==> s == LookupStep::Cooldown(policy.cooldown_secs),
        answer is Found ==> s == LookupStep::Done(answer->Found_0),
        answer is NoDoi ==> s == LookupStep::Skip(LookupError::MissingDoi),
        answer is Failed ==> s == LookupStep::Skip(LookupError::Transport),
{
    match answer {
        SingleAnswer::QuotaExceeded => LookupStep::Cooldown(policy.cooldown_secs),
        SingleAnswer::Found(doi) => LookupStep::Done(doi),
        SingleAnswer::NoDoi => LookupStep::Skip(LookupError::MissingDoi),
        SingleAnswer::Failed => LookupStep::Skip(LookupError::Transport),
    }
}

} // verus!
