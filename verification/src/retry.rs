//! The retry policy: how often a failed operation is tried again, and after
//! what delay.

use vstd::prelude::*;

verus! {

/// Failures that a bounded policy forgives.
pub const MAX_ATTEMPTS: u32 = 3;

/// Seconds between two tries.
pub const RETRY_DELAY: u64 = 5;

/// A retry policy: the number of failures that are forgiven, or `None` for
/// no limit, and the delay before the next try.
#[derive(Debug, Clone, Copy, PartialEq, Eq, Structural)]
pub struct RetryPolicy {
    pub max_attempts: Option<u32>,
    pub delay_secs: u64,
}

/// What to do after a failure.
#[derive(Debug, Clone, Copy, PartialEq, Eq, Structural)]
pub enum RetryStep {
    /// Wait, then try again; `attempts` failures have been counted.
    Wait { secs: u64, attempts: u32 },
    /// Give up: the last error goes to the caller.
    Fail,
}

impl RetryPolicy {
    /// The policy of every call to the platform and of every file access:
    /// `MAX_ATTEMPTS` failures are forgiven, the next one is final.
    pub fn bounded() -> (p: RetryPolicy)
        ensures
            p == (RetryPolicy { max_attempts: Some(MAX_ATTEMPTS), delay_secs: RETRY_DELAY }),
    {
        RetryPolicy { max_attempts: Some(MAX_ATTEMPTS), delay_secs: RETRY_DELAY }
    }

    /// The policy of claiming: it is tried until it succeeds.
    pub fn unbounded() -> (p: RetryPolicy)
        ensures
            p == (RetryPolicy { max_attempts: None, delay_secs: RETRY_DELAY }),
    {
        RetryPolicy { max_attempts: None, delay_secs: RETRY_DELAY }
    }
}

/// What the policy says after one more failure, `attempts` failures having
/// been counted before it.
pub open spec fn retry_step(policy: RetryPolicy, attempts: u32) -> RetryStep {
    match policy.max_attempts {
        Some(max) if attempts + 1 > max => RetryStep::Fail,
        _ => RetryStep::Wait {
            secs: policy.delay_secs,
            attempts: if attempts < u32::MAX {
                (attempts + 1) as u32
            } else {
                attempts
            },
        },
    }
}

/// Decides what follows a failure: another try after the delay, as long as
/// the failures counted so far, this one included, do not exceed the limit
/// of the policy; else the end. The caller starts with `attempts` 0 and
/// hands back the count it was given.
pub fn retry_backup(policy: RetryPolicy, attempts: u32) -> (step: RetryStep)
    ensures
        step == retry_step(policy, attempts),
{
    match policy.max_attempts {
        Some(max) if attempts >= max => RetryStep::Fail,
        _ => RetryStep::Wait {
            secs: policy.delay_secs,
            attempts: if attempts < u32::MAX {
                attempts + 1
            } else {
                attempts
            },
        },
    }
}

/// What follows a try.
#[derive(Debug, PartialEq, Eq)]
pub enum Attempt<T, E> {
    /// The matter is over: with the result of the try that succeeded, at
    /// once and without a wait, or with the error of the last try that the
    /// policy allowed.
    Done(Result<T, E>),
    /// Wait, then try again; `attempts` failures have been counted.
    Again { secs: u64, attempts: u32 },
}

/// What follows a try with this outcome, `attempts` failures having been
/// counted before it.
pub open spec fn attempt_of<T, E>(policy: RetryPolicy, outcome: Result<T, E>, attempts: u32) -> Attempt<
    T,
    E,
> {
    match outcome {
        Ok(t) => Attempt::Done(Ok(t)),
        Err(e) => match retry_step(policy, attempts) {
            RetryStep::Wait { secs, attempts } => Attempt::Again { secs, attempts },
            RetryStep::Fail => Attempt::Done(Err(e)),
        },
    }
}

/// Takes the outcome of a try, `attempts` failures having been counted
/// before it. A success ends the matter with its result, whatever the
/// count; a failure is followed by a wait and another try as long as the
/// policy allows, and ends the matter with its error once it does not.
pub fn retry_outcome<T, E>(policy: RetryPolicy, outcome: Result<T, E>, attempts: u32) -> (next:
    Attempt<T, E>)
    ensures
        next == attempt_of(policy, outcome, attempts),
{
    match outcome {
        Ok(t) => Attempt::Done(Ok(t)),
        Err(e) => match retry_backup(policy, attempts) {
            RetryStep::Wait { secs, attempts } => Attempt::Again { secs, attempts },
            RetryStep::Fail => Attempt::Done(Err(e)),
        },
    }
}

/// A bounded policy forgives exactly its limit of failures: the failure
/// after them is final. An unbounded policy never gives up.
pub proof fn lemma_retry_limit(max: u32, delay_secs: u64, attempts: u32)
    ensures
        retry_step(RetryPolicy { max_attempts: Some(max), delay_secs }, attempts) == RetryStep::Fail
            <==> attempts >= max,
        retry_step(RetryPolicy { max_attempts: None, delay_secs }, attempts) != RetryStep::Fail,
{
}

} // verus!
