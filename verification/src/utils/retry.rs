//! When to retry a failed operation, and how long to wait first.
//!
//! The retry loops themselves (which await the operation and sleep) live with
//! the caller; this module decides, after each failure, whether to give up or
//! how long to back off.

use vstd::prelude::*;
use vstd::arithmetic::power2::{pow2, lemma2_to64, lemma2_to64_rest, lemma_pow2_unfold, lemma_pow2_strictly_increases};

verus! {

/// What to do after a failed attempt.
#[derive(Debug, Clone, Copy, PartialEq, Eq, Structural)]
pub enum RetryStep {
    /// Stop and report the last error.
    GiveUp,
    /// Sleep this many milliseconds, then try again.
    WaitMillis(u64),
}

/// The pause after the `failures`-th consecutive failure: half a second,
/// doubling with every further failure.
pub open spec fn backoff_ms(failures: nat) -> nat {
    500 * pow2((failures - 1) as nat)
}

/// The step after `failures` consecutive failed attempts (counting the one
/// just made) when at most `max_attempts` attempts are allowed: give up once
/// `failures` reaches `max_attempts`, otherwise wait `backoff_ms(failures)`.
/// The pause must fit in a `u64`, which holds up to the 56th failure.
pub open spec fn retry_step(max_attempts: u32, failures: u32) -> RetryStep {
    if failures >= max_attempts {
        RetryStep::GiveUp
    } else {
        RetryStep::WaitMillis(backoff_ms(failures as nat) as u64)
    }
}

/// Decides what follows the `failures`-th consecutive failure.
pub fn after_failure(max_attempts: u32, failures: u32) -> (step: RetryStep)
    requires
        failures >= 1,
        failures < max_attempts ==> failures <= 56,
    ensures
        step == retry_step(max_attempts, failures),
        step matches RetryStep::WaitMillis(ms) ==> ms == backoff_ms(failures as nat),
{
    if failures >= max_attempts {
        return RetryStep::GiveUp;
    }
    let mut delay: u64 = 500;
    let mut i: u32 = 1;
    proof {
        lemma2_to64();
    }
    while i < failures
        invariant
            1 <= i <= failures <= 56,
            delay == backoff_ms(i as nat),
        decreases failures - i,
    {
        proof {
            lemma_pow2_unfold(i as nat);
            if i < 55 {
                lemma_pow2_strictly_increases(i as nat, 55);
            }
            assert(pow2(i as nat) == 2 * pow2((i - 1) as nat));
            assert(pow2(i as nat) <= pow2(55));
            lemma2_to64_rest();
        }
        delay = delay * 2;
        i = i + 1;
    }
    RetryStep::WaitMillis(delay)
}

/// Every pause is twice the one before it.
pub proof fn lemma_backoff_doubles(failures: nat)
    requires
        failures >= 1,
    ensures
        backoff_ms(failures + 1) == 2 * backoff_ms(failures),
{
    lemma_pow2_unfold(failures);
}

/// When every attempt fails, exactly `max(max_attempts, 1)` attempts are made:
/// every failure before that one is followed by a pause, and that one by giving up.
pub proof fn lemma_attempts_made(max_attempts: u32, failures: u32)
    requires
        failures >= 1,
    ensures
        retry_step(max_attempts, failures) is GiveUp <==> failures >= max_attempts,
{
}

} // verus!
