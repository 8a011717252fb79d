//! The retry policy of the transport: exponential backoff over a bounded
//! number of retries.
use vstd::prelude::*;
use vstd::arithmetic::power2::{
    lemma2_to64, lemma_pow2_pos, lemma_pow2_strictly_increases, lemma_pow2_unfold, pow2,
};

verus! {

/// What the transport does after a failed attempt.
#[derive(Debug, Clone, Copy, PartialEq, Eq, Structural)]
pub enum RetryStep {
    /// Wait this many seconds, then try again.
    Retry { delay_secs: u64 },
    /// Report the failure of the last attempt.
    GiveUp,
}

/// After attempt `attempt` (counted from zero) failed: retry after
/// `2^attempt` seconds while fewer than `retries` retries were made.
pub open spec fn retry_step(attempt: nat, retries: nat) -> RetryStep {
    if attempt < retries {
        RetryStep::Retry { delay_secs: pow2(attempt) as u64 }
    } else {
        RetryStep::GiveUp
    }
}

/// How many times a request is retried.
#[derive(Debug, Clone, Copy, PartialEq, Eq, Structural)]
pub struct RetryPolicy {
    pub retries: u8,
}

proof fn lemma_pow2_fits(n: nat)
    requires
        n < 64,
    ensures
        1 <= pow2(n) < 0x1_0000_0000_0000_0000,
{
    lemma2_to64();
    lemma_pow2_pos(n);
    if n < 64 {
        lemma_pow2_strictly_increases(n, 64);
    }
}

impl RetryPolicy {
    /// Three retries after the first attempt.
    pub fn new() -> (r: RetryPolicy)
        ensures
            r.retries == 3,
    {
        RetryPolicy { retries: 3 }
    }

    /// The decision after attempt `attempt` failed.
    pub fn after_failure(&self, attempt: u8) -> (r: RetryStep)
        requires
            self.retries < 64,
        ensures
            r == retry_step(attempt as nat, self.retries as nat),
    {
        if attempt < self.retries {
            proof {
                lemma_pow2_fits(attempt as nat);
                lemma2_to64();
            }
            let mut d: u64 = 1;
            let mut k: u8 = 0;
            while k < attempt
                invariant
                    k <= attempt < 64,
                    d == pow2(k as nat),
                    pow2(attempt as nat) < 0x1_0000_0000_0000_0000,
                decreases attempt - k,
            {
                proof {
                    lemma_pow2_unfold((k + 1) as nat);
                    if k + 1 < attempt {
                        lemma_pow2_strictly_increases((k + 1) as nat, attempt as nat);
                    }
                }
                d = d * 2;
                k = k + 1;
            }
            RetryStep::Retry { delay_secs: d }
        } else {
            RetryStep::GiveUp
        }
    }
}

/// The delays waited when every attempt from `attempt` on fails, in order.
pub open spec fn delays_when_failing(attempt: nat, retries: nat) -> Seq<nat>
    decreases retries - attempt,
{
    match retry_step(attempt, retries) {
        RetryStep::Retry { delay_secs } => seq![delay_secs as nat] + delays_when_failing(
            attempt + 1,
            retries,
        ),
        RetryStep::GiveUp => seq![],
    }
}

pub open spec fn sum(s: Seq<nat>) -> nat
    decreases s.len(),
{
    if s.len() == 0 {
        0
    } else {
        s[0] + sum(s.drop_first())
    }
}

proof fn lemma_delays_from(attempt: nat, retries: nat)
    requires
        attempt <= retries < 64,
    ensures
        delays_when_failing(attempt, retries).len() == retries - attempt,
        sum(delays_when_failing(attempt, retries)) + pow2(attempt) == pow2(retries),
    decreases retries - attempt,
{
    if attempt < retries {
        lemma_pow2_fits(attempt);
        lemma_pow2_unfold(attempt + 1);
        lemma_delays_from(attempt + 1, retries);
        let s = delays_when_failing(attempt, retries);
        assert(s.drop_first() =~= delays_when_failing(attempt + 1, retries));
    }
}

/// When every attempt fails, the transport makes `retries` retries, one
/// more attempt than that in all, and waits `2^retries - 1` seconds in all
/// before it gives up.
pub proof fn lemma_gives_up_after_retries(retries: nat)
    requires
        retries < 64,
    ensures
        delays_when_failing(0, retries).len() == retries,
        sum(delays_when_failing(0, retries)) == pow2(retries) - 1,
        retry_step(retries, retries) == RetryStep::GiveUp,
{
    lemma_delays_from(0, retries);
    lemma2_to64();
}

} // verus!
