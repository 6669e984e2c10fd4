//! Retry policy: exponential backoff with jitter.
//!
//! Only errors for which [`ClickHouseError::is_retryable`](crate::ClickHouseError::is_retryable)
//! holds are retried; permanent errors end the operation at once. The backoff before the
//! `n`-th retry is `min(initial_delay * 2^(n-1), max_delay)` with ±25% jitter.
//!
//! Writes that are not idempotent are not retried by the clients: only reads
//! (queries, `ping`, `health_check`) go through the retry path.
use vstd::prelude::*;

use crate::error::{ClickHouseError, ClickHouseResult, ErrorView};
use crate::text::{decimal, decimal_string};

verus! {

/// Hard upper bound on the number of retries.
pub const MAX_RETRIES: u32 = 10;

/// Retry settings. Delays are in milliseconds.
///
/// The default is conservative: 3 retries, 100 ms initial delay, 5 s cap, enabled.
#[derive(Clone, Copy, Debug, PartialEq, Eq)]
pub struct RetryConfig {
    /// Maximum number of retries after the first attempt (at most [`MAX_RETRIES`]).
    pub max_retries: u32,
    /// Backoff before the first retry, in milliseconds.
    pub initial_delay: u64,
    /// Upper bound of a single backoff, in milliseconds.
    pub max_delay: u64,
    /// Whether retrying is enabled at all.
    pub enabled: bool,
}

pub open spec fn default_retry() -> RetryConfig {
    RetryConfig { max_retries: 3, initial_delay: 100, max_delay: 5000, enabled: true }
}

impl Default for RetryConfig {
    fn default() -> (r: Self)
        ensures
            r == default_retry(),
    {
        RetryConfig { max_retries: 3, initial_delay: 100, max_delay: 5000, enabled: true }
    }
}

/// The outcome of [`RetryConfig::validate`].
pub open spec fn retry_check(c: RetryConfig) -> Result<(), ErrorView> {
    if c.max_retries > MAX_RETRIES {
        Err(
            ErrorView::Config(
                "retry max_retries "@ + decimal(c.max_retries as nat) + " 超过硬上界 10"@,
            ),
        )
    } else if c.max_delay < c.initial_delay {
        Err(ErrorView::Config("retry max_delay 不得小于 initial_delay"@))
    } else if c.enabled && c.initial_delay == 0 {
        Err(ErrorView::Config("retry initial_delay 不得为零（启用重试时）"@))
    } else if c.enabled && c.max_delay == 0 {
        Err(ErrorView::Config("retry max_delay 不得为零（启用重试时）"@))
    } else {
        Ok(())
    }
}

/// Which retry policies pass [`RetryConfig::validate`]: exactly those with at most
/// [`MAX_RETRIES`] retries, a cap no smaller than the initial delay, and, when retrying is
/// enabled, both delays above zero. A count of exactly `MAX_RETRIES` is accepted.
pub proof fn lemma_retry_policies_accepted(c: RetryConfig)
    ensures
        retry_check(c) is Ok <==> (c.max_retries <= 10 && c.initial_delay <= c.max_delay && (
        c.enabled ==> c.initial_delay > 0 && c.max_delay > 0)),
{
}

/// `2^k`.
pub open spec fn pow2(k: nat) -> nat
    decreases k,
{
    if k == 0 {
        1
    } else {
        2 * pow2((k - 1) as nat)
    }
}

/// The exponent used for the `retry_index`-th retry: `min(retry_index - 1, 31)`, and 0 for index 0.
pub open spec fn backoff_shift(retry_index: u32) -> nat {
    if retry_index == 0 {
        0
    } else if retry_index - 1 > 31 {
        31
    } else {
        (retry_index - 1) as nat
    }
}

/// `min(initial_delay * 2^shift, max_delay)`: the backoff before jitter.
pub open spec fn backoff_cap(c: RetryConfig, retry_index: u32) -> nat {
    let grown = c.initial_delay as nat * pow2(backoff_shift(retry_index));
    if grown > c.max_delay as nat {
        c.max_delay as nat
    } else {
        grown
    }
}

/// `2^53`, the number of distinct jitter draws.
pub open spec fn jitter_steps() -> nat {
    0x20_0000_0000_0000
}

/// `base` scaled by the factor `0.75 + 0.5 * r / 2^53` (so within `[0.75, 1.25)`),
/// rounded down, then clamped to `[1, u64::MAX]`.
pub open spec fn jittered(base: nat, r: nat) -> nat {
    let scaled = base * (3 * jitter_steps() + 2 * r) / (4 * jitter_steps());
    if scaled < 1 {
        1
    } else if scaled > u64::MAX {
        u64::MAX as nat
    } else {
        scaled
    }
}

/// `RandomState::new`: a hasher builder with fresh random keys.
#[verifier::external_body]
fn fresh_random_state() -> std::collections::hash_map::RandomState {
    std::collections::hash_map::RandomState::new()
}

/// `BuildHasher::hash_one` of the byte 0 under `state`: random bits, since the keys are.
#[verifier::external_body]
fn hash_zero(state: &std::collections::hash_map::RandomState) -> u64 {
    std::hash::BuildHasher::hash_one(state, 0u8)
}

/// `jittered(base, r)` computed without overflow.
fn jitter(base: u64, r: u64) -> (d: u64)
    requires
        r < jitter_steps(),
    ensures
        d == jittered(base as nat, r as nat),
{
    let mult: u128 = 3 * 0x20_0000_0000_0000u128 + 2 * (r as u128);
    assert(mult < 0x100_0000_0000_0000u128);
    assert((base as u128) * mult <= 0xFFFF_FFFF_FFFF_FFFFu128 * 0x100_0000_0000_0000u128)
        by (nonlinear_arith)
        requires
            base <= u64::MAX,
            mult < 0x100_0000_0000_0000u128,
    ;
    let scaled: u128 = (base as u128) * mult / (4 * 0x20_0000_0000_0000u128);
    if scaled < 1 {
        1
    } else if scaled > u64::MAX as u128 {
        u64::MAX
    } else {
        scaled as u64
    }
}

impl RetryConfig {
    /// Checks the settings; fails with [`ClickHouseError::Config`].
    ///
    /// `max_retries` must not exceed [`MAX_RETRIES`], `max_delay` must not be below
    /// `initial_delay`, and with retries enabled neither delay may be zero.
    pub fn validate(&self) -> (r: ClickHouseResult<()>)
        ensures
            r is Ok <==> retry_check(*self) is Ok,
            r matches Err(e) ==> retry_check(*self) == Err::<(), ErrorView>(e@),
    {
        if self.max_retries > MAX_RETRIES {
            let msg = String::from_str("retry max_retries ").concat(
                decimal_string(self.max_retries as u128).as_str(),
            ).concat(" 超过硬上界 10");
            return Err(ClickHouseError::Config(msg));
        }
        if self.max_delay < self.initial_delay {
            return Err(
                ClickHouseError::Config(String::from_str("retry max_delay 不得小于 initial_delay")),
            );
        }
        if self.enabled {
            if self.initial_delay == 0 {
                return Err(
                    ClickHouseError::Config(
                        String::from_str("retry initial_delay 不得为零（启用重试时）"),
                    ),
                );
            }
            if self.max_delay == 0 {
                return Err(
                    ClickHouseError::Config(String::from_str("retry max_delay 不得为零（启用重试时）")),
                );
            }
        }
        Ok(())
    }

    /// The backoff before the `retry_index`-th retry (counted from 1), in milliseconds:
    /// `min(initial_delay * 2^(retry_index-1), max_delay)` with ±25% random jitter, never
    /// below 1; 0 when either delay is 0.
    pub fn delay_for(&self, retry_index: u32) -> (d: u64)
        ensures
            self.initial_delay == 0 || self.max_delay == 0 ==> d == 0,
            self.initial_delay > 0 && self.max_delay > 0 ==> exists|r: nat|
                r < jitter_steps() && d == #[trigger] jittered(backoff_cap(*self, retry_index), r),
    {
        let base = self.initial_delay;
        let max = self.max_delay;
        if base == 0 || max == 0 {
            return 0;
        }
        let shift: u32 = if retry_index == 0 {
            0
        } else if retry_index - 1 > 31 {
            31
        } else {
            retry_index - 1
        };
        let mut factor: u64 = 1;
        let mut i: u32 = 0;
        while i < shift
            invariant
                i <= shift <= 31,
                factor == pow2(i as nat),
                factor <= 0x8000_0000u64,
            decreases shift - i,
        {
            proof {
                lemma_pow2_bound(i as nat);
            }
            factor = factor * 2;
            i = i + 1;
        }
        let capped: u64 = match base.checked_mul(factor) {
            Some(g) => if g > max {
                max
            } else {
                g
            },
            None => max,
        };
        let bits: u64 = hash_zero(&fresh_random_state());
        let r: u64 = bits / 0x800;
        assert(r < jitter_steps()) by (nonlinear_arith)
            requires
                bits <= u64::MAX,
                r == bits / 0x800,
        ;
        let d = jitter(capped, r);
        assert(d == jittered(backoff_cap(*self, retry_index), r as nat));
        d
    }
}

/// What follows a failed call when `attempt` retries were made before it: the index of
/// the next retry, or `None` when the error is permanent or the budget is spent.
pub open spec fn retry_decision(c: RetryConfig, attempt: u32, retryable: bool) -> Option<u32> {
    if !retryable || attempt >= c.max_retries {
        None
    } else {
        Some((attempt + 1) as u32)
    }
}

/// How many calls the retry loop makes when the calls, in order, answer `outcomes`
/// (`None`: success; `Some(r)`: failure, retryable when `r`), `attempt` retries having
/// been made already.
pub open spec fn calls_made(c: RetryConfig, outcomes: Seq<Option<bool>>, attempt: u32) -> nat
    decreases outcomes.len(),
{
    if outcomes.len() == 0 {
        0
    } else {
        match outcomes[0] {
            None => 1,
            Some(r) => match retry_decision(c, attempt, r) {
                None => 1,
                Some(next) => 1 + calls_made(c, outcomes.drop_first(), next),
            },
        }
    }
}

impl RetryConfig {
    /// Decides whether a failed call is retried: only a retryable error, and only while
    /// fewer than `max_retries` retries were made. Returns the index of the next retry
    /// (counted from 1), whose backoff is [`RetryConfig::delay_for`] of it.
    pub fn next_retry(&self, attempt: u32, retryable: bool) -> (r: Option<u32>)
        ensures
            r == retry_decision(*self, attempt, retryable),
    {
        if !retryable || attempt >= self.max_retries {
            None
        } else {
            Some(attempt + 1)
        }
    }

}

/// One read's way through the retry policy. The caller makes a call, and after each
/// failed one asks [`RetryRun::after_failure`] whether another call follows and after
/// which backoff; `attempt` counts the retries granted so far, so `attempt + 1` calls
/// have been made.
#[derive(Clone, Copy, Debug, PartialEq, Eq)]
pub struct RetryRun {
    /// The policy.
    pub config: RetryConfig,
    /// Whether failures may be retried at all (`config.enabled`).
    pub retrying: bool,
    /// Retries granted so far.
    pub attempt: u32,
}

/// A run in a state that the policy can reach: never more retries than its budget.
pub open spec fn run_within_budget(run: RetryRun) -> bool {
    run.attempt <= run.config.max_retries
}

/// The retry that follows a failure in `run`, if any.
pub open spec fn run_decision(run: RetryRun, retryable: bool) -> Option<u32> {
    if run.retrying {
        retry_decision(run.config, run.attempt, retryable)
    } else {
        None
    }
}

impl RetryRun {
    /// Starts a read: with retrying disabled, a single call and the settings unchecked;
    /// otherwise the settings must be valid, and invalid ones fail before any call.
    pub fn start(config: RetryConfig) -> (r: ClickHouseResult<RetryRun>)
        ensures
            !config.enabled ==> r == Ok::<RetryRun, ClickHouseError>(
                RetryRun { config, retrying: false, attempt: 0 },
            ),
            config.enabled ==> (r is Ok <==> retry_check(config) is Ok),
            config.enabled ==> (r matches Ok(run) ==> run == (RetryRun {
                config,
                retrying: true,
                attempt: 0,
            })),
            r matches Err(e) ==> retry_check(config) == Err::<(), ErrorView>(e@),
    {
        if !config.enabled {
            return Ok(RetryRun { config, retrying: false, attempt: 0 });
        }
        match config.validate() {
            Ok(()) => Ok(RetryRun { config, retrying: true, attempt: 0 }),
            Err(e) => Err(e),
        }
    }

    /// After a failed call: `None` when the read ends with that failure (retrying
    /// disabled, a permanent error, or the budget spent); otherwise one more retry is
    /// granted and the backoff to wait before it is returned, in milliseconds.
    ///
    /// Retries are granted only for retryable errors and never beyond `max_retries`, so a
    /// read makes at most `max_retries + 1` calls.
    pub fn after_failure(&mut self, retryable: bool) -> (delay: Option<u64>)
        requires
            run_within_budget(*old(self)),
        ensures
            run_within_budget(*final(self)),
            run_decision(*old(self), retryable) is None ==> delay is None && *final(self)
                == *old(self),
            run_decision(*old(self), retryable) matches Some(next) ==> {
                &&& *final(self) == (RetryRun { attempt: next, ..*old(self) })
                &&& next == old(self).attempt + 1
                &&& retryable
                &&& delay is Some
            },
            delay matches Some(d) ==> (old(self).config.initial_delay == 0
                || old(self).config.max_delay == 0 ==> d == 0),
            delay matches Some(d) ==> (old(self).config.initial_delay > 0
                && old(self).config.max_delay > 0 ==> exists|r: nat|
                r < jitter_steps() && d == #[trigger] jittered(
                    backoff_cap(old(self).config, final(self).attempt),
                    r,
                )),
    {
        if !self.retrying {
            return None;
        }
        match self.config.next_retry(self.attempt, retryable) {
            None => None,
            Some(next) => {
                self.attempt = next;
                Some(self.config.delay_for(next))
            },
        }
    }
}

/// How many calls a read makes when it follows `run` (a call, then
/// [`RetryRun::after_failure`] after each failure) and the calls answer `outcomes` in
/// order (`None`: success; `Some(r)`: failure, retryable when `r`).
pub open spec fn run_calls(run: RetryRun, outcomes: Seq<Option<bool>>) -> nat
    decreases outcomes.len(),
{
    if outcomes.len() == 0 {
        0
    } else {
        match outcomes[0] {
            None => 1,
            Some(r) => match run_decision(run, r) {
                None => 1,
                Some(next) => 1 + run_calls(RetryRun { attempt: next, ..run }, outcomes.drop_first()),
            },
        }
    }
}

/// A read that follows a [`RetryRun`] makes the calls of the retry loop when retrying is
/// on, at most one call when it is off, and never more than the budget allows: from a
/// fresh run, at most `max_retries + 1` calls.
pub proof fn lemma_run_follows_budget(run: RetryRun, outcomes: Seq<Option<bool>>)
    requires
        run_within_budget(run),
    ensures
        run.retrying ==> run_calls(run, outcomes) == calls_made(run.config, outcomes, run.attempt),
        !run.retrying ==> run_calls(run, outcomes) <= 1,
        run_calls(run, outcomes) <= run.config.max_retries - run.attempt + 1,
    decreases outcomes.len(),
{
    if outcomes.len() > 0 {
        match outcomes[0] {
            None => {},
            Some(r) => match run_decision(run, r) {
                None => {},
                Some(next) => {
                    lemma_run_follows_budget(RetryRun { attempt: next, ..run }, outcomes.drop_first());
                },
            },
        }
    }
}

/// The retry loop never makes more than `max_retries - attempt + 1` calls: with no retry
/// made yet, at most `max_retries + 1`.
pub proof fn lemma_retry_budget(c: RetryConfig, outcomes: Seq<Option<bool>>, attempt: u32)
    requires
        attempt <= c.max_retries,
    ensures
        calls_made(c, outcomes, attempt) <= c.max_retries - attempt + 1,
    decreases outcomes.len(),
{
    if outcomes.len() > 0 {
        match outcomes[0] {
            None => {},
            Some(r) => match retry_decision(c, attempt, r) {
                None => {},
                Some(next) => {
                    lemma_retry_budget(c, outcomes.drop_first(), next);
                },
            },
        }
    }
}

/// How the retry loop ends, when the calls keep answering: after `k` calls, where every
/// call before the last failed with a retryable error, and the last one succeeded, failed
/// with a permanent error, or failed retryably with the budget spent
/// (`k == max_retries - attempt + 1`).
pub proof fn lemma_retry_loop_ends(c: RetryConfig, outcomes: Seq<Option<bool>>, attempt: u32)
    requires
        attempt <= c.max_retries,
        outcomes.len() > c.max_retries - attempt,
    ensures
        1 <= calls_made(c, outcomes, attempt) <= c.max_retries - attempt + 1,
        forall|j: int|
            0 <= j < calls_made(c, outcomes, attempt) - 1 ==> #[trigger] outcomes[j] == Some(true),
        ({
            let k = calls_made(c, outcomes, attempt);
            outcomes[k - 1] is None || outcomes[k - 1] == Some(false) || k == c.max_retries
                - attempt + 1
        }),
    decreases outcomes.len(),
{
    lemma_retry_budget(c, outcomes, attempt);
    match outcomes[0] {
        None => {},
        Some(r) => match retry_decision(c, attempt, r) {
            None => {},
            Some(next) => {
                let rest = outcomes.drop_first();
                lemma_retry_loop_ends(c, rest, next);
                let k = calls_made(c, outcomes, attempt);
                assert(k == 1 + calls_made(c, rest, next));
                assert forall|j: int| 0 <= j < k - 1 implies #[trigger] outcomes[j] == Some(true) by {
                    if j > 0 {
                        assert(outcomes[j] == rest[j - 1]);
                    }
                }
                assert(outcomes[k - 1] == rest[k - 2]);
            },
        },
    }
}

/// A permanent error ends the loop at once: it spends no retry.
pub proof fn lemma_permanent_error_stops(c: RetryConfig, outcomes: Seq<Option<bool>>, attempt: u32)
    requires
        outcomes.len() > 0,
        outcomes[0] == Some(false),
    ensures
        calls_made(c, outcomes, attempt) == 1,
{
}

/// When every call fails with a retryable error, the loop spends the whole budget:
/// exactly `max_retries - attempt + 1` calls.
pub proof fn lemma_retry_budget_exhausted(c: RetryConfig, outcomes: Seq<Option<bool>>, attempt: u32)
    requires
        attempt <= c.max_retries,
        outcomes.len() > c.max_retries - attempt,
        forall|i: int| 0 <= i < outcomes.len() ==> outcomes[i] == Some(true),
    ensures
        calls_made(c, outcomes, attempt) == c.max_retries - attempt + 1,
    decreases outcomes.len(),
{
    assert(outcomes[0] == Some(true));
    if attempt < c.max_retries {
        let rest = outcomes.drop_first();
        assert forall|i: int| 0 <= i < rest.len() implies rest[i] == Some(true) by {
            assert(rest[i] == outcomes[i + 1]);
        }
        lemma_retry_budget_exhausted(c, rest, (attempt + 1) as u32);
    }
}

/// A call that succeeds ends the loop: the calls made are the failures before it, plus one.
pub proof fn lemma_success_after_retries(c: RetryConfig, failures: nat)
    requires
        failures <= c.max_retries,
    ensures
        calls_made(
            c,
            Seq::new(failures, |i: int| Some(true)).push(None),
            0,
        ) == failures + 1,
{
    lemma_success_from(c, failures, 0);
}

proof fn lemma_success_from(c: RetryConfig, failures: nat, attempt: u32)
    requires
        attempt + failures <= c.max_retries,
    ensures
        calls_made(c, Seq::new(failures, |i: int| Some(true)).push(None), attempt) == failures
            + 1,
    decreases failures,
{
    let s = Seq::new(failures, |i: int| Some(true)).push(None);
    if failures > 0 {
        let f1 = (failures - 1) as nat;
        assert(s.drop_first() =~= Seq::new(f1, |i: int| Some(true)).push(None));
        assert(s[0] == Some(true));
        lemma_success_from(c, f1, (attempt + 1) as u32);
    } else {
        assert(s[0] == None::<bool>);
    }
}

/// The jitter stays within ±25%: the delay lies between `3/4` and `5/4` of the base
/// (rounded down), and is never 0.
pub proof fn lemma_jitter_window(base: nat, r: nat)
    requires
        1 <= base <= u64::MAX,
        r < jitter_steps(),
    ensures
        (3 * base) / 4 <= jittered(base, r) <= (5 * base) / 4,
        jittered(base, r) >= 1,
{
    let s = jitter_steps() as int;
    let b = base as int;
    let num = b * (3 * s + 2 * r);
    assert(b * (3 * s) <= num <= b * (5 * s)) by (nonlinear_arith)
        requires
            num == b * (3 * s + 2 * r),
            0 <= r < s,
            b >= 1,
    ;
    assert(b * (3 * s) == s * (3 * b) && b * (5 * s) == s * (5 * b)) by (nonlinear_arith);
    vstd::arithmetic::div_mod::lemma_div_multiples_vanish_quotient(s, 3 * b, 4);
    vstd::arithmetic::div_mod::lemma_div_multiples_vanish_quotient(s, 5 * b, 4);
    assert(s * 4 == 4 * s);
    vstd::arithmetic::div_mod::lemma_div_is_ordered(b * (3 * s), num, 4 * s);
    vstd::arithmetic::div_mod::lemma_div_is_ordered(num, b * (5 * s), 4 * s);
    assert(num / (4 * s) == base * (3 * jitter_steps() + 2 * r) / (4 * jitter_steps()));
}

/// The backoff before the `retry_index`-th retry grows as `initial_delay * 2^(retry_index-1)`
/// (the exponent capped at 31) and never exceeds `max_delay`.
pub proof fn lemma_backoff_capped(c: RetryConfig, retry_index: u32)
    ensures
        backoff_cap(c, retry_index) <= c.max_delay,
        c.initial_delay * pow2(backoff_shift(retry_index)) <= c.max_delay ==> backoff_cap(
            c,
            retry_index,
        ) == c.initial_delay * pow2(backoff_shift(retry_index)),
        1 <= retry_index <= 32 ==> backoff_shift(retry_index) == retry_index - 1,
{
}

proof fn lemma_pow2_monotone(k: nat, j: nat)
    requires
        k <= j,
    ensures
        pow2(k) <= pow2(j),
    decreases j,
{
    if k < j {
        lemma_pow2_monotone(k, (j - 1) as nat);
    }
}

proof fn lemma_pow2_bound(k: nat)
    requires
        k < 31,
    ensures
        pow2(k + 1) <= 0x8000_0000,
        pow2(k + 1) == 2 * pow2(k),
{
    reveal_with_fuel(pow2, 32);
    assert(pow2(31) == 0x8000_0000);
    lemma_pow2_monotone(k + 1, 31);
}

/// How the backoff grows from one retry to the next: the first retry (and index 0) waits
/// `min(initial_delay, max_delay)`; up to the 32nd retry, each backoff below the cap is
/// doubled (then capped) for the next one, and a capped backoff stays at the cap; from the
/// 32nd retry on the backoff no longer changes.
pub proof fn lemma_backoff_doubles(c: RetryConfig, k: u32)
    ensures
        backoff_cap(c, 0) == backoff_cap(c, 1),
        backoff_cap(c, 1) == if c.initial_delay <= c.max_delay {
            c.initial_delay as nat
        } else {
            c.max_delay as nat
        },
        1 <= k <= 31 && backoff_cap(c, k) < c.max_delay ==> backoff_cap(c, (k + 1) as u32) == if 2
            * backoff_cap(c, k) <= c.max_delay {
            2 * backoff_cap(c, k)
        } else {
            c.max_delay as nat
        },
        1 <= k <= 31 && backoff_cap(c, k) == c.max_delay ==> backoff_cap(c, (k + 1) as u32)
            == c.max_delay,
        k >= 32 ==> backoff_cap(c, k) == backoff_cap(c, 32),
{
    assert(pow2(0) == 1);
    assert(backoff_shift(0) == 0 && backoff_shift(1) == 0);
    assert(backoff_cap(c, 1) == if c.initial_delay as nat * 1 > c.max_delay as nat {
        c.max_delay as nat
    } else {
        c.initial_delay as nat * 1
    });
    if k >= 32 {
        assert(backoff_shift(k) == 31 && backoff_shift(32) == 31);
    }
    if 1 <= k <= 31 {
        let sk = backoff_shift(k);
        assert(backoff_shift((k + 1) as u32) == sk + 1);
        assert(pow2(sk + 1) == 2 * pow2(sk));
        let g = c.initial_delay as nat * pow2(sk);
        assert(c.initial_delay as nat * pow2(sk + 1) == 2 * g) by (nonlinear_arith)
            requires
                pow2(sk + 1) == 2 * pow2(sk),
                g == c.initial_delay as nat * pow2(sk),
        ;
    }
}

} // verus!
