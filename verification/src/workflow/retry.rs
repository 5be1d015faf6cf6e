//! How often, and how far apart, an activity is attempted.
use vstd::arithmetic::power::{lemma_pow1, lemma_pow_adds, pow};
use vstd::prelude::*;

verus! {

/// At most `max_attempts` attempts; the second comes `initial_ms` after the first
/// failure, and each further one `multiplier` times as late as the one before.
#[derive(Debug, PartialEq, Eq, Clone, Copy)]
pub struct RetryPolicy {
    pub max_attempts: u32,
    pub initial_ms: u64,
    pub multiplier: u32,
}

/// `n` held to the largest value of 64 bits.
pub open spec fn saturated(n: int) -> int {
    if n > u64::MAX {
        u64::MAX as int
    } else {
        n
    }
}

/// Milliseconds before the given 1-based attempt under `policy`: none before the
/// first, then a geometric series, held to 64 bits.
pub open spec fn backoff(policy: RetryPolicy, attempt: u32) -> int {
    if attempt <= 1 {
        0
    } else {
        saturated(policy.initial_ms * pow(policy.multiplier as int, (attempt - 2) as nat))
    }
}

proof fn lemma_pow_step(base: int, k: nat)
    requires
        k > 0,
    ensures
        pow(base, k) == base * pow(base, (k - 1) as nat),
{
    lemma_pow_adds(base, 1, (k - 1) as nat);
    lemma_pow1(base);
}

proof fn lemma_pow_at_least(base: int, j: nat, k: nat)
    requires
        base >= 1,
        j <= k,
    ensures
        1 <= pow(base, j) <= pow(base, k),
    decreases k,
{
    if k == 0 {
        reveal(pow);
    } else if j == k {
        lemma_pow_step(base, k);
        lemma_pow_at_least(base, (k - 1) as nat, (k - 1) as nat);
        assert(base * pow(base, (k - 1) as nat) >= 1) by (nonlinear_arith)
            requires
                base >= 1,
                pow(base, (k - 1) as nat) >= 1,
        ;
    } else {
        lemma_pow_at_least(base, j, (k - 1) as nat);
        lemma_pow_step(base, k);
        assert(base * pow(base, (k - 1) as nat) >= pow(base, (k - 1) as nat)) by (nonlinear_arith)
            requires
                base >= 1,
                pow(base, (k - 1) as nat) >= 1,
        ;
    }
}

/// `base` to the power `exponent`, held to 64 bits.
fn saturating_power(base: u64, exponent: u32) -> (r: u64)
    ensures
        r == saturated(pow(base as int, exponent as nat)),
{
    if exponent == 0 {
        proof {
            reveal(pow);
        }
        return 1;
    }
    if base <= 1 {
        proof {
            if base == 0 {
                lemma_pow_step(0, exponent as nat);
            } else {
                lemma_pow_of_one(exponent as nat);
            }
        }
        return base;
    }
    let mut r: u64 = base;
    let mut k: u32 = 1;
    proof {
        lemma_pow1(base as int);
    }
    while k < exponent
        invariant
            base >= 2,
            1 <= k <= exponent,
            r == pow(base as int, k as nat),
        decreases exponent - k,
    {
        proof {
            lemma_pow_step(base as int, (k + 1) as nat);
        }
        match r.checked_mul(base) {
            Some(next) => {
                assert(next == base * r) by (nonlinear_arith)
                    requires
                        next == r * base,
                ;
                r = next;
                k = k + 1;
            },
            None => {
                proof {
                    assert(base * r > u64::MAX) by (nonlinear_arith)
                        requires
                            r * base > u64::MAX,
                    ;
                    lemma_pow_at_least(base as int, (k + 1) as nat, exponent as nat);
                }
                return u64::MAX;
            },
        }
    }
    r
}

proof fn lemma_pow_of_one(k: nat)
    ensures
        pow(1, k) == 1,
    decreases k,
{
    if k == 0 {
        reveal(pow);
    } else {
        lemma_pow_step(1, k);
        lemma_pow_of_one((k - 1) as nat);
    }
}

/// `a` times `b`, held to 64 bits.
fn saturating_product(a: u64, b: u64) -> (r: u64)
    ensures
        r == saturated(a * b),
{
    match a.checked_mul(b) {
        Some(r) => r,
        None => u64::MAX,
    }
}

impl RetryPolicy {
    /// `max_attempts` attempts, 100 ms before the second, doubling from there.
    pub fn exponential(max_attempts: u32) -> (p: Self)
        ensures
            p == (RetryPolicy { max_attempts, initial_ms: 100, multiplier: 2 }),
    {
        RetryPolicy { max_attempts, initial_ms: 100, multiplier: 2 }
    }

    /// A single attempt.
    pub fn none() -> (p: Self)
        ensures
            p == single_attempt(),
            p.max_attempts == 1,
            p.initial_ms == 0,
            p.multiplier == 1,
    {
        RetryPolicy { max_attempts: 1, initial_ms: 0, multiplier: 1 }
    }

    /// Delay in milliseconds before the given 1-based attempt.
    pub fn backoff_ms(&self, attempt: u32) -> (ms: u64)
        ensures
            ms == backoff(*self, attempt),
    {
        if attempt <= 1 {
            return 0;
        }
        let factor = saturating_power(self.multiplier as u64, attempt - 2);
        let ms = saturating_product(self.initial_ms, factor);
        proof {
            let p = pow(self.multiplier as int, (attempt - 2) as nat);
            if p > u64::MAX {
                assert(self.initial_ms * p == 0 || self.initial_ms * p > u64::MAX)
                    by (nonlinear_arith)
                    requires
                        p > u64::MAX,
                        self.initial_ms >= 0,
                ;
                assert(self.initial_ms == 0 || self.initial_ms * factor >= u64::MAX)
                    by (nonlinear_arith)
                    requires
                        factor == u64::MAX,
                        self.initial_ms >= 0,
                ;
                assert(self.initial_ms == 0 ==> self.initial_ms * p == 0 && self.initial_ms
                    * factor == 0) by (nonlinear_arith);
                assert(self.initial_ms > 0 ==> self.initial_ms * p > 0) by (nonlinear_arith)
                    requires
                        p > 0,
                ;
            }
        }
        ms
    }
}

/// The policy of an activity that names none: one attempt.
pub open spec fn single_attempt() -> RetryPolicy {
    RetryPolicy { max_attempts: 1, initial_ms: 0, multiplier: 1 }
}

/// With a multiplier of at least one, a later attempt never waits less than an
/// earlier one.
pub proof fn backoff_never_shrinks(policy: RetryPolicy, earlier: u32, later: u32)
    requires
        policy.multiplier >= 1,
        earlier <= later,
    ensures
        backoff(policy, earlier) <= backoff(policy, later),
{
    if earlier > 1 {
        let m = policy.multiplier as int;
        let p = pow(m, (earlier - 2) as nat);
        let q = pow(m, (later - 2) as nat);
        lemma_pow_at_least(m, (earlier - 2) as nat, (later - 2) as nat);
        assert(policy.initial_ms * p <= policy.initial_ms * q) by (nonlinear_arith)
            requires
                p <= q,
                policy.initial_ms >= 0,
        ;
    } else if later > 1 {
        let m = policy.multiplier as int;
        let q = pow(m, (later - 2) as nat);
        lemma_pow_at_least(m, (later - 2) as nat, (later - 2) as nat);
        assert(0 <= policy.initial_ms * q) by (nonlinear_arith)
            requires
                1 <= q,
                policy.initial_ms >= 0,
        ;
    }
}

/// The delays form a geometric series: none before the first attempt, `initial_ms`
/// before the second, and before each further one `multiplier` times the delay before
/// it, as long as 64 bits hold it and the largest 64-bit value from there on.
pub proof fn delays_are_multiplied(policy: RetryPolicy, attempt: u32)
    requires
        2 <= attempt < u32::MAX,
    ensures
        backoff(policy, 0) == 0,
        backoff(policy, 1) == 0,
        backoff(policy, 2) == policy.initial_ms,
        0 <= backoff(policy, attempt) <= u64::MAX,
        ({
            let grown = policy.multiplier * backoff(policy, attempt);
            let next = backoff(policy, (attempt + 1) as u32);
            &&& grown <= u64::MAX ==> next == grown
            &&& grown > u64::MAX ==> next == u64::MAX
        }),
{
    let m = policy.multiplier as int;
    let k = (attempt - 2) as nat;
    let p = pow(m, k);
    let initial = policy.initial_ms as int;
    assert(pow(m, 0) == 1) by {
        reveal(pow);
    }
    lemma_pow_step(m, k + 1);
    lemma_pow_not_negative(m, k);
    assert(initial * p >= 0) by (nonlinear_arith)
        requires
            initial >= 0,
            p >= 0,
    ;
    assert(initial * (m * p) == m * (initial * p)) by (nonlinear_arith);
    let kept = backoff(policy, attempt);
    if initial * p > kept {
        if m == 1 {
            lemma_pow_of_one(k);
        } else if m == 0 && k > 0 {
            lemma_pow_step(0, k);
        }
        assert(m >= 2) by {
            assert(initial * p == 0 || initial * p == initial || m >= 2) by (nonlinear_arith)
                requires
                    m >= 2 || p == 0 || p == 1,
            ;
        }
        assert(m * (initial * p) >= m * kept) by (nonlinear_arith)
            requires
                m >= 0,
                initial * p >= kept,
        ;
        assert(m * kept > kept) by (nonlinear_arith)
            requires
                m >= 2,
                kept > 0,
        ;
    }
}

/// With a multiplier of one, every attempt but the first waits `initial_ms`.
pub proof fn single_multiplier_keeps_the_delay(policy: RetryPolicy, attempt: u32)
    requires
        policy.multiplier == 1,
        attempt >= 2,
    ensures
        backoff(policy, attempt) == policy.initial_ms,
{
    lemma_pow_of_one((attempt - 2) as nat);
}

/// A longer first delay makes no delay shorter, and neither does a larger multiplier.
pub proof fn delays_grow_with_the_policy(a: RetryPolicy, b: RetryPolicy, attempt: u32)
    requires
        a.initial_ms <= b.initial_ms,
        a.multiplier <= b.multiplier,
    ensures
        backoff(a, attempt) <= backoff(b, attempt),
    decreases attempt,
{
    if attempt > 2 {
        let k = (attempt - 2) as nat;
        lemma_pow_grows(a.multiplier as int, b.multiplier as int, k);
        let p = pow(a.multiplier as int, k);
        let q = pow(b.multiplier as int, k);
        assert(a.initial_ms * p <= b.initial_ms * q) by (nonlinear_arith)
            requires
                0 <= p <= q,
                0 <= a.initial_ms <= b.initial_ms,
        ;
    } else if attempt == 2 {
        reveal(pow);
    }
}

proof fn lemma_pow_not_negative(base: int, k: nat)
    requires
        base >= 0,
    ensures
        pow(base, k) >= 0,
    decreases k,
{
    if k == 0 {
        reveal(pow);
    } else {
        lemma_pow_not_negative(base, (k - 1) as nat);
        lemma_pow_step(base, k);
        assert(base * pow(base, (k - 1) as nat) >= 0) by (nonlinear_arith)
            requires
                base >= 0,
                pow(base, (k - 1) as nat) >= 0,
        ;
    }
}

proof fn lemma_pow_grows(a: int, b: int, k: nat)
    requires
        0 <= a <= b,
    ensures
        0 <= pow(a, k) <= pow(b, k),
    decreases k,
{
    if k == 0 {
        reveal(pow);
    } else {
        lemma_pow_grows(a, b, (k - 1) as nat);
        lemma_pow_step(a, k);
        lemma_pow_step(b, k);
        assert(0 <= a * pow(a, (k - 1) as nat) <= b * pow(b, (k - 1) as nat)) by (nonlinear_arith)
            requires
                0 <= a <= b,
                0 <= pow(a, (k - 1) as nat) <= pow(b, (k - 1) as nat),
        ;
    }
}

} // verus!
