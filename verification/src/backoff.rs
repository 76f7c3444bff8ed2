//! Transport-level retry timing: exponential delay with a cap, and the
//! jitter drawn on top of it. Delays are integer milliseconds.

use vstd::prelude::*;

verus! {

/// Jitter strategy applied to the computed delay.
#[derive(Debug, Clone, Copy, PartialEq, Eq, Structural)]
pub enum JitterStrategy {
    /// No jitter: the delay is exactly the computed value.
    NoJitter,
    /// A uniform draw from zero to the computed delay.
    Full,
    /// Half the delay plus a uniform draw from the other half.
    Equal,
    /// A decorrelated draw; here, as wide as the full jitter.
    Decorrelated,
}

/// Configuration for transport-level retry with exponential backoff.
#[derive(Debug)]
pub struct BackoffConfig {
    /// Maximum number of transport retries.
    pub max_retries: u32,
    /// Delay before the first retry, in milliseconds.
    pub initial_delay_ms: u64,
    /// Multiplier applied per retry, in thousandths (2000 doubles).
    pub multiplier_permille: u64,
    /// Upper bound on any delay, in milliseconds.
    pub max_delay_ms: u64,
    /// Jitter strategy.
    pub jitter: JitterStrategy,
    /// HTTP status codes that trigger retry.
    pub retryable_statuses: Vec<u16>,
    /// Whether to honor `Retry-After` headers.
    pub respect_retry_after: bool,
}

/// The un-jittered delay for attempt `k`: the initial delay grown by the
/// multiplier `k` times, capped at the maximum at every step.
pub open spec fn base_delay_spec(initial: u64, permille: u64, max: u64, k: int) -> int
    decreases k
        when k >= 0
{
    if k <= 0 {
        if initial <= max {
            initial as int
        } else {
            max as int
        }
    } else {
        let prev = base_delay_spec(initial, permille, max, k - 1);
        let grown = (prev * permille) / 1000;
        if grown <= max {
            grown
        } else {
            max as int
        }
    }
}

/// Every base delay lies between zero and the cap.
pub proof fn lemma_base_delay_bounds(initial: u64, permille: u64, max: u64, k: int)
    requires
        k >= 0,
    ensures
        0 <= base_delay_spec(initial, permille, max, k) <= max,
    decreases k,
{
    if k > 0 {
        lemma_base_delay_bounds(initial, permille, max, k - 1);
        let prev = base_delay_spec(initial, permille, max, k - 1);
        assert(prev * permille >= 0) by (nonlinear_arith)
            requires
                prev >= 0,
        ;
    }
}

/// With a multiplier of at least one, delays never decrease, and once a
/// delay reaches the cap it stays there.
pub proof fn lemma_backoff_monotonic(initial: u64, permille: u64, max: u64, k: int)
    requires
        k >= 0,
        permille >= 1000,
    ensures
        base_delay_spec(initial, permille, max, k) <= base_delay_spec(
            initial,
            permille,
            max,
            k + 1,
        ),
        base_delay_spec(initial, permille, max, k) == max ==> base_delay_spec(
            initial,
            permille,
            max,
            k + 1,
        ) == max,
{
    lemma_base_delay_bounds(initial, permille, max, k);
    let prev = base_delay_spec(initial, permille, max, k);
    let grown = (prev * permille) / 1000;
    assert(prev * permille >= prev * 1000) by (nonlinear_arith)
        requires
            prev >= 0,
            permille >= 1000,
    ;
    assert(grown >= (prev * 1000) / 1000) by {
        vstd::arithmetic::div_mod::lemma_div_is_ordered(prev * 1000, prev * permille, 1000);
    }
    assert((prev * 1000) / 1000 == prev) by (nonlinear_arith);
}

/// The sum of the first `k` un-jittered delays.
pub open spec fn base_delay_sum(initial: u64, permille: u64, max: u64, k: int) -> int
    decreases k
        when k >= 0
{
    if k <= 0 {
        0
    } else {
        base_delay_sum(initial, permille, max, k - 1) + base_delay_spec(
            initial,
            permille,
            max,
            k - 1,
        )
    }
}

/// A value clamped to the unsigned 64-bit range from above.
pub open spec fn sat_u64(x: int) -> int {
    if x <= u64::MAX {
        x
    } else {
        u64::MAX as int
    }
}

/// Delay sums never decrease and are never negative.
pub proof fn lemma_base_delay_sum_bounds(initial: u64, permille: u64, max: u64, k: int)
    requires
        k >= 0,
    ensures
        base_delay_sum(initial, permille, max, k) >= 0,
    decreases k,
{
    if k > 0 {
        lemma_base_delay_sum_bounds(initial, permille, max, k - 1);
        lemma_base_delay_bounds(initial, permille, max, k - 1);
    }
}

impl BackoffConfig {
    /// No transport retry: the default.
    pub fn none() -> (r: BackoffConfig)
        ensures
            r.max_retries == 0,
            r.respect_retry_after,
            r.multiplier_permille == 2000,
    {
        let mut c = Self::standard();
        c.max_retries = 0;
        c
    }

    /// Sensible defaults for cloud APIs: three retries, one second
    /// initial delay, doubling, sixty second cap, full jitter.
    pub fn standard() -> (r: BackoffConfig)
        ensures
            r.max_retries == 3,
            r.initial_delay_ms == 1000,
            r.multiplier_permille == 2000,
            r.max_delay_ms == 60000,
            r.jitter is Full,
            r.respect_retry_after,
            r.retryable_statuses@ =~= seq![429u16, 500u16, 502u16, 503u16, 504u16],
    {
        let mut statuses: Vec<u16> = Vec::new();
        statuses.push(429);
        statuses.push(500);
        statuses.push(502);
        statuses.push(503);
        statuses.push(504);
        BackoffConfig {
            max_retries: 3,
            initial_delay_ms: 1000,
            multiplier_permille: 2000,
            max_delay_ms: 60000,
            jitter: JitterStrategy::Full,
            retryable_statuses: statuses,
            respect_retry_after: true,
        }
    }

    /// Aggressive retry for batch processing: five retries, half-second
    /// initial delay, two minute cap.
    pub fn aggressive() -> (r: BackoffConfig)
        ensures
            r.max_retries == 5,
            r.initial_delay_ms == 500,
            r.max_delay_ms == 120000,
    {
        let mut c = Self::standard();
        c.max_retries = 5;
        c.initial_delay_ms = 500;
        c.max_delay_ms = 120000;
        c
    }

    /// Conservative retry for interactive use: two retries, half-second
    /// initial delay, gentler growth, ten second cap.
    pub fn interactive() -> (r: BackoffConfig)
        ensures
            r.max_retries == 2,
            r.initial_delay_ms == 500,
            r.multiplier_permille == 1500,
            r.max_delay_ms == 10000,
    {
        let mut c = Self::standard();
        c.max_retries = 2;
        c.initial_delay_ms = 500;
        c.multiplier_permille = 1500;
        c.max_delay_ms = 10000;
        c
    }

    /// The un-jittered delay for attempt `attempt` (zero-based).
    pub fn base_delay(&self, attempt: u32) -> (r: u64)
        ensures
            r == base_delay_spec(
                self.initial_delay_ms,
                self.multiplier_permille,
                self.max_delay_ms,
                attempt as int,
            ),
    {
        let mut cur: u64 = if self.initial_delay_ms <= self.max_delay_ms {
            self.initial_delay_ms
        } else {
            self.max_delay_ms
        };
        let mut k: u32 = 0;
        while k < attempt
            invariant
                0 <= k <= attempt,
                cur == base_delay_spec(
                    self.initial_delay_ms,
                    self.multiplier_permille,
                    self.max_delay_ms,
                    k as int,
                ),
                cur <= self.max_delay_ms,
            decreases attempt - k,
        {
            proof {
                assert((cur as int) * (self.multiplier_permille as int) <= (u64::MAX as int) * (
                u64::MAX as int)) by (nonlinear_arith)
                    requires
                        0 <= cur <= u64::MAX,
                        0 <= self.multiplier_permille <= u64::MAX,
                ;
            }
            let wide: u128 = (cur as u128) * (self.multiplier_permille as u128) / 1000;
            cur = if wide <= self.max_delay_ms as u128 {
                wide as u64
            } else {
                self.max_delay_ms
            };
            k = k + 1;
        }
        cur
    }

    /// The delay for attempt `attempt` with jitter applied: never more
    /// than the un-jittered delay, exactly it when jitter is off, and at
    /// least half of it under equal jitter.
    pub fn delay_for_attempt(&self, attempt: u32) -> (r: u64)
        ensures
            r <= base_delay_spec(
                self.initial_delay_ms,
                self.multiplier_permille,
                self.max_delay_ms,
                attempt as int,
            ),
            self.jitter is NoJitter ==> r == base_delay_spec(
                self.initial_delay_ms,
                self.multiplier_permille,
                self.max_delay_ms,
                attempt as int,
            ),
            self.jitter is Equal ==> r >= base_delay_spec(
                self.initial_delay_ms,
                self.multiplier_permille,
                self.max_delay_ms,
                attempt as int,
            ) / 2,
    {
        let base = self.base_delay(attempt);
        match self.jitter {
            JitterStrategy::NoJitter => base,
            JitterStrategy::Equal => {
                let half = base / 2;
                let draw = rand_below(half + 1);
                half + draw
            }
            _ => {
                if base == u64::MAX {
                    base
                } else {
                    rand_below(base + 1)
                }
            }
        }
    }
}

/// A uniform random draw below `n`.
///
/// Relies on `fastrand::u64` with a right-open range: the result is
/// always below the bound; nothing more is assumed of it.
#[verifier::external_body]
fn rand_below(n: u64) -> (r: u64)
    requires
        n > 0,
    ensures
        r < n,
{
    fastrand::u64(0..n)
}

/// Whether every character of `t` is an ASCII digit.
pub open spec fn all_digits(t: Seq<char>) -> bool {
    forall|j: int| 0 <= j < t.len() ==> crate::text::is_digit(t[j])
}

/// Parse a `Retry-After` header value as whole seconds: the trimmed
/// value's decimal reading when it is a non-empty digit run that fits;
/// nothing exactly when it is empty, holds a non-digit, or overflows.
#[verifier::loop_isolation(false)]
pub fn parse_retry_after_secs(value: &str) -> (r: Option<u64>)
    ensures
        ({
            let t = crate::text::trim_spec(value@);
            match r {
                Some(v) => t.len() > 0 && all_digits(t) && v
                    == crate::output_parser::number::dig_val(t),
                None => t.len() == 0 || !all_digits(t) || crate::output_parser::number::dig_val(
                    t,
                ) > u64::MAX,
            }
        }),
{
    let cs = crate::text::chars_of(value);
    let t = crate::text::trim_chars(&cs);
    let n = t.len();
    if n == 0 {
        return None;
    }
    let mut acc: u64 = 0;
    let mut i: usize = 0;
    while i < n
        invariant
            0 <= i <= n,
            n == t@.len(),
            forall|j: int| 0 <= j < i ==> crate::text::is_digit(t@[j]),
            acc == crate::output_parser::number::dig_val(t@.subrange(0, i as int)),
        decreases n - i,
    {
        let c = t[i];
        if !crate::text::digit(c) {
            proof {
                assert(!crate::text::is_digit(t@[i as int]));
                assert(!all_digits(t@));
            }
            return None;
        }
        let d = ((c as u32) - ('0' as u32)) as u64;
        proof {
            let pre = t@.subrange(0, i as int);
            let cur = t@.subrange(0, i + 1);
            assert(cur.drop_last() =~= pre);
            assert(cur.last() == c);
            assert(forall|j: int| 0 <= j < cur.len() ==> cur[j] == t@[j]);
        }
        if acc > (u64::MAX - d) / 10 {
            proof {
                let cur = t@.subrange(0, i + 1);
                let x = (u64::MAX - d) as int;
                vstd::arithmetic::div_mod::lemma_fundamental_div_mod(x, 10);
                assert(0 <= x % 10 < 10) by (nonlinear_arith)
                    requires
                        x >= 0,
                ;
                assert(10 * (acc as int) + (d as int) > u64::MAX);
                assert(crate::output_parser::number::dig_val(cur) > u64::MAX);
                if all_digits(t@) {
                    crate::output_parser::number::lemma_dig_val_prefix_le(t@, i + 1);
                    assert(crate::output_parser::number::dig_val(t@) > u64::MAX);
                }
            }
            return None;
        }
        acc = acc * 10 + d;
        i = i + 1;
    }
    proof {
        assert(t@.subrange(0, n as int) =~= t@);
    }
    Some(acc)
}

} // verus!
