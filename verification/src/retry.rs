//! Retry policy of the delivery worker: exponential backoff with a cap, and
//! permanent-failure (expiry) after a bounded number of attempts.

use vstd::prelude::*;
use vstd::arithmetic::power2::{pow2, lemma_pow2_strictly_increases, lemma_pow2_pos, lemma2_to64_rest};
use vstd::bits::lemma_u64_shl_is_mul;

verus! {

/// Backoff delay in minutes after `attempts` delivery attempts:
/// `2^attempts`, clamped to `cap`.
pub open spec fn backoff_minutes_spec(attempts: nat, cap: int) -> int {
    if pow2(attempts) > cap {
        cap
    } else {
        pow2(attempts) as int
    }
}

/// The entry has permanently failed: retries are bounded (`max_retries`
/// positive) and used up.
pub open spec fn is_expired_spec(attempts: int, max_retries: int) -> bool {
    max_retries > 0 && attempts >= max_retries
}

/// Backoff delay in minutes, as [`backoff_minutes_spec`] describes.
pub fn backoff_minutes(attempts: i32, max_delay_minutes: i64) -> (r: i64)
    requires
        0 <= attempts,
    ensures
        r == backoff_minutes_spec(attempts as nat, max_delay_minutes as int),
{
    if max_delay_minutes <= 0 {
        proof {
            lemma_pow2_pos(attempts as nat);
        }
        return max_delay_minutes;
    }
    if attempts >= 63 {
        proof {
            lemma2_to64_rest();
            if attempts > 63 {
                lemma_pow2_strictly_increases(63, attempts as nat);
            }
            assert(pow2(attempts as nat) > max_delay_minutes as int);
        }
        return max_delay_minutes;
    }
    proof {
        lemma2_to64_rest();
        lemma_pow2_strictly_increases(attempts as nat, 63);
    }
    let p: u64 = 1u64 << (attempts as u64);
    proof {
        lemma_u64_shl_is_mul(1u64, attempts as u64);
        assert(p == pow2(attempts as nat));
    }
    if p > (max_delay_minutes as u64) {
        max_delay_minutes
    } else {
        p as i64
    }
}

/// Backoff never shrinks as attempts accumulate.
///
/// For any cap, the clamped exponential delay is monotonically
/// non-decreasing in the attempt count.
pub proof fn lemma_backoff_monotonic(a1: nat, a2: nat, cap: int)
    requires
        a1 <= a2,
    ensures
        backoff_minutes_spec(a1, cap) <= backoff_minutes_spec(a2, cap),
{
    if a1 < a2 {
        lemma_pow2_strictly_increases(a1, a2);
    }
}

/// What the worker persists about a failed delivery attempt.
pub struct RetryPlan {
    /// The new attempt counter: one more than before.
    pub attempts: i32,
    /// Terminal permanent failure: retries bounded and used up.
    pub expired: bool,
    /// Minutes until the next attempt.
    pub delay_minutes: i64,
    /// Seconds-since-epoch timestamp when the entry next becomes due.
    pub next_attempt_at: i64,
}

/// Decide the retry bookkeeping after a failed delivery attempt.
///
/// The attempt counter is advanced first; the delay doubles with each
/// attempt up to the cap, and the entry expires exactly when `max_retries`
/// is positive and the new counter has reached it (a `max_retries` of zero
/// or below means retrying forever).
pub fn plan_retry(prev_attempts: i32, max_retries: i32, max_delay_minutes: i64, now: i64) -> (r:
    RetryPlan)
    requires
        0 <= prev_attempts < i32::MAX,
        0 <= max_delay_minutes,
        0 <= now,
        now + 60 * max_delay_minutes <= i64::MAX,
    ensures
        r.attempts == prev_attempts + 1,
        r.expired == is_expired_spec(r.attempts as int, max_retries as int),
        r.delay_minutes == backoff_minutes_spec(r.attempts as nat, max_delay_minutes as int),
        r.next_attempt_at == now + 60 * r.delay_minutes,
{
    let attempts = prev_attempts + 1;
    let expired = max_retries > 0 && attempts >= max_retries;
    let delay_minutes = backoff_minutes(attempts, max_delay_minutes);
    proof {
        lemma_pow2_pos(attempts as nat);
    }
    let next_attempt_at = now + 60 * delay_minutes;
    RetryPlan { attempts, expired, delay_minutes, next_attempt_at }
}

/// An HTTP response status counts as a successful delivery exactly when it
/// is in the 2xx class.
pub fn delivery_succeeded(status: u16) -> (r: bool)
    ensures
        r <==> 200 <= status < 300,
{
    200 <= status && status < 300
}

} // verus!
