//! A token bucket bounding outbound bytes per wall-clock interval.
//!
//! The budget holds a byte count and the timestamp of its last refill.
//! `update` replenishes it once per interval, clamped to a ceiling;
//! `take` admits work only when the full amount is available, with no
//! partial deduction. The clock lives outside the library: callers pass
//! the current time in milliseconds.

use vstd::prelude::*;

verus! {

/// `(available bytes, last refill timestamp)`. A `restricted` budget
/// carries `u64::MAX` as its timestamp, so no elapsed interval can ever
/// trigger a refill.
#[derive(Clone, Copy, PartialEq, Eq, Structural, Debug)]
pub struct RateBudget {
    pub bytes_available: usize,
    pub last_refill_ms: u64,
}

/// What `take` does: grant `n` bytes and deduct them only if the whole
/// amount is available; otherwise leave the budget untouched.
pub open spec fn spec_take(b: RateBudget, n: usize) -> (RateBudget, bool) {
    if n <= b.bytes_available {
        (
            RateBudget {
                bytes_available: (b.bytes_available - n) as usize,
                last_refill_ms: b.last_refill_ms,
            },
            true,
        )
    } else {
        (b, false)
    }
}

/// Whether at least `interval_ms` has elapsed since the last refill at
/// time `now_ms` (elapsed time saturates at zero for a timestamp in the
/// future, which is also what makes a restricted budget permanent).
pub open spec fn spec_refill_due(b: RateBudget, now_ms: u64, interval_ms: u64) -> bool {
    (if now_ms >= b.last_refill_ms {
        now_ms - b.last_refill_ms
    } else {
        0
    }) >= interval_ms
}

/// What `update` does: when a refill is due, add `refill_amount` bytes,
/// clamp to `max_available`, and restart the interval at `now_ms`;
/// otherwise change nothing.
pub open spec fn spec_update(
    b: RateBudget,
    now_ms: u64,
    interval_ms: u64,
    refill_amount: usize,
    max_available: usize,
) -> RateBudget {
    if spec_refill_due(b, now_ms, interval_ms) {
        RateBudget {
            bytes_available: (if b.bytes_available + refill_amount <= max_available {
                b.bytes_available + refill_amount
            } else {
                max_available as int
            }) as usize,
            last_refill_ms: now_ms,
        }
    } else {
        b
    }
}

impl RateBudget {
    /// An empty budget whose first due `update` will refill it.
    pub fn new() -> (b: Self)
        ensures
            b.bytes_available == 0,
            b.last_refill_ms == 0,
    {
        RateBudget { bytes_available: 0, last_refill_ms: 0 }
    }

    /// A budget that starts empty and never refills, however much time
    /// elapses: the deterministic zero-budget path.
    pub fn restricted() -> (b: Self)
        ensures
            b.bytes_available == 0,
            b.last_refill_ms == u64::MAX,
    {
        RateBudget { bytes_available: 0, last_refill_ms: u64::MAX }
    }

    /// Refill the budget if at least `interval_ms` has elapsed since
    /// the last refill, adding `refill_amount` bytes and clamping to
    /// `max_available`; otherwise do nothing. Safe to call redundantly
    /// on every pass. Returns whether a refill happened.
    pub fn update(
        &mut self,
        now_ms: u64,
        interval_ms: u64,
        refill_amount: usize,
        max_available: usize,
    ) -> (refilled: bool)
        ensures
            *final(self) == spec_update(*old(self), now_ms, interval_ms, refill_amount, max_available),
            refilled == spec_refill_due(*old(self), now_ms, interval_ms),
    {
        let elapsed: u64 = if now_ms >= self.last_refill_ms {
            now_ms - self.last_refill_ms
        } else {
            0
        };
        if elapsed >= interval_ms {
            self.bytes_available = match self.bytes_available.checked_add(refill_amount) {
                Some(sum) => if sum <= max_available {
                    sum
                } else {
                    max_available
                },
                None => max_available,
            };
            self.last_refill_ms = now_ms;
            true
        } else {
            false
        }
    }

    /// Deduct `n` bytes and grant the request only if the whole amount
    /// is available; otherwise deduct nothing and refuse.
    pub fn take(&mut self, n: usize) -> (granted: bool)
        ensures
            (*final(self), granted) == spec_take(*old(self), n),
    {
        if n <= self.bytes_available {
            self.bytes_available = self.bytes_available - n;
            true
        } else {
            false
        }
    }

    /// How many bytes the budget currently holds.
    pub fn available(&self) -> (n: usize)
        ensures
            n == self.bytes_available,
    {
        self.bytes_available
    }
}

/// Law: a budget holding exactly `n > 0` bytes grants one `take(n)` and
/// refuses an immediately repeated `take(n)`, and neither call drives
/// the balance below zero — the second take leaves the empty budget
/// untouched.
pub proof fn lemma_take_no_double_spend(b: RateBudget, n: usize)
    requires
        b.bytes_available == n,
        n > 0,
    ensures
        spec_take(b, n).1,
        spec_take(b, n).0.bytes_available == 0,
        !spec_take(spec_take(b, n).0, n).1,
        spec_take(spec_take(b, n).0, n).0 == spec_take(b, n).0,
{
}

/// Law: once `update` has refilled at `now1`, any further `update`
/// within the same interval window leaves the budget exactly as the
/// first refill did — there is no double refill.
pub proof fn lemma_update_once_per_interval(
    b: RateBudget,
    now1: u64,
    now2: u64,
    interval_ms: u64,
    refill_amount: usize,
    max_available: usize,
)
    requires
        spec_refill_due(b, now1, interval_ms),
        now1 <= now2,
        now2 - now1 < interval_ms,
    ensures
        spec_update(
            spec_update(b, now1, interval_ms, refill_amount, max_available),
            now2,
            interval_ms,
            refill_amount,
            max_available,
        ) == spec_update(b, now1, interval_ms, refill_amount, max_available),
{
}

/// Law: while no refill is due, `update` stays a no-op however often
/// it is called — two redundant updates within the current interval
/// window leave the budget exactly as it was.
pub proof fn lemma_update_idle_within_interval(
    b: RateBudget,
    now1: u64,
    now2: u64,
    interval_ms: u64,
    refill_amount: usize,
    max_available: usize,
)
    requires
        now1 <= now2,
        !spec_refill_due(b, now2, interval_ms),
    ensures
        spec_update(
            spec_update(b, now1, interval_ms, refill_amount, max_available),
            now2,
            interval_ms,
            refill_amount,
            max_available,
        ) == b,
{
}

/// Law: a restricted budget never refills — `update` returns it
/// unchanged for every current time and every positive interval.
pub proof fn lemma_restricted_never_refills(
    b: RateBudget,
    now_ms: u64,
    interval_ms: u64,
    refill_amount: usize,
    max_available: usize,
)
    requires
        b.last_refill_ms == u64::MAX,
        interval_ms > 0,
    ensures
        !spec_refill_due(b, now_ms, interval_ms),
        spec_update(b, now_ms, interval_ms, refill_amount, max_available) == b,
{
}

} // verus!
