use vstd::arithmetic::div_mod::lemma_fundamental_div_mod;
use vstd::prelude::*;

verus! {

use crate::min_int;

/// A replenishing budget of capacity units.
///
/// All quantities are exact integers: capacity in abstract units, time in
/// abstract ticks, and a refill rate in units per tick. The caller supplies
/// the current tick to every operation that reads the clock, so the bucket
/// is a pure state machine over plain values; callers pick the unit and tick
/// granularity (say, thousandths of a capacity unit and milliseconds).
pub struct Bucket {
    max_cap: i64,
    refill_per_tick: i64,
    cap: i64,
    last_filled: u64,
}

/// Ticks to wait until a budget of `cap` units, replenished at `rate` units
/// per tick under ceiling `max`, covers `amount`; zero when it already does.
/// The target is `min(amount, max)`: the budget never rises past `max`, and
/// at `max` the full-bucket override admits any request.
pub open spec fn wait_for(cap: int, max: int, rate: int, amount: int) -> int {
    if cap >= amount || cap == max {
        0
    } else {
        let deficit = min_int(amount, max) - cap;
        if deficit <= 0 {
            0
        } else {
            (deficit + rate - 1) / rate
        }
    }
}

impl Bucket {
    /// Currently available budget; negative after over-consumption or
    /// negative feedback.
    pub closed spec fn capacity(&self) -> int {
        self.cap as int
    }

    /// Upper clamp, applied only while refilling.
    pub closed spec fn max_capacity(&self) -> int {
        self.max_cap as int
    }

    /// Units replenished per elapsed tick.
    pub closed spec fn refill_rate(&self) -> int {
        self.refill_per_tick as int
    }

    /// Tick at which the budget was last brought up to date.
    pub closed spec fn last_refill(&self) -> int {
        self.last_filled as int
    }

    /// Construction invariant: a non-negative ceiling and a positive rate.
    pub open spec fn wf(&self) -> bool {
        self.max_capacity() >= 0 && self.refill_rate() > 0
    }

    /// Ticks elapsed since the last refill; a clock reading older than the
    /// last mark counts as no time passed.
    pub open spec fn elapsed_since(&self, now: int) -> int {
        if now >= self.last_refill() {
            now - self.last_refill()
        } else {
            0
        }
    }

    /// The capacity a refill at tick `now` leaves behind: elapsed ticks
    /// times the rate are added, clamped to the ceiling.
    pub open spec fn refilled_cap(&self, now: int) -> int {
        min_int(
            self.capacity() + self.elapsed_since(now) * self.refill_rate(),
            self.max_capacity(),
        )
    }

    /// Whether `amount` can be admitted right now: either the budget covers
    /// it, or the bucket is full — the full-bucket override, which lets a
    /// request larger than the ceiling through exactly when no amount of
    /// waiting could do better.
    pub open spec fn spec_sufficient(&self, amount: int) -> bool {
        self.capacity() >= amount || self.capacity() == self.max_capacity()
    }

    /// Outcome of `try_consume(amount)` at tick `now`: whether it succeeds,
    /// and the capacity it leaves behind.
    pub open spec fn consumed(&self, amount: int, now: int) -> (bool, int) {
        let rc = self.refilled_cap(now);
        if rc >= amount || rc == self.max_capacity() {
            (true, rc - amount)
        } else {
            (false, rc)
        }
    }

    /// A bucket starts empty: it has admitted nothing and earned nothing.
    pub fn new(max_cap: i64, refill_per_tick: i64, now: u64) -> (r: Bucket)
        requires
            max_cap >= 0,
            refill_per_tick > 0,
        ensures
            r.wf(),
            r.capacity() == 0,
            r.max_capacity() == max_cap,
            r.refill_rate() == refill_per_tick,
            r.last_refill() == now,
    {
        Bucket { max_cap, refill_per_tick, cap: 0, last_filled: now }
    }

    /// Force the budget to its ceiling and restart the clock at `now`,
    /// bypassing the elapsed-time computation.
    pub fn fill(&mut self, now: u64)
        ensures
            final(self).capacity() == old(self).max_capacity(),
            final(self).last_refill() == now,
            final(self).max_capacity() == old(self).max_capacity(),
            final(self).refill_rate() == old(self).refill_rate(),
    {
        self.cap = self.max_cap;
        self.last_filled = now;
    }

    /// Whether `amount` can be admitted against the current budget.
    pub fn is_sufficient(&self, amount: i64) -> (r: bool)
        ensures
            r == self.spec_sufficient(amount as int),
    {
        self.cap >= amount || self.cap == self.max_cap
    }

    /// Change the refill rate; takes effect for subsequent refills and does
    /// not retroactively adjust the budget.
    pub fn update_refill_rate(&mut self, refill_per_tick: i64)
        requires
            refill_per_tick > 0,
        ensures
            final(self).refill_rate() == refill_per_tick,
            final(self).capacity() == old(self).capacity(),
            final(self).max_capacity() == old(self).max_capacity(),
            final(self).last_refill() == old(self).last_refill(),
    {
        self.refill_per_tick = refill_per_tick;
    }

    /// Change the ceiling; the current budget is left as it is.
    pub fn update_max_cap(&mut self, max_cap: i64)
        requires
            max_cap >= 0,
        ensures
            final(self).max_capacity() == max_cap,
            final(self).capacity() == old(self).capacity(),
            final(self).refill_rate() == old(self).refill_rate(),
            final(self).last_refill() == old(self).last_refill(),
    {
        self.max_cap = max_cap;
    }

    /// Bring the budget up to date with the clock: credit the elapsed ticks
    /// at the current rate, clamped to the ceiling.
    fn refill(&mut self, now: u64)
        requires
            old(self).wf(),
        ensures
            final(self).capacity() == old(self).refilled_cap(now as int),
            final(self).last_refill() == now,
            final(self).max_capacity() == old(self).max_capacity(),
            final(self).refill_rate() == old(self).refill_rate(),
    {
        let elapsed: u64 = if now >= self.last_filled {
            now - self.last_filled
        } else {
            0
        };
        proof {
            assert((elapsed as int) * (self.refill_per_tick as int) >= 0
                && (elapsed as int) * (self.refill_per_tick as int) <= (u64::MAX as int) * (
            i64::MAX as int)) by (nonlinear_arith)
                requires
                    0 <= elapsed as int <= u64::MAX as int,
                    0 < self.refill_per_tick as int <= i64::MAX as int,
            ;
        }
        let gained: i128 = (elapsed as i128) * (self.refill_per_tick as i128);
        let unclamped: i128 = (self.cap as i128) + gained;
        let clamped: i128 = if unclamped <= self.max_cap as i128 {
            unclamped
        } else {
            self.max_cap as i128
        };
        self.cap = clamped as i64;
        self.last_filled = now;
    }

    /// Refill, then consume `amount` if the budget is sufficient. On success
    /// the capacity may go negative, when the full-bucket override admitted
    /// a request larger than the budget; on failure nothing but the refill
    /// happens.
    pub fn try_consume(&mut self, amount: i64, now: u64) -> (r: bool)
        requires
            old(self).wf(),
            amount >= 0,
            old(self).refilled_cap(now as int) - amount >= i64::MIN,
        ensures
            r == old(self).consumed(amount as int, now as int).0,
            final(self).capacity() == old(self).consumed(amount as int, now as int).1,
            final(self).last_refill() == now,
            final(self).max_capacity() == old(self).max_capacity(),
            final(self).refill_rate() == old(self).refill_rate(),
            final(self).wf(),
    {
        self.refill(now);
        if self.is_sufficient(amount) {
            self.cap = self.cap - amount;
            true
        } else {
            false
        }
    }

    /// The earliest tick at which the deficit for `amount` will have been
    /// replenished — an estimate, not a guarantee, since the rate or ceiling
    /// may change before then. `now` when already sufficient, and also when
    /// the budget sits above the ceiling: the next refill clamps it down to
    /// a full bucket, which admits anything.
    pub fn estimate_available_at(&self, amount: i64, now: u64) -> (r: u64)
        requires
            self.wf(),
            amount >= 0,
            now + wait_for(
                self.capacity(),
                self.max_capacity(),
                self.refill_rate(),
                amount as int,
            ) <= u64::MAX,
        ensures
            r == now + wait_for(
                self.capacity(),
                self.max_capacity(),
                self.refill_rate(),
                amount as int,
            ),
    {
        if self.is_sufficient(amount) {
            return now;
        }
        let target: i64 = if amount <= self.max_cap {
            amount
        } else {
            self.max_cap
        };
        let deficit: i128 = (target as i128) - (self.cap as i128);
        if deficit <= 0 {
            return now;
        }
        let rate: u128 = self.refill_per_tick as u128;
        let ticks: u128 = ((deficit as u128) + (rate - 1)) / rate;
        proof {
            lemma_div_ceil_le(deficit as int, self.refill_rate());
        }
        now + (ticks as u64)
    }

    /// Add `adjust` — computed by the caller as estimate minus actual cost —
    /// to the budget directly, with no clamping in either direction, so that
    /// the next admission reflects the true consumption.
    pub fn feedback(&mut self, adjust: i64)
        requires
            i64::MIN <= old(self).capacity() + adjust <= i64::MAX,
        ensures
            final(self).capacity() == old(self).capacity() + adjust,
            final(self).max_capacity() == old(self).max_capacity(),
            final(self).refill_rate() == old(self).refill_rate(),
            final(self).last_refill() == old(self).last_refill(),
    {
        self.cap = self.cap + adjust;
    }
}

/// For a positive deficit and rate, the rounded-up wait `(d + r - 1) / r`
/// is at most `d` ticks and replenishes at least `d` units.
proof fn lemma_div_ceil_le(d: int, r: int)
    requires
        d > 0,
        r > 0,
    ensures
        0 < (d + r - 1) / r <= d,
        ((d + r - 1) / r) * r >= d,
{
    lemma_fundamental_div_mod(d + r - 1, r);
    let q = (d + r - 1) / r;
    let m = (d + r - 1) % r;
    assert(d + r - 1 == r * q + m);
    assert(0 <= m < r);
    assert(r * q >= d);
    assert(q * r == r * q) by (nonlinear_arith);
    assert(q >= 1) by (nonlinear_arith)
        requires
            r * q >= d,
            d > 0,
            r > 0,
    ;
    assert(d + r - 1 <= d * r) by (nonlinear_arith)
        requires
            d >= 1,
            r >= 1,
    ;
    assert(q <= d) by (nonlinear_arith)
        requires
            d + r - 1 == r * q + m,
            0 <= m,
            d + r - 1 <= d * r,
            r > 0,
    ;
}

/// Right after `fill` at tick `now`, consuming exactly the maximum capacity
/// succeeds and leaves the budget at zero.
pub proof fn lemma_consume_all_after_fill(b: Bucket, now: int)
    requires
        b.wf(),
        b.capacity() == b.max_capacity(),
        b.last_refill() == now,
    ensures
        b.consumed(b.max_capacity(), now) == (true, 0int),
{
}

/// With the budget exhausted and no tick elapsed, any positive request is
/// refused — provided the ceiling is positive, so that the full-bucket
/// override does not apply.
pub proof fn lemma_exhausted_rejects(b: Bucket, amount: int, now: int)
    requires
        b.wf(),
        b.capacity() == 0,
        b.max_capacity() > 0,
        b.last_refill() == now,
        amount > 0,
    ensures
        b.consumed(amount, now) == (false, 0int),
{
}

/// Waiting `t` ticks with no other activity refills by exactly
/// `min(t * rate, deficit)`: the budget never passes the ceiling.
pub proof fn lemma_refill_adds_min(b: Bucket, t: int)
    requires
        b.wf(),
        b.capacity() <= b.max_capacity(),
        t >= 0,
    ensures
        b.refilled_cap(b.last_refill() + t) == b.capacity() + min_int(
            t * b.refill_rate(),
            b.max_capacity() - b.capacity(),
        ),
        b.refilled_cap(b.last_refill() + t) <= b.max_capacity(),
{
    assert(t * b.refill_rate() >= 0) by (nonlinear_arith)
        requires
            t >= 0,
            b.refill_rate() > 0,
    ;
}

/// The wait reported by `estimate_available_at` is long enough: if neither
/// the rate nor the ceiling changes in the meantime, a refill at the
/// reported tick leaves the bucket sufficient for the request.
pub proof fn lemma_wait_reaches_sufficiency(b: Bucket, amount: int, now: int)
    requires
        b.wf(),
        b.last_refill() == now,
        amount >= 0,
    ensures
        ({
            let at = now + wait_for(b.capacity(), b.max_capacity(), b.refill_rate(), amount);
            b.refilled_cap(at) >= amount || b.refilled_cap(at) == b.max_capacity()
        }),
{
    let cap = b.capacity();
    let max = b.max_capacity();
    let rate = b.refill_rate();
    let w = wait_for(cap, max, rate, amount);
    if cap >= amount || cap == max || min_int(amount, max) - cap <= 0 {
        assert(w == 0);
        assert(b.refilled_cap(now) == min_int(cap, max));
    } else {
        let d = min_int(amount, max) - cap;
        lemma_div_ceil_le(d, rate);
        assert(w * rate >= d);
        assert(b.refilled_cap(now + w) == min_int(cap + w * rate, max));
    }
}

} // verus!
