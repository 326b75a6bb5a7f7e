use vstd::prelude::*;

verus! {

use crate::bucket::Bucket;
use crate::bucket::wait_for;

/// A command for the admission loop, delivered over an ordered queue with a
/// single consumer. `T` is the unit of work; the loop itself never looks
/// inside it.
pub enum Signal<T> {
    /// Terminate the loop.
    Close,
    /// Change the refill rate, in units per tick; must be positive.
    ChangeRefill(i64),
    /// Change the capacity ceiling, in units; must be non-negative.
    ChangeMaxCap(i64),
    /// Admit one unit of work.
    Process(T),
}

/// What the loop does next after dispatching one signal.
pub enum Flow<T> {
    /// The loop terminates.
    Stop,
    /// A reconfiguration was applied; await the next signal.
    Continue,
    /// This unit of work is to be admitted and executed.
    Work(T),
}

/// One round of the admission retry loop for a unit of work.
#[derive(PartialEq, Eq, Structural, Debug, Clone, Copy)]
pub enum Admission {
    /// The estimate was consumed from the bucket; execute the work now.
    Admit,
    /// The budget is insufficient; retry no earlier than the given tick.
    RetryAt(u64),
}

/// Dispatch one signal: reconfigurations mutate the bucket in place and
/// consume no capacity, a close stops the loop, and a unit of work is handed
/// back for admission. Signals are processed strictly one at a time, so a
/// reconfiguration enqueued before a unit of work applies before that
/// unit's admission check.
pub fn apply_signal<T>(bucket: &mut Bucket, signal: Signal<T>) -> (r: Flow<T>)
    requires
        old(bucket).wf(),
        signal matches Signal::ChangeRefill(rate) ==> rate > 0,
        signal matches Signal::ChangeMaxCap(c) ==> c >= 0,
    ensures
        final(bucket).wf(),
        ({
            let fb = *final(bucket);
            let ob = *old(bucket);
            match signal {
                Signal::Close => r matches Flow::Stop && fb == ob,
                Signal::ChangeRefill(rate) => r matches Flow::Continue && fb.refill_rate() == rate
                    && fb.capacity() == ob.capacity() && fb.max_capacity() == ob.max_capacity()
                    && fb.last_refill() == ob.last_refill(),
                Signal::ChangeMaxCap(c) => r matches Flow::Continue && fb.max_capacity() == c
                    && fb.capacity() == ob.capacity() && fb.refill_rate() == ob.refill_rate()
                    && fb.last_refill() == ob.last_refill(),
                Signal::Process(w) => (r matches Flow::Work(x) && x == w) && fb == ob,
            }
        }),
{
    match signal {
        Signal::Close => Flow::Stop,
        Signal::ChangeRefill(rate) => {
            bucket.update_refill_rate(rate);
            Flow::Continue
        },
        Signal::ChangeMaxCap(c) => {
            bucket.update_max_cap(c);
            Flow::Continue
        },
        Signal::Process(w) => Flow::Work(w),
    }
}

/// One attempt to admit a unit of work whose cost estimate is `estimate`:
/// try to consume it from the bucket, and if the budget is insufficient,
/// report the tick at which to retry. The wait may prove too short or too
/// long if the rate or ceiling changes meanwhile; the caller simply retries,
/// so the loop self-corrects.
pub fn admit_step(bucket: &mut Bucket, estimate: i64, now: u64) -> (r: Admission)
    requires
        old(bucket).wf(),
        estimate >= 0,
        old(bucket).refilled_cap(now as int) - estimate >= i64::MIN,
        now + wait_for(
            old(bucket).refilled_cap(now as int),
            old(bucket).max_capacity(),
            old(bucket).refill_rate(),
            estimate as int,
        ) <= u64::MAX,
    ensures
        final(bucket).wf(),
        final(bucket).max_capacity() == old(bucket).max_capacity(),
        final(bucket).refill_rate() == old(bucket).refill_rate(),
        final(bucket).last_refill() == now,
        ({
            let (ok, c) = old(bucket).consumed(estimate as int, now as int);
            final(bucket).capacity() == c && (ok ==> r matches Admission::Admit) && (!ok
                ==> (r matches Admission::RetryAt(at) && at == now + wait_for(
                c,
                old(bucket).max_capacity(),
                old(bucket).refill_rate(),
                estimate as int,
            )))
        }),
{
    if bucket.try_consume(estimate, now) {
        Admission::Admit
    } else {
        Admission::RetryAt(bucket.estimate_available_at(estimate, now))
    }
}

/// Settle an admitted unit of work once its actual cost is known: the
/// budget changes by exactly `estimate - actual`, with no clamping. Work
/// that cost less than estimated refunds the difference; work that cost
/// more drives the budget further down, possibly below zero.
pub fn settle(bucket: &mut Bucket, estimate: i64, actual: i64)
    requires
        old(bucket).wf(),
        estimate >= 0,
        actual >= 0,
        i64::MIN <= old(bucket).capacity() + estimate - actual <= i64::MAX,
    ensures
        final(bucket).wf(),
        final(bucket).capacity() == old(bucket).capacity() + estimate - actual,
        final(bucket).max_capacity() == old(bucket).max_capacity(),
        final(bucket).refill_rate() == old(bucket).refill_rate(),
        final(bucket).last_refill() == old(bucket).last_refill(),
{
    bucket.feedback(estimate - actual);
}

} // verus!
