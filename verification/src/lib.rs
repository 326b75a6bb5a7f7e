//! An admission-throttling library: a replenishing token bucket that
//! serializes admission of work against a capacity-constrained backend,
//! and an exact size estimator for the records such work writes.

pub mod bucket;
pub mod item;
pub mod number;
pub mod worker;

use vstd::prelude::*;

verus! {

/// Smaller of two integers, used throughout the bucket's contracts.
pub open spec fn min_int(a: int, b: int) -> int {
    if a <= b {
        a
    } else {
        b
    }
}

} // verus!
