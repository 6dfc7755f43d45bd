//! The library's single source of randomness.
//!
//! Steering and spawn placement draw integers here; every decision built
//! on a draw is made by verified code that holds for each possible value.

use vstd::prelude::*;
use rand::Rng;

verus! {

/// Relies on rand's `Rng::gen_range` over the half-open range `0..n`:
/// the sample lies within the range, which is nonempty since `n > 0`
/// (`gen_range` panics only on an empty range).
#[verifier::external_body]
pub(crate) fn rand_below(n: u64) -> (r: u64)
    requires
        n > 0,
    ensures
        r < n,
{
    rand::thread_rng().gen_range(0..n)
}

/// A uniform draw from `[lo, hi)`, built on [`rand_below`].
pub(crate) fn rand_range_i64(lo: i64, hi: i64) -> (r: i64)
    requires
        -1_000_000_000 <= lo < hi <= 1_000_000_000,
    ensures
        lo <= r < hi,
{
    let span: u64 = (hi - lo) as u64;
    let d = rand_below(span);
    lo + (d as i64)
}

} // verus!
