//! The single source of randomness: a uniform draw below a given bound.
//!
//! Both food placement and epsilon-greedy exploration draw from here. The
//! contract promises only that the result is in range; no two calls are
//! related, so every caller must be correct for every possible outcome.

use vstd::prelude::*;

verus! {

/// Relies on `rand::thread_rng` and `rand::Rng::gen_range` over the range
/// `0..n`: the draw is uniform over that range, so the result is below `n`.
/// `gen_range` panics on an empty range, hence the bound on `n`.
#[verifier::external_body]
pub(crate) fn rand_below(n: usize) -> (r: usize)
    requires
        n >= 1,
    ensures
        r < n,
{
    rand::Rng::gen_range(&mut rand::thread_rng(), 0..n)
}

} // verus!
