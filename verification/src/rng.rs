//! The crate's one source of randomness.
//!
//! Nothing can be promised about which value comes back, only that it is
//! in range; every function that consumes a draw is verified for all
//! values the range admits.

use vstd::prelude::*;

verus! {

/// Relies on rand::Rng::gen_range, which returns a value uniformly
/// distributed in the given range and panics only on an empty range
/// (excluded here by the precondition).
#[verifier::external_body]
pub(crate) fn rand_below(n: u32) -> (r: u32)
    requires
        n >= 1,
    ensures
        r < n,
{
    rand::Rng::gen_range(&mut rand::thread_rng(), 0..n)
}

} // verus!
