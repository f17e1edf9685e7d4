//! The two places the engine draws randomness: shuffling equal-preference
//! exchanges, and picking one of several configured source addresses.

use vstd::prelude::*;

use rand::seq::SliceRandom;
use rand::Rng;

verus! {

/// Relies on rand's `SliceRandom::shuffle` with `thread_rng`: the slice is
/// permuted in place, so the elements and their count are kept.
#[verifier::external_body]
pub fn shuffle_strings(v: &mut Vec<String>)
    ensures
        final(v)@.to_multiset() == old(v)@.to_multiset(),
        final(v)@.len() == old(v)@.len(),
{
    v.shuffle(&mut rand::thread_rng());
}

/// Relies on rand's `Rng::gen_range` with `thread_rng`: a uniform index
/// strictly below `n`.
#[verifier::external_body]
pub fn pick_index(n: usize) -> (r: usize)
    requires
        n > 0,
    ensures
        r < n,
{
    rand::thread_rng().gen_range(0..n)
}

} // verus!
