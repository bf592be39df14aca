//! Random choices, taken through the rand crate. Each wrapper states only
//! what holds of every possible outcome; nothing is assumed about which value
//! the generator picks.

use rand::Rng;
use rand::seq::SliceRandom;
use vstd::prelude::*;

verus! {

/// Relies on rand's `Rng::random_range` over `0..n`: for a nonempty range it
/// returns a member of the range.
#[verifier::external_body]
pub(crate) fn pick_index(n: usize) -> (r: usize)
    requires
        n > 0,
    ensures
        r < n,
{
    rand::rng().random_range(0..n)
}

/// Relies on rand's `Rng::random_range` over `lo..=hi`: for a nonempty
/// inclusive range it returns a member of the range.
#[verifier::external_body]
pub(crate) fn pick_between(lo: u64, hi: u64) -> (r: u64)
    requires
        lo <= hi,
    ensures
        lo <= r <= hi,
{
    rand::rng().random_range(lo..=hi)
}

/// Relies on rand's `SliceRandom::shuffle`, a Fisher-Yates shuffle: it
/// permutes the slice in place, so the length and the multiset of element
/// values are unchanged.
#[verifier::external_body]
pub(crate) fn shuffle_vec<T: DeepView>(v: &mut Vec<T>)
    ensures
        final(v)@.len() == old(v)@.len(),
        final(v).deep_view().to_multiset() == old(v).deep_view().to_multiset(),
{
    v.shuffle(&mut rand::rng());
}

} // verus!
