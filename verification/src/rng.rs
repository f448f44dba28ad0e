//! Randomness for the engine, supplied by the `rand` crate behind small
//! trusted wrappers. Nothing is promised about which value comes back beyond
//! its range, so every caller is verified for every admissible outcome.

use vstd::prelude::*;
use rand::Rng;
use rand::seq::SliceRandom;

use crate::data::{ColorId, COLORS, MAX_COLORS};

verus! {

/// Relies on `rand::Rng::gen_range`: a uniformly random value in `[lo, hi)`.
#[verifier::external_body]
pub fn rand_i64_in(lo: i64, hi: i64) -> (r: i64)
    requires
        lo < hi,
    ensures
        lo <= r < hi,
{
    rand::thread_rng().gen_range(lo..hi)
}

/// Relies on `rand::Rng::gen_range`: a uniformly random value in `[0, n)`.
#[verifier::external_body]
pub fn rand_u32_below(n: u32) -> (r: u32)
    requires
        n > 0,
    ensures
        r < n,
{
    rand::thread_rng().gen_range(0..n)
}

/// Relies on `rand::seq::SliceRandom::shuffle`: the slice is permuted in
/// place, so exactly the same elements are present afterwards.
#[verifier::external_body]
pub fn shuffle_color_ids(v: &mut Vec<ColorId>)
    ensures
        final(v)@.len() == old(v)@.len(),
        final(v)@.to_multiset() == old(v)@.to_multiset(),
{
    v.shuffle(&mut rand::thread_rng())
}

/// Relies on `rand::seq::SliceRandom::choose_multiple`: `amount` distinct
/// elements chosen from the slice, or the whole slice if it is shorter;
/// every element of the result is an element of the slice.
#[verifier::external_body]
pub fn choose_palette_colors(count: usize) -> (r: Vec<[u8; 4]>)
    ensures
        r@.len() == if count < MAX_COLORS {
            count as int
        } else {
            MAX_COLORS as int
        },
        forall|i: int| 0 <= i < r@.len() ==> COLORS@.contains(#[trigger] r@[i]),
{
    COLORS[..].choose_multiple(&mut rand::thread_rng(), count).map(|c| *c).collect()
}

} // verus!
