//! The random source and the draws that the rules make from it.

use vstd::prelude::*;

verus! {

/// The generator that every random decision of the library draws from. It is
/// `rand`'s `StdRng`; the library never looks inside it.
#[verifier::external_type_specification]
#[verifier::external_body]
pub struct ExStdRng(rand::rngs::StdRng);

/// Draws a whole number from `lo..hi` with `rand::Rng::gen_range`.
///
/// `gen_range` panics on an empty range, which `requires` excludes. For a
/// non-empty range of integers it returns a member of the range; which member
/// is left open.
#[verifier::external_body]
pub(crate) fn draw_below(rng: &mut rand::rngs::StdRng, lo: i64, hi: i64) -> (r: i64)
    requires
        lo < hi,
    ensures
        lo <= r < hi,
{
    rand::Rng::gen_range(rng, lo..hi)
}

/// Draws `true` with a chance of `numerator` in `denominator`, with
/// `rand::Rng::gen_ratio`.
///
/// `gen_ratio` panics on a zero denominator and on a numerator above the
/// denominator, which `requires` excludes. Nothing is claimed of the outcome.
#[verifier::external_body]
pub(crate) fn draw_ratio(rng: &mut rand::rngs::StdRng, numerator: u32, denominator: u32) -> (r:
    bool)
    requires
        0 < denominator,
        numerator <= denominator,
{
    rand::Rng::gen_ratio(rng, numerator, denominator)
}

} // verus!
