//! The source of randomness used by puzzle generation.

use vstd::prelude::*;

verus! {

/// The largest upper bound that [`random_below`] accepts.
pub const RANDOM_LIMIT: usize = 0x10_0000;

/// Draws a pseudo-random integer from the half-open range `low..high`.
///
/// Calls `macroquad::rand::gen_range`, which scales a 32-bit draw in
/// `[0, 1)` by `high - low`, adds `low` and truncates. For bounds up to
/// [`RANDOM_LIMIT`] that arithmetic is exact in double precision, so the
/// value returned is at least `low` and strictly below `high`. Nothing is
/// claimed about which value of the range comes back.
#[verifier::external_body]
pub(crate) fn random_below(low: usize, high: usize) -> (r: usize)
    requires
        low < high <= RANDOM_LIMIT,
    ensures
        low <= r < high,
{
    macroquad::rand::gen_range(low, high)
}

} // verus!
