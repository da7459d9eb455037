//! The one place where chance enters: a draw from the generator of
//! `macroquad`.

use vstd::prelude::*;

verus! {

/// Up to this upper end a draw that starts above zero is known to stay
/// below its upper end.
pub const EXACT_DRAW_LIMIT: i32 = 1_048_576;

/// Draws a number with `macroquad::rand::gen_range`, which is
/// `quad_rand::gen_range`.
///
/// Not proved: that the draw lies in `low .. high`, or is `low` where the
/// two are equal. The generator computes `low + (high - low) * u` in double
/// precision, with `u` a multiple of `2^-32` in `0 .. 1`, and drops the
/// fraction. The product stays below `high - low`; added to a positive
/// `low` the sum could round up to `high` only where `high` exceeds
/// `2^20` times `high - low`, which the precondition rules out.
#[verifier::external_body]
pub(crate) fn draw_between(low: i32, high: i32) -> (drawn: i32)
    requires
        0 <= low <= high,
        low == 0 || high <= EXACT_DRAW_LIMIT,
    ensures
        low <= drawn <= high,
        low < high ==> drawn < high,
{
    macroquad::rand::gen_range(low, high)
}

} // verus!
