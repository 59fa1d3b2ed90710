//! The number to be guessed.

use rand::Rng;
use vstd::prelude::*;

verus! {

/// The smallest number that can be the target.
pub const LOWEST_TARGET: u32 = 1;

/// The largest number that can be the target.
pub const HIGHEST_TARGET: u32 = 100;

/// Draws a number with `gen_range(low, high)` of `rand::Rng`, on the
/// generator that `rand::thread_rng()` hands out.
///
/// Taken on trust: the number drawn is at least `low` and below `high`.
/// `gen_range` panics where `low >= high`, which the precondition rules out.
/// Which number comes is left open: two calls may differ. The generator is
/// seeded by the operating system and panics if that source fails.
#[verifier::external_body]
fn draw(low: u32, high: u32) -> (drawn: u32)
    requires
        low < high,
    ensures
        low <= drawn < high,
{
    rand::thread_rng().gen_range(low, high)
}

/// Picks the number to be guessed, anywhere from `LOWEST_TARGET` to
/// `HIGHEST_TARGET`, both ends included.
pub fn pick_target() -> (target: u32)
    ensures
        LOWEST_TARGET <= target <= HIGHEST_TARGET,
{
    draw(LOWEST_TARGET, HIGHEST_TARGET + 1)
}

} // verus!
