//! The wheel: drawing the winning number.

use vstd::prelude::*;

verus! {

/// Number of pockets on the wheel: the outcomes `0..=36`.
pub const NUMBER_OF_OPTIONS: u32 = 37;

/// Whether `n` is a pocket of the wheel.
pub open spec fn is_pocket(n: int) -> bool {
    0 <= n <= 36
}

/// Draws 32 random bits through `rand::random`. Trusted; nothing is claimed
/// of the bits that come back.
#[verifier::external_body]
fn random_draw() -> u32 {
    rand::random::<u32>()
}

/// The pocket that an arbitrary draw lands in.
pub fn pocket_of(draw: u32) -> (pocket: u32)
    ensures
        pocket == draw % NUMBER_OF_OPTIONS,
        is_pocket(pocket as int),
{
    draw % NUMBER_OF_OPTIONS
}

/// Spins the wheel.
pub fn spin() -> (pocket: u32)
    ensures
        is_pocket(pocket as int),
{
    pocket_of(random_draw())
}

} // verus!
