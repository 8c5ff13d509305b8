//! The battlefield: its dimensions, and how far a look along the ground goes.

use crate::binary32::arithmetic::UNIT_SCALE;
use crate::binary32::encoding::Binary32;
use crate::binary32::functions::{number, one, ONE_BITS, TWO_BITS};
use crate::binary32::laws::{
    lemma_exact_amount_rounds, lemma_one_is_neutral, lemma_scaling_keeps_order,
    lemma_sum_is_monotone, lemma_units_of_one, lemma_whole_number,
};
use vstd::arithmetic::power2::{lemma2_to64, lemma_pow2_pos, pow2};
use vstd::prelude::*;

verus! {

/// Side of the square ground in metres: 1000.
pub const GROUND_SIZE: u32 = 0x447a_0000;

/// Thickness of the ground slab in metres: 1.
pub const GROUND_THICKNESS: u32 = 0x3f80_0000;

/// Incline of the ramp in degrees: 12.
pub const RAMP_ANGLE_DEG: u32 = 0x4140_0000;

/// Length of the ramp along the slope in metres: 16.
pub const RAMP_RUN: u32 = 0x4180_0000;

/// Width of the ramp in metres: 12.
pub const RAMP_WIDTH: u32 = 0x4140_0000;

/// Thickness of the ramp in metres: 2.
pub const RAMP_THICKNESS: u32 = 0x4000_0000;

/// The height of the ground slab's centre: its top face lies at zero.
pub fn ground_height() -> (r: Binary32)
    ensures
        r == (-number(GROUND_THICKNESS)) / number(TWO_BITS),
{
    number(GROUND_THICKNESS).negated() / number(TWO_BITS)
}

/// The incline of the ramp in radians.
pub fn ramp_angle() -> (r: Binary32)
    ensures
        r == number(RAMP_ANGLE_DEG).radians(),
{
    number(RAMP_ANGLE_DEG).to_radians()
}

/// The height of the ramp's centre for the sine and cosine of its incline: the low edge of its top
/// face lies one metre under the ground.
pub fn ramp_height(sin: Binary32, cos: Binary32) -> (r: Binary32)
    ensures
        r == -one() - (number(RAMP_THICKNESS) / number(TWO_BITS)) * cos + (number(RAMP_RUN) / number(
            TWO_BITS,
        )) * sin,
{
    one().negated() - (number(RAMP_THICKNESS) / number(TWO_BITS)) * cos + (number(RAMP_RUN)
        / number(TWO_BITS)) * sin
}

/// The distance to the terrain along a ray that was cast up to `max`: the hit, or `max` where there
/// is none.
pub fn ground_distance(hit: Option<Binary32>, max: Binary32) -> (r: Binary32)
    ensures
        r == (match hit {
            Some(distance) => distance,
            None => max,
        }),
{
    match hit {
        Some(distance) => distance,
        None => max,
    }
}

/// A look along the ground ends at the hit, and goes all the way where nothing is hit.
pub proof fn law_look_ends_at_the_hit(distance: Binary32, max: Binary32, near: Binary32, far: Binary32)
    requires
        call_ensures(ground_distance, (Some(distance), max), near),
        call_ensures(ground_distance, (None::<Binary32>, max), far),
    ensures
        near == distance,
        far == max,
{
}

/// Two over two is one, and sixteen over two is eight.
proof fn lemma_halves()
    ensures
        number(RAMP_THICKNESS) / number(TWO_BITS) == one(),
        number(RAMP_RUN) / number(TWO_BITS) == number(0x4100_0000),
{
    let w = pow2(UNIT_SCALE as nat);
    lemma2_to64();
    lemma_pow2_pos(UNIT_SCALE as nat);
    lemma_units_of_one();
    lemma_whole_number(TWO_BITS as nat, 2, 22);
    lemma_whole_number(RAMP_RUN as nat, 16, 19);
    lemma_whole_number(0x4100_0000, 8, 20);
    assert((2 * w) * w == w * (2 * w)) by (nonlinear_arith);
    assert((16 * w) * w == (8 * w) * (2 * w)) by (nonlinear_arith);
    lemma_exact_amount_rounds(ONE_BITS as nat, 2 * w);
    lemma_exact_amount_rounds(0x4100_0000, 2 * w);
}

/// The ramp's centre lies one metre below the ground, less its half thickness times the cosine, plus
/// its half run times the sine: with the same cosine, the larger sine never lies lower.
pub proof fn law_steeper_ramp_stands_higher(
    sin: Binary32,
    steeper: Binary32,
    cos: Binary32,
    low: Binary32,
    high: Binary32,
)
    requires
        call_ensures(ramp_height, (sin, cos), low),
        call_ensures(ramp_height, (steeper, cos), high),
        sin.is_finite(),
        steeper.is_finite(),
        cos.is_finite(),
        sin <= steeper,
        (-one() - cos).is_finite(),
        (number(0x4100_0000) * sin).is_finite(),
        (number(0x4100_0000) * steeper).is_finite(),
    ensures
        low == -one() - cos + number(0x4100_0000) * sin,
        low <= high,
{
    let eight = number(0x4100_0000);
    lemma_halves();
    lemma_one_is_neutral(cos);
    lemma_scaling_keeps_order(eight, sin, steeper);
    lemma_sum_is_monotone(-one() - cos, eight * sin, -one() - cos, eight * steeper);
}

} // verus!
