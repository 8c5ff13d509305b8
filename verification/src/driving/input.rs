//! The driver's intent: keys smoothed into throttle and steer.

use crate::binary32::encoding::Binary32;
use crate::binary32::functions::{number, one, zero};
use crate::binary32::laws::{
    at_least_zero, lemma_adding_zero, lemma_difference_with_itself, lemma_negation,
    lemma_sum_commutes, lemma_sum_is_monotone,
};
use vstd::prelude::*;

verus! {

/// How far the intent moves per second: 4.
pub const INPUT_RAMP: u32 = 0x4080_0000;

/// The smoothed intent, each from minus one to one.
#[derive(Clone, Copy, Debug, PartialEq)]
pub struct DriveInput {
    pub throttle: Binary32,
    pub steer: Binary32,
}

impl Default for DriveInput {
    fn default() -> (r: DriveInput)
        ensures
            r == (DriveInput { throttle: zero(), steer: zero() }),
    {
        DriveInput { throttle: zero(), steer: zero() }
    }
}

/// The driving keys that are held down.
#[derive(Clone, Copy, Debug, PartialEq, Eq, Structural)]
pub struct DriveKeys {
    pub forward: bool,
    pub backward: bool,
    pub right: bool,
    pub left: bool,
}

/// One for a key held down, zero for one that is not.
pub open spec fn signal(pressed: bool) -> Binary32 {
    if pressed {
        one()
    } else {
        zero()
    }
}

/// What a pair of keys asks for: they cancel each other.
pub open spec fn pair(positive: bool, negative: bool) -> Binary32 {
    signal(positive) - signal(negative)
}

fn axis(positive: bool, negative: bool) -> (r: Binary32)
    ensures
        r == pair(positive, negative),
{
    let p = if positive {
        one()
    } else {
        zero()
    };
    let n = if negative {
        one()
    } else {
        zero()
    };
    p - n
}

/// `current` moved towards `target` by at most `step`.
pub open spec fn approached(current: Binary32, target: Binary32, step: Binary32) -> Binary32 {
    if current < target {
        (current + step).smaller(target)
    } else {
        (current - step).larger(target)
    }
}

pub fn approach(current: Binary32, target: Binary32, step: Binary32) -> (r: Binary32)
    ensures
        r == approached(current, target, step),
{
    if current < target {
        (current + step).min(target)
    } else {
        (current - step).max(target)
    }
}

/// The intent after the keys were held for `dt` seconds.
pub open spec fn followed(input: DriveInput, keys: DriveKeys, dt: Binary32) -> DriveInput {
    let step = number(INPUT_RAMP) * dt;
    DriveInput {
        throttle: approached(input.throttle, pair(keys.forward, keys.backward), step),
        steer: approached(input.steer, pair(keys.right, keys.left), step),
    }
}

/// Let the intent follow the keys for `dt` seconds.
pub fn read_drive_input(keys: DriveKeys, dt: Binary32, input: &mut DriveInput)
    ensures
        *final(input) == followed(*old(input), keys, dt),
        ({
            let step = number(INPUT_RAMP) * dt;
            *final(input) == (DriveInput {
                throttle: approached(old(input).throttle, pair(keys.forward, keys.backward), step),
                steer: approached(old(input).steer, pair(keys.right, keys.left), step),
            })
        }),
{
    let target_throttle = axis(keys.forward, keys.backward);
    let target_steer = axis(keys.right, keys.left);
    let step = number(INPUT_RAMP) * dt;
    input.throttle = approach(input.throttle, target_throttle, step);
    input.steer = approach(input.steer, target_steer, step);
}

/// Approaching never overshoots and never turns back: the result lies between where it started and
/// the target.
pub proof fn law_approach_stays_between(current: Binary32, target: Binary32, step: Binary32)
    requires
        current.is_finite(),
        target.is_finite(),
        at_least_zero(step),
    ensures
        current <= target ==> current <= approached(current, target, step) && approached(
            current,
            target,
            step,
        ) <= target,
        target <= current ==> target <= approached(current, target, step) && approached(
            current,
            target,
            step,
        ) <= current,
{
    lemma_adding_zero(current, zero());
    lemma_negation(step);
    if step.is_finite() {
        lemma_sum_is_monotone(current, zero(), current, step);
        lemma_sum_is_monotone(current, -step, current, zero());
    }
}

/// The numbers from minus one to one.
pub open spec fn in_signed_unit_range(x: Binary32) -> bool {
    -one() <= x && x <= one()
}

/// The intent stays from minus one to one, whatever keys are held and for however long.
pub proof fn law_intent_stays_in_range(input: DriveInput, keys: DriveKeys, step: Binary32)
    requires
        in_signed_unit_range(input.throttle),
        in_signed_unit_range(input.steer),
        at_least_zero(step),
    ensures
        in_signed_unit_range(approached(input.throttle, pair(keys.forward, keys.backward), step)),
        in_signed_unit_range(approached(input.steer, pair(keys.right, keys.left), step)),
{
    lemma_pair_in_range(keys.forward, keys.backward);
    lemma_pair_in_range(keys.right, keys.left);
    law_approach_stays_between(input.throttle, pair(keys.forward, keys.backward), step);
    law_approach_stays_between(input.steer, pair(keys.right, keys.left), step);
}

proof fn lemma_pair_in_range(positive: bool, negative: bool)
    ensures
        in_signed_unit_range(pair(positive, negative)),
{
    lemma_adding_zero(one(), zero());
    lemma_adding_zero(-one(), zero());
    lemma_adding_zero(zero(), zero());
    lemma_negation(one());
    lemma_difference_with_itself(one());
}

/// Approaching goes by exactly one step while the target is further away than that, and then lands on
/// the target.
pub proof fn law_approach_goes_by_steps(current: Binary32, target: Binary32, step: Binary32)
    ensures
        current < target && current + step < target ==> approached(current, target, step)
            == current + step,
        current < target && target <= current + step ==> approached(current, target, step)
            .same_value(target),
        target <= current && target < current - step ==> approached(current, target, step)
            == current - step,
        target <= current && current - step <= target ==> approached(current, target, step)
            .same_value(target),
{
}

/// A pair of keys: the first asks for one, the second for minus one, and together or released they
/// ask for nothing.
pub proof fn law_keys_cancel_each_other()
    ensures
        pair(true, false).same_value(one()),
        pair(false, true).same_value(-one()),
        pair(true, true).is_zero(),
        pair(false, false).is_zero(),
{
    lemma_adding_zero(one(), zero());
    lemma_adding_zero(-one(), zero());
    lemma_negation(one());
    lemma_negation(zero());
    lemma_difference_with_itself(one());
    lemma_adding_zero(zero(), zero());
}

/// A held key drives the intent its way: forwards or to the right it never falls, and backwards or to
/// the left it never rises.
pub proof fn law_keys_drive_the_intent(current: Binary32, step: Binary32)
    requires
        in_signed_unit_range(current),
        at_least_zero(step),
    ensures
        current <= approached(current, pair(true, false), step),
        approached(current, pair(false, true), step) <= current,
{
    law_keys_cancel_each_other();
    lemma_pair_in_range(true, false);
    lemma_pair_in_range(false, true);
    law_approach_stays_between(current, pair(true, false), step);
    law_approach_stays_between(current, pair(false, true), step);
}

/// Forward and back drive the throttle, right and left the steer, and neither pair touches the other.
pub proof fn law_each_pair_drives_its_axis(
    input: DriveInput,
    keys: DriveKeys,
    other: DriveKeys,
    dt: Binary32,
)
    requires
        in_signed_unit_range(input.throttle),
        in_signed_unit_range(input.steer),
        at_least_zero(number(INPUT_RAMP) * dt),
    ensures
        keys.forward == other.forward && keys.backward == other.backward ==> followed(
            input,
            keys,
            dt,
        ).throttle == followed(input, other, dt).throttle,
        keys.right == other.right && keys.left == other.left ==> followed(input, keys, dt).steer
            == followed(input, other, dt).steer,
        keys.forward && !keys.backward ==> followed(input, keys, dt).throttle >= input.throttle,
        keys.backward && !keys.forward ==> followed(input, keys, dt).throttle <= input.throttle,
        keys.right && !keys.left ==> followed(input, keys, dt).steer >= input.steer,
        keys.left && !keys.right ==> followed(input, keys, dt).steer <= input.steer,
{
    law_keys_drive_the_intent(input.throttle, number(INPUT_RAMP) * dt);
    law_keys_drive_the_intent(input.steer, number(INPUT_RAMP) * dt);
}

/// From rest a held key moves the intent by 4 per second, until it is full.
pub proof fn law_intent_ramps_at_four_per_second(keys: DriveKeys, dt: Binary32)
    requires
        keys.forward,
        !keys.backward,
        (number(0x4080_0000) * dt).is_finite(),
        zero() < number(0x4080_0000) * dt,
        number(0x4080_0000) * dt < one(),
    ensures
        followed(DriveInput { throttle: zero(), steer: zero() }, keys, dt).throttle == number(
            0x4080_0000,
        ) * dt,
{
    let step = number(INPUT_RAMP) * dt;
    law_keys_cancel_each_other();
    lemma_adding_zero(step, zero());
    lemma_sum_commutes(step, zero());
    law_approach_goes_by_steps(zero(), pair(true, false), step);
}

} // verus!
