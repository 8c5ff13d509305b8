//! How a servo comes to its target: the way it takes, the speed it wants, and where a step leads.

use crate::binary32::encoding::Binary32;
use crate::binary32::functions::{number, one, zero, PI_BITS, TAU_BITS, TWO_BITS};
use crate::binary32::laws::{
    at_least_zero, lemma_adding_zero, lemma_difference_with_itself, lemma_larger_minus_smaller,
    lemma_magnitude_order, lemma_negation, lemma_one_is_neutral, lemma_opposite_product,
    lemma_order_is_by_value, lemma_sum, lemma_sum_is_monotone, lemma_zero_product,
};
use crate::binary32::quotient::{lemma_remainder, lemma_units_positive};
use crate::tank::servo::{
    driven, lemma_full_turn, pose_of, shortest, Axis, Drive, Motion, ServoSpec, ServoState, Travel,
};
use crate::tank::speed::lemma_root_is_not_negative;
use crate::vector::vector;
use vstd::arithmetic::div_mod::{lemma_mod_multiples_vanish, lemma_small_mod};
use vstd::prelude::*;

verus! {

/// A spec sheet is in degrees: speed, acceleration and both ends of the travel are turned into radians
/// by the same factor, a half turn over 180, and each is read from its own entry.
pub proof fn law_sheet_is_in_degrees(spec: ServoSpec)
    ensures
        spec.speed() == spec.max_speed * number(0x3c8e_fa35),
        spec.acceleration() == spec.accel * number(0x3c8e_fa35),
        spec.travel matches Travel::Limited { min, max } ==> spec.limits() == (Travel::Limited {
            min: min * number(0x3c8e_fa35),
            max: max * number(0x3c8e_fa35),
        }),
        spec.travel is Continuous ==> spec.limits() is Continuous,
{
}

/// A servo turns about the axis of its name.
pub proof fn law_axes_have_their_names()
    ensures
        Axis::X.direction() == vector(one(), zero(), zero()),
        Axis::Y.direction() == vector(zero(), one(), zero()),
        Axis::Z.direction() == vector(zero(), zero(), one()),
{
}

/// Travel holds an angle to its nearer end where the angle is outside, and leaves it alone inside.
pub proof fn law_travel_holds_to_the_nearer_end(min: Binary32, max: Binary32, angle: Binary32)
    requires
        min <= max,
    ensures
        ({
            let travel = Travel::Limited { min, max };
            &&& angle < min ==> travel.held(angle) == min
            &&& angle > max ==> travel.held(angle) == max
            &&& min <= angle && angle <= max ==> travel.held(angle) == angle
            &&& Travel::Continuous.held(angle) == angle
        }),
{
}

/// A difference of less than half a turn either way is kept, up to the two roundings of shifting it
/// there and back.
pub proof fn law_short_differences_are_kept(diff: Binary32)
    requires
        (diff + number(PI_BITS)).is_finite(),
        zero() <= diff + number(PI_BITS),
        diff + number(PI_BITS) < number(TAU_BITS),
    ensures
        shortest(diff) == (diff + number(PI_BITS)) - number(PI_BITS),
{
    let tau = number(TAU_BITS);
    let shifted = diff + number(PI_BITS);
    lemma_full_turn();
    lemma_remainder(shifted, tau);
    lemma_order_is_by_value(zero(), shifted);
    lemma_order_is_by_value(shifted, tau);
    lemma_units_positive(shifted);
    lemma_units_positive(zero());
    lemma_small_mod(shifted.units(), tau.units());
    lemma_magnitude_order((shifted % tau).index(), shifted.index());
    lemma_magnitude_order(shifted.index(), (shifted % tau).index());
    assert(shifted % tau == shifted);
}

/// The short way keeps its direction: ahead stays ahead, and behind stays behind.
pub proof fn law_short_way_keeps_its_direction(diff: Binary32)
    requires
        diff.is_finite(),
        zero() <= diff + number(PI_BITS),
        diff + number(PI_BITS) < number(TAU_BITS),
    ensures
        diff >= zero() ==> shortest(diff) >= zero(),
        diff <= zero() ==> shortest(diff) <= zero(),
{
    let pi = number(PI_BITS);
    let shifted = diff + pi;
    law_short_differences_are_kept(diff);
    lemma_negation(pi);
    lemma_adding_zero(pi, zero());
    lemma_difference_with_itself(pi);
    if diff >= zero() {
        lemma_sum_is_monotone(zero(), pi, diff, pi);
        lemma_sum_is_monotone(pi, -pi, shifted, -pi);
    }
    if diff <= zero() {
        lemma_sum_is_monotone(diff, pi, zero(), pi);
        lemma_sum_is_monotone(shifted, -pi, pi, -pi);
    }
}

/// Whole turns do not matter: two differences that are a number of full turns apart, seen from half a
/// turn back, have the same shortest way.
pub proof fn law_whole_turns_do_not_matter(near: Binary32, far: Binary32, turns: nat)
    requires
        (near + number(PI_BITS)).is_finite(),
        (far + number(PI_BITS)).is_finite(),
        !(near + number(PI_BITS)).negative(),
        !(far + number(PI_BITS)).negative(),
        (far + number(PI_BITS)).units() == turns * number(TAU_BITS).units() + (near + number(
            PI_BITS,
        )).units(),
    ensures
        shortest(far) == shortest(near),
{
    let tau = number(TAU_BITS);
    let a = near + number(PI_BITS);
    let b = far + number(PI_BITS);
    lemma_full_turn();
    lemma_units_positive(tau);
    lemma_remainder(a, tau);
    lemma_remainder(b, tau);
    assert(turns * tau.units() == tau.units() * turns) by (nonlinear_arith);
    lemma_mod_multiples_vanish(turns as int, a.units() as int, tau.units() as int);
    lemma_magnitude_order((a % tau).index(), (b % tau).index());
    lemma_magnitude_order((b % tau).index(), (a % tau).index());
    assert(a % tau == b % tau);
}

/// The lead is what is left to the target: the plain difference where the travel has ends, the short
/// way round where it has none.
pub proof fn law_lead_is_target_less_angle(spec: ServoSpec, motion: Motion, target: Binary32)
    ensures
        spec.travel is Limited ==> spec.lead(motion, target) == target - motion.current,
        spec.travel is Continuous ==> spec.lead(motion, target) == shortest(
            target - motion.current,
        ),
        spec.travel is Limited && target.is_finite() && motion.current.is_finite() && target
            > motion.current ==> spec.lead(motion, target) > zero(),
        spec.travel is Limited && target.is_finite() && motion.current.is_finite() && target
            < motion.current ==> spec.lead(motion, target) < zero(),
{
    if target.is_finite() && motion.current.is_finite() {
        if target > motion.current {
            lemma_larger_minus_smaller(target, motion.current);
        }
        if target < motion.current {
            lemma_larger_minus_smaller(motion.current, target);
            lemma_negation(motion.current);
            lemma_negation(target);
            lemma_sum(target, -motion.current);
            lemma_sum(motion.current, -target);
        }
    }
}

/// A speed with the sign of a lead.
proof fn lemma_signed_by(lead: Binary32, speed: Binary32)
    requires
        !lead.is_nan(),
        speed.is_finite(),
    ensures
        !lead.negative() ==> lead.sign() * speed == speed,
        lead.negative() ==> lead.sign() * speed == -speed,
{
    lemma_one_is_neutral(speed);
    lemma_opposite_product(one(), speed);
    lemma_negation(one());
    lemma_negation(speed);
    assert(lead.negative() ==> lead.sign() == -one());
}

/// A speed held to a limit, with the sign of a lead.
proof fn lemma_held_speed(lead: Binary32, braking: Binary32, limit: Binary32)
    requires
        !lead.is_nan(),
        braking.is_nan() || at_least_zero(braking),
        at_least_zero(limit),
        limit.is_finite(),
    ensures
        ({
            let wanted = lead.sign() * braking.smaller(limit);
            &&& wanted.is_finite()
            &&& lead > zero() ==> wanted >= zero()
            &&& lead < zero() ==> wanted <= zero()
            &&& lead > zero() && braking <= limit ==> wanted == braking
            &&& lead > zero() && braking > limit ==> wanted == limit
            &&& lead < zero() && braking <= limit ==> wanted == -braking
            &&& lead < zero() && braking > limit ==> wanted == -limit
        }),
{
    let speed = braking.smaller(limit);
    assert(speed.is_finite() && at_least_zero(speed));
    lemma_signed_by(lead, speed);
    lemma_negation(speed);
}

/// The wanted velocity points at the target. Its size is the speed from which the servo can still
/// brake to rest there, the root of twice the acceleration times what is left, or the speed limit
/// where that is less.
pub proof fn law_wanted_velocity_points_at_the_target(
    spec: ServoSpec,
    motion: Motion,
    target: Binary32,
)
    requires
        at_least_zero(spec.speed()),
        spec.speed().is_finite(),
        !spec.lead(motion, target).is_nan(),
    ensures
        spec.wanted_velocity(motion, target).is_finite(),
        ({
            let lead = spec.lead(motion, target);
            let wanted = spec.wanted_velocity(motion, target);
            let braking = (number(TWO_BITS) * spec.acceleration() * lead.absolute()).root();
            &&& lead > zero() ==> wanted >= zero()
            &&& lead < zero() ==> wanted <= zero()
            &&& lead > zero() && braking <= spec.speed() ==> wanted == braking
            &&& lead > zero() && braking > spec.speed() ==> wanted == spec.speed()
            &&& lead < zero() && braking <= spec.speed() ==> wanted == -braking
            &&& lead < zero() && braking > spec.speed() ==> wanted == -spec.speed()
        }),
{
    let lead = spec.lead(motion, target);
    let braking = (number(TWO_BITS) * spec.acceleration() * lead.absolute()).root();
    lemma_root_is_not_negative(number(TWO_BITS) * spec.acceleration() * lead.absolute());
    lemma_held_speed(lead, braking, spec.speed());
}

/// A step that arrives lands on the target, held to the travel, and stops; one that settles on a
/// target within limited travel takes the target itself; any other moves the servo by its new
/// velocity.
pub proof fn law_where_a_step_leads(spec: ServoSpec, motion: Motion, target: Binary32, dt: Binary32)
    ensures
        ({
            let after = spec.stepped(motion, target, dt);
            let arrives = spec.arrives(motion, target, dt);
            let settles = spec.settles(motion, target, dt);
            &&& !settles && arrives ==> after.velocity == zero() && after.current
                == spec.limits().held(motion.current + spec.lead(motion, target))
            &&& !settles && !arrives ==> after.current == spec.limits().held(
                motion.current + after.velocity * dt,
            )
            &&& settles ==> after.velocity == zero()
            &&& settles && spec.travel is Limited ==> after.current == spec.limits().held(target)
        }),
{
}

/// A step arrives exactly when the present velocity covers what is left, and something is left.
pub proof fn law_arrival_covers_the_lead(
    spec: ServoSpec,
    motion: Motion,
    target: Binary32,
    dt: Binary32,
)
    requires
        !(motion.velocity * dt).is_nan(),
        !spec.lead(motion, target).is_nan(),
    ensures
        spec.arrives(motion, target, dt) <==> spec.lead(motion, target).absolute() <= (
        motion.velocity * dt).absolute() && !spec.lead(motion, target).is_zero(),
{
}

/// A change of velocity from rest, towards a wanted velocity, is on its side of zero.
proof fn lemma_change_from_rest(wanted: Binary32, most: Binary32)
    requires
        wanted.is_finite(),
        -most <= most,
    ensures
        wanted >= zero() ==> zero() + (wanted - zero()).clamped(-most, most) >= zero(),
        wanted <= zero() ==> zero() + (wanted - zero()).clamped(-most, most) <= zero(),
{
    lemma_negation(most);
    lemma_adding_zero(wanted, zero());
    let change = (wanted - zero()).clamped(-most, most);
    if change.is_finite() {
        lemma_adding_zero(change, zero());
    }
}

/// A servo at rest starts towards its target and never away from it.
pub proof fn law_servo_starts_towards_its_target(
    spec: ServoSpec,
    current: Binary32,
    target: Binary32,
    dt: Binary32,
)
    requires
        at_least_zero(spec.speed()),
        spec.speed().is_finite(),
        dt.is_finite(),
        -(spec.acceleration() * dt) <= spec.acceleration() * dt,
        !spec.lead(Motion { current, velocity: zero() }, target).is_nan(),
    ensures
        ({
            let rest = Motion { current, velocity: zero() };
            let lead = spec.lead(rest, target);
            let after = spec.stepped(rest, target, dt);
            &&& lead > zero() ==> after.velocity >= zero()
            &&& lead < zero() ==> after.velocity <= zero()
        }),
{
    let rest = Motion { current, velocity: zero() };
    let wanted = spec.wanted_velocity(rest, target);
    law_wanted_velocity_points_at_the_target(spec, rest, target);
    lemma_change_from_rest(wanted, spec.acceleration() * dt);
}

/// A drive steps the motion towards the command, and reads the rest off the node the first time; the
/// pose is that rest turned by the new angle about the servo's axis.
pub proof fn law_drive_poses_the_node(spec: ServoSpec, state: ServoState, drive: Drive)
    ensures
        ({
            let after = driven(spec, state, drive);
            let pose = pose_of(spec, after);
            &&& after.motion == spec.stepped(state.motion, drive.command.target, drive.dt)
            &&& after.captured
            &&& pose.rest == if state.captured {
                state.rest
            } else {
                drive.pose
            }
            &&& pose.axis == spec.axis.direction()
            &&& pose.angle == after.motion.current
        }),
{
}

/// The change of velocity in one step is what is wanting, where the acceleration limit allows it, and
/// the limit towards it where it does not.
pub proof fn law_change_is_what_is_wanting(
    spec: ServoSpec,
    motion: Motion,
    target: Binary32,
    dt: Binary32,
)
    requires
        -(spec.acceleration() * dt) <= spec.acceleration() * dt,
    ensures
        ({
            let most = spec.acceleration() * dt;
            let wanting = spec.wanted_velocity(motion, target) - motion.velocity;
            let change = spec.velocity_change(motion, target, dt);
            &&& -most <= wanting && wanting <= most ==> change == wanting
            &&& wanting > most ==> change == most
            &&& wanting < -most ==> change == -most
        }),
{
}

/// A servo settles when the target is closer than one step of the acceleration limit moves it and the
/// servo is slower than that step brakes.
pub proof fn law_servo_settles_close_and_slow(
    spec: ServoSpec,
    motion: Motion,
    target: Binary32,
    dt: Binary32,
)
    ensures
        ({
            let most = spec.acceleration() * dt;
            let velocity = if spec.arrives(motion, target, dt) {
                zero()
            } else {
                motion.velocity + spec.velocity_change(motion, target, dt)
            };
            spec.settles(motion, target, dt) <==> spec.lead(motion, target).absolute() < most * dt
                && velocity.absolute() < most
        }),
{
}

} // verus!
