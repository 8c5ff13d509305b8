//! The player's gun: fire on the trigger, reload, and recoil of the barrel.

use crate::binary32::encoding::Binary32;
use crate::binary32::functions::{number, zero};
use crate::binary32::laws::{
    at_least_zero, lemma_adding_zero, lemma_difference_with_itself, lemma_larger_minus_smaller,
    lemma_negation, lemma_one_is_neutral, lemma_opposite_product, lemma_product_grows,
    lemma_sum_is_monotone, lemma_zero_product,
};
use crate::damage::capability::ControlledTank;
use crate::damage::role::Capability;
use crate::vector::{axis_z, Vector3};
use vstd::prelude::*;

verus! {

/// Muzzle velocity in metres per second: 773.
pub const MUZZLE_SPEED: u32 = 0x4441_4000;

/// Calibre in metres: 0.088.
pub const CALIBER: u32 = 0x3db4_3958;

/// Mass of a shell in kilograms: 10.2.
pub const SHELL_MASS: u32 = 0x4123_3333;

/// Seconds between two shots: 3.
pub const RELOAD_SECS: u32 = 0x4040_0000;

/// The barrel's speed backwards on firing, in metres per second: 14.
pub const RECOIL_KICK: u32 = 0x4160_0000;

/// Stiffness of the spring that brings the barrel back to battery: 90.
pub const RECOIL_STIFFNESS: u32 = 0x42b4_0000;

/// Damping of that spring: 14.
pub const RECOIL_DAMPING: u32 = 0x4160_0000;

/// The recoil of a barrel: how far it is back from battery along the bore, and how fast it moves.
#[derive(Clone, Copy, Debug, PartialEq)]
pub struct Recoil {
    /// The position in battery.
    pub rest: Vector3,
    pub offset: Binary32,
    pub velocity: Binary32,
}

/// Seconds until the next shot.
#[derive(Clone, Copy, Debug, PartialEq)]
pub struct Reload {
    pub remaining: Binary32,
}

/// Where the muzzle is and where it points.
#[derive(Clone, Copy, Debug, PartialEq)]
pub struct MuzzlePose {
    pub origin: Vector3,
    pub direction: Vector3,
}

/// A shell that leaves the muzzle.
#[derive(Clone, Copy, Debug, PartialEq)]
pub struct FireShell {
    pub origin: Vector3,
    pub direction: Vector3,
    pub speed: Binary32,
    pub caliber: Binary32,
    pub mass: Binary32,
}

pub open spec fn shell_from(pose: MuzzlePose) -> FireShell {
    FireShell {
        origin: pose.origin,
        direction: pose.direction,
        speed: number(MUZZLE_SPEED),
        caliber: number(CALIBER),
        mass: number(SHELL_MASS),
    }
}

/// A shell down the bore.
pub fn shell(pose: MuzzlePose) -> (r: FireShell)
    ensures
        r == shell_from(pose),
        r.origin == pose.origin,
        r.direction == pose.direction,
        r.speed == number(MUZZLE_SPEED),
        r.caliber == number(CALIBER),
        r.mass == number(SHELL_MASS),
{
    FireShell {
        origin: pose.origin,
        direction: pose.direction,
        speed: number(MUZZLE_SPEED),
        caliber: number(CALIBER),
        mass: number(SHELL_MASS),
    }
}

/// A barrel in battery.
pub fn attach_recoil(rest: Vector3) -> (r: Recoil)
    ensures
        r == (Recoil { rest, offset: zero(), velocity: zero() }),
{
    Recoil { rest, offset: zero(), velocity: zero() }
}

/// The time left to reload after `dt` seconds.
pub open spec fn cooled(remaining: Binary32, dt: Binary32) -> Binary32 {
    (remaining - dt).larger(zero())
}

/// The gun goes off: the trigger was pulled, the gun is loaded, there is one muzzle, and the tank can
/// fire.
pub open spec fn shoots(
    trigger: bool,
    remaining: Binary32,
    muzzle: Option<MuzzlePose>,
    can_fire: bool,
) -> bool {
    trigger && !(remaining > zero()) && muzzle is Some && can_fire
}

/// The barrels after a shot: a single one is kicked back.
pub open spec fn kicked(barrels: Seq<Recoil>) -> Seq<Recoil> {
    if barrels.len() == 1 {
        let barrel = barrels[0];
        seq![Recoil { velocity: barrel.velocity + number(RECOIL_KICK), ..barrel }]
    } else {
        barrels
    }
}

/// Handle the trigger for a frame of `dt` seconds. The result is the shell that is fired, if one is.
pub fn fire(
    trigger: bool,
    dt: Binary32,
    muzzle: Option<MuzzlePose>,
    controlled: &ControlledTank,
    reload: &mut Reload,
    barrels: &mut Vec<Recoil>,
) -> (r: Option<FireShell>)
    ensures
        ({
            let remaining = cooled(old(reload).remaining, dt);
            let can_fire = controlled.degree(Capability::Fire) > zero();
            if shoots(trigger, remaining, muzzle, can_fire) {
                &&& r == Some(shell_from(muzzle->0))
                &&& final(reload).remaining == number(RELOAD_SECS)
                &&& final(barrels)@ == kicked(old(barrels)@)
            } else {
                &&& r is None
                &&& final(reload).remaining == remaining
                &&& final(barrels)@ == old(barrels)@
            }
        }),
        r matches Some(fired) ==> {
            &&& trigger
            &&& muzzle matches Some(pose) && fired.origin == pose.origin && fired.direction
                == pose.direction
            &&& fired.speed == number(MUZZLE_SPEED)
            &&& fired.caliber == number(CALIBER)
            &&& fired.mass == number(SHELL_MASS)
        },
        final(barrels)@.len() == old(barrels)@.len(),
        forall|i: int|
            0 <= i < old(barrels)@.len() ==> {
                &&& (#[trigger] final(barrels)@[i]).rest == old(barrels)@[i].rest
                &&& final(barrels)@[i].offset == old(barrels)@[i].offset
                &&& final(barrels)@[i].velocity == if r is Some && old(barrels)@.len() == 1 {
                    old(barrels)@[i].velocity + number(RECOIL_KICK)
                } else {
                    old(barrels)@[i].velocity
                }
            },
{
    reload.remaining = (reload.remaining - dt).max(zero());
    if !trigger || reload.remaining > zero() {
        return None;
    }
    let pose = match muzzle {
        Some(pose) => pose,
        None => {
            return None;
        },
    };
    if !controlled.available(Capability::Fire) {
        return None;
    }
    if barrels.len() == 1 {
        let mut barrel = barrels[0];
        barrel.velocity = barrel.velocity + number(RECOIL_KICK);
        barrels.set(0, barrel);
        assert(barrels@ =~= kicked(old(barrels)@));
    }
    reload.remaining = number(RELOAD_SECS);
    Some(shell(pose))
}

/// The barrel's speed after a step of the spring.
pub open spec fn spring_velocity(recoil: Recoil, dt: Binary32) -> Binary32 {
    recoil.velocity + ((-number(RECOIL_STIFFNESS)) * recoil.offset - number(RECOIL_DAMPING)
        * recoil.velocity) * dt
}

/// A step of the spring; battery is a hard stop.
pub open spec fn recoiled(recoil: Recoil, dt: Binary32) -> Recoil {
    let velocity = spring_velocity(recoil, dt);
    let offset = recoil.offset + velocity * dt;
    if offset < zero() {
        Recoil { offset: zero(), velocity: zero(), ..recoil }
    } else {
        Recoil { offset, velocity, ..recoil }
    }
}

/// Let the spring work for `dt` seconds. The result is the barrel's position.
pub fn apply_recoil(recoil: &mut Recoil, dt: Binary32) -> (position: Vector3)
    ensures
        *final(recoil) == recoiled(*old(recoil), dt),
        position == final(recoil).rest.plus(axis_z().scaled(final(recoil).offset)),
        final(recoil).rest == old(recoil).rest,
        final(recoil).offset.is_finite() && old(recoil).rest.is_finite() ==> {
            &&& position.x.same_value(old(recoil).rest.x)
            &&& position.y.same_value(old(recoil).rest.y)
            &&& position.z == old(recoil).rest.z + final(recoil).offset
        },
{
    let accel = number(RECOIL_STIFFNESS).negated() * recoil.offset - number(RECOIL_DAMPING)
        * recoil.velocity;
    recoil.velocity = recoil.velocity + accel * dt;
    recoil.offset = recoil.offset + recoil.velocity * dt;
    if recoil.offset < zero() {
        recoil.offset = zero();
        recoil.velocity = zero();
    }
    proof {
        if recoil.offset.is_finite() && recoil.rest.is_finite() {
            lemma_one_is_neutral(recoil.offset);
            lemma_zero_product(recoil.offset, zero());
            lemma_adding_zero(recoil.rest.x, zero() * recoil.offset);
            lemma_adding_zero(recoil.rest.y, zero() * recoil.offset);
        }
    }
    recoil.rest.plus(axis_z().scaled(recoil.offset))
}

/// The time left to reload never runs below zero.
pub proof fn law_reload_never_runs_below_zero(remaining: Binary32, dt: Binary32)
    ensures
        at_least_zero(cooled(remaining, dt)),
{
}

/// A gun that just fired does not fire again before the reload has run out.
pub proof fn law_no_shot_while_reloading(
    remaining: Binary32,
    dt: Binary32,
    muzzle: Option<MuzzlePose>,
    can_fire: bool,
)
    requires
        remaining > dt,
        remaining.is_finite(),
        dt.is_finite(),
    ensures
        !shoots(true, cooled(remaining, dt), muzzle, can_fire),
{
    lemma_larger_minus_smaller(remaining, dt);
}

/// The barrel never comes forward past battery.
pub proof fn law_barrel_stops_at_battery(recoil: Recoil, dt: Binary32)
    ensures
        !(recoiled(recoil, dt).offset < zero()),
        recoiled(recoil, dt).rest == recoil.rest,
{
}

/// A barrel at rest in battery stays there.
pub proof fn law_barrel_in_battery_stays(rest: Vector3, dt: Binary32)
    requires
        dt.is_finite(),
    ensures
        ({
            let after = recoiled(Recoil { rest, offset: zero(), velocity: zero() }, dt);
            after.offset.is_zero() && after.velocity.is_zero()
        }),
{
    let k = -number(RECOIL_STIFFNESS);
    let c = number(RECOIL_DAMPING);
    let recoil = Recoil { rest, offset: zero(), velocity: zero() };
    lemma_negation(number(RECOIL_STIFFNESS));
    lemma_zero_product(k, zero());
    lemma_zero_product(c, zero());
    lemma_adding_zero(k * zero(), c * zero());
    let accel = k * zero() - c * zero();
    lemma_zero_product(dt, accel);
    lemma_adding_zero(zero(), accel * dt);
    let velocity = spring_velocity(recoil, dt);
    assert(velocity.is_zero());
    lemma_zero_product(dt, velocity);
    lemma_adding_zero(zero(), velocity * dt);
}

/// A fired shell leaves from the muzzle's position in the muzzle's direction, whatever the pose, and
/// every shell is the same round.
pub proof fn law_shell_leaves_along_the_bore(pose: MuzzlePose, other: MuzzlePose)
    ensures
        shell_from(pose).origin == pose.origin,
        shell_from(pose).direction == pose.direction,
        shell_from(pose).speed == shell_from(other).speed,
        shell_from(pose).caliber == shell_from(other).caliber,
        shell_from(pose).mass == shell_from(other).mass,
        shell_from(pose).speed == number(MUZZLE_SPEED),
        shell_from(pose).caliber == number(CALIBER),
        shell_from(pose).mass == number(SHELL_MASS),
        shell_from(pose) == shell_from(other) <==> pose == other,
{
}

/// The gun goes off only with everything in place, and then it does.
pub proof fn law_shot_needs_everything(
    trigger: bool,
    remaining: Binary32,
    muzzle: Option<MuzzlePose>,
    can_fire: bool,
)
    ensures
        !shoots(false, remaining, muzzle, can_fire),
        !shoots(trigger, remaining, None, can_fire),
        !shoots(trigger, remaining, muzzle, false),
        remaining > zero() ==> !shoots(trigger, remaining, muzzle, can_fire),
        remaining <= zero() && muzzle is Some ==> shoots(true, remaining, muzzle, true),
{
}

/// The reload runs down by exactly the time that passes, and ends at zero: waiting does not lengthen
/// it, and a wait as long as the rest of it loads the gun.
pub proof fn law_reload_runs_down(remaining: Binary32, dt: Binary32)
    requires
        remaining.is_finite(),
        dt.is_finite(),
        at_least_zero(remaining),
        at_least_zero(dt),
    ensures
        cooled(remaining, dt) <= remaining,
        dt < remaining ==> cooled(remaining, dt) == remaining - dt,
        remaining <= dt ==> cooled(remaining, dt).is_zero(),
        cooled(remaining, zero()).same_value(remaining),
{
    lemma_negation(dt);
    lemma_adding_zero(remaining, zero());
    lemma_sum_is_monotone(remaining, -dt, remaining, zero());
    if dt < remaining {
        lemma_larger_minus_smaller(remaining, dt);
    } else {
        lemma_difference_with_itself(dt);
        lemma_sum_is_monotone(remaining, -dt, dt, -dt);
    }
}

/// A shot kicks a single barrel back and leaves it where it is in that moment; a rig with any other
/// number of barrels shows no recoil.
pub proof fn law_kick_only_adds_speed(barrels: Seq<Recoil>, i: int)
    requires
        0 <= i < barrels.len(),
    ensures
        kicked(barrels).len() == barrels.len(),
        kicked(barrels)[i].rest == barrels[i].rest,
        kicked(barrels)[i].offset == barrels[i].offset,
        barrels.len() == 1 ==> kicked(barrels)[i].velocity == barrels[i].velocity + number(
            RECOIL_KICK,
        ),
        barrels.len() != 1 ==> kicked(barrels)[i].velocity == barrels[i].velocity,
{
}

/// A step of the spring moves the barrel by its new speed, unless it reaches battery; there it stops.
pub proof fn law_barrel_moves_by_its_speed(recoil: Recoil, dt: Binary32)
    ensures
        ({
            let after = recoiled(recoil, dt);
            ||| after.offset == recoil.offset + after.velocity * dt
            ||| after.offset == zero() && after.velocity == zero()
        }),
        ({
            let after = recoiled(recoil, dt);
            let velocity = spring_velocity(recoil, dt);
            let offset = recoil.offset + velocity * dt;
            &&& offset < zero() ==> after.offset == zero() && after.velocity == zero()
            &&& !(offset < zero()) ==> after.offset == offset && after.velocity == velocity
        }),
{
}

/// A positive number times a finite one that is not below zero, taken away from zero or more, never
/// adds to it.
proof fn lemma_taken_away(v: Binary32, a: Binary32, dt: Binary32)
    requires
        v.is_finite(),
        a.is_finite(),
        dt.is_finite(),
        at_least_zero(a),
        at_least_zero(dt),
        (a * dt).is_finite(),
    ensures
        v + (-a) * dt <= v,
{
    lemma_product_grows(a, dt, a, dt);
    lemma_opposite_product(a, dt);
    lemma_negation(a * dt);
    lemma_adding_zero(v, zero());
    lemma_sum_is_monotone(v, -(a * dt), v, zero());
}

/// The spring pulls a barrel that is back from battery forward: from rest it never gathers speed
/// backwards.
pub proof fn law_spring_pulls_towards_battery(rest: Vector3, offset: Binary32, dt: Binary32)
    requires
        offset.is_finite(),
        dt.is_finite(),
        at_least_zero(offset),
        at_least_zero(dt),
        (number(RECOIL_STIFFNESS) * offset).is_finite(),
        ((number(RECOIL_STIFFNESS) * offset) * dt).is_finite(),
    ensures
        spring_velocity(Recoil { rest, offset, velocity: zero() }, dt) <= zero(),
{
    let k = number(RECOIL_STIFFNESS);
    let c = number(RECOIL_DAMPING);
    lemma_product_grows(k, offset, k, offset);
    lemma_opposite_product(k, offset);
    lemma_zero_product(c, zero());
    lemma_negation(k * offset);
    lemma_negation(c * zero());
    lemma_adding_zero(-(k * offset), -(c * zero()));
    if (k * offset).is_zero() {
        let accel = (-k) * offset - c * zero();
        lemma_zero_product(dt, accel);
        lemma_adding_zero(zero(), accel * dt);
    } else {
        lemma_taken_away(zero(), k * offset, dt);
    }
}

/// The damper brakes: in battery a barrel on its way back never gathers speed.
pub proof fn law_damper_brakes_the_barrel(rest: Vector3, velocity: Binary32, dt: Binary32)
    requires
        velocity.is_finite(),
        dt.is_finite(),
        at_least_zero(velocity),
        at_least_zero(dt),
        (number(RECOIL_DAMPING) * velocity).is_finite(),
        ((number(RECOIL_DAMPING) * velocity) * dt).is_finite(),
    ensures
        spring_velocity(Recoil { rest, offset: zero(), velocity }, dt) <= velocity,
{
    let k = number(RECOIL_STIFFNESS);
    let c = number(RECOIL_DAMPING);
    lemma_negation(k);
    lemma_zero_product(-k, zero());
    lemma_product_grows(c, velocity, c, velocity);
    lemma_negation(c * velocity);
    if (c * velocity).is_zero() {
        let accel = (-k) * zero() - c * velocity;
        lemma_adding_zero((-k) * zero(), c * velocity);
        lemma_zero_product(dt, accel);
        lemma_adding_zero(velocity, accel * dt);
    } else {
        lemma_braking(c * velocity, (-k) * zero());
        lemma_taken_away(velocity, c * velocity, dt);
    }
}

/// A zero before a number that is taken away changes nothing.
proof fn lemma_braking(brake: Binary32, nothing: Binary32)
    requires
        brake.is_finite(),
        !brake.is_zero(),
        nothing.is_zero(),
    ensures
        nothing - brake == -brake,
{
    lemma_negation(brake);
    lemma_adding_zero(-brake, nothing);
}

/// A barrel starts in battery, at rest.
pub proof fn law_barrel_starts_in_battery(rest: Vector3, r: Recoil)
    requires
        call_ensures(attach_recoil, (rest,), r),
    ensures
        r.rest == rest,
        r.offset == zero(),
        r.velocity == zero(),
{
}

/// A shell starts at the muzzle and points where the muzzle points.
pub proof fn law_shell_follows_the_muzzle(pose: MuzzlePose, r: FireShell)
    requires
        call_ensures(shell, (pose,), r),
    ensures
        r.origin == pose.origin,
        r.direction == pose.direction,
{
}

} // verus!
