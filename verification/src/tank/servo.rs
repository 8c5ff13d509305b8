//! The servos of the turret and the gun: rotational motors with one degree of freedom that slew
//! towards a commanded angle within a speed and an acceleration limit.

use crate::binary32::encoding::{magnitude, Binary32, BINADE};
use crate::binary32::functions::{number, one, zero, PI_BITS, TAU_BITS, TWO_BITS};
use crate::binary32::laws::{
    at_least_zero, lemma_adding_zero, lemma_difference_with_itself, lemma_magnitude_order,
    lemma_negation, lemma_order_is_by_value, lemma_sum, lemma_sum_within, lemma_zero_product,
};
use crate::binary32::quotient::{lemma_remainder, lemma_units_positive};
use crate::vector::{axis_x, axis_y, axis_z, Vector3};
use vstd::arithmetic::power2::{lemma_pow2_unfold, pow2};
use vstd::prelude::*;

verus! {

/// The local axis that a servo turns about.
#[derive(Clone, Copy, Debug, PartialEq, Eq, Structural)]
pub enum Axis {
    X,
    Y,
    Z,
}

impl Axis {
    pub open spec fn direction(self) -> Vector3 {
        match self {
            Axis::X => axis_x(),
            Axis::Y => axis_y(),
            Axis::Z => axis_z(),
        }
    }

    pub fn to_vec3(self) -> (r: Vector3)
        ensures
            r == self.direction(),
    {
        match self {
            Axis::X => axis_x(),
            Axis::Y => axis_y(),
            Axis::Z => axis_z(),
        }
    }
}

/// The travel of a servo. A spec sheet gives the limits in degrees.
#[derive(Clone, Copy, Debug, PartialEq)]
pub enum Travel {
    Limited { min: Binary32, max: Binary32 },
    Continuous,
}

impl Travel {
    /// Limits in degrees, in radians.
    pub open spec fn in_radians(self) -> Travel {
        match self {
            Travel::Limited { min, max } => Travel::Limited { min: min.radians(), max: max.radians() },
            Travel::Continuous => Travel::Continuous,
        }
    }

    pub fn to_radians(self) -> (r: Travel)
        ensures
            r == self.in_radians(),
    {
        match self {
            Travel::Limited { min, max } => Travel::Limited {
                min: min.to_radians(),
                max: max.to_radians(),
            },
            Travel::Continuous => Travel::Continuous,
        }
    }

    /// The limits, where there are any, do not exclude each other.
    pub open spec fn ordered(self) -> bool {
        match self {
            Travel::Limited { min, max } => min <= max,
            Travel::Continuous => true,
        }
    }

    fn is_ordered(self) -> (r: bool)
        ensures
            r == self.ordered(),
    {
        match self {
            Travel::Limited { min, max } => min <= max,
            Travel::Continuous => true,
        }
    }

    /// An angle held within the travel.
    pub open spec fn held(self, angle: Binary32) -> Binary32 {
        match self {
            Travel::Limited { min, max } => angle.clamped(min, max),
            Travel::Continuous => angle,
        }
    }

    fn hold(self, angle: Binary32) -> (r: Binary32)
        requires
            self.ordered(),
        ensures
            r == self.held(angle),
    {
        match self {
            Travel::Limited { min, max } => angle.clamp(min, max),
            Travel::Continuous => angle,
        }
    }
}

/// An angle difference moved by whole turns to the shortest way round.
pub open spec fn shortest(diff: Binary32) -> Binary32 {
    (diff + number(PI_BITS)).euclidean_remainder(number(TAU_BITS)) - number(PI_BITS)
}

pub fn shortest_angle(diff: Binary32) -> (r: Binary32)
    ensures
        r == shortest(diff),
{
    (diff + number(PI_BITS)).rem_euclid(number(TAU_BITS)) - number(PI_BITS)
}

/// A servo's configuration, from the spec sheet: degrees per second, degrees per second squared, and
/// degrees.
#[derive(Clone, Copy, Debug, PartialEq)]
pub struct ServoSpec {
    pub axis: Axis,
    pub max_speed: Binary32,
    pub accel: Binary32,
    pub travel: Travel,
}

/// The angle, in the parent's frame, that a servo slews towards.
#[derive(Clone, Copy, Debug, PartialEq)]
pub struct ServoCommand {
    pub target: Binary32,
}

impl Default for ServoCommand {
    fn default() -> (r: ServoCommand)
        ensures
            r.target == zero(),
    {
        ServoCommand { target: zero() }
    }
}

/// The angle of a servo and its rate.
#[derive(Clone, Copy, Debug, PartialEq)]
pub struct Motion {
    pub current: Binary32,
    pub velocity: Binary32,
}

/// The pose that a node was authored in, as a unit quaternion.
#[derive(Clone, Copy, Debug, PartialEq)]
pub struct Rotation {
    pub x: Binary32,
    pub y: Binary32,
    pub z: Binary32,
    pub w: Binary32,
}

/// A servo's live state. `rest` is the node's pose at angle zero, read off the node once, so that the
/// pose can be written from the angle alone.
#[derive(Clone, Copy, Debug, PartialEq)]
pub struct ServoState {
    pub motion: Motion,
    pub rest: Rotation,
    pub captured: bool,
}

impl Default for ServoState {
    fn default() -> (r: ServoState)
        ensures
            r.motion == (Motion { current: zero(), velocity: zero() }),
            r.rest == (Rotation { x: zero(), y: zero(), z: zero(), w: one() }),
            !r.captured,
    {
        ServoState {
            motion: Motion { current: zero(), velocity: zero() },
            rest: Rotation { x: zero(), y: zero(), z: zero(), w: one() },
            captured: false,
        }
    }
}

impl ServoState {
    /// The current angle in radians.
    pub fn current(&self) -> (r: Binary32)
        ensures
            r == self.motion.current,
    {
        self.motion.current
    }
}

impl ServoSpec {
    pub open spec fn speed(self) -> Binary32 {
        self.max_speed.radians()
    }

    pub open spec fn acceleration(self) -> Binary32 {
        self.accel.radians()
    }

    pub open spec fn limits(self) -> Travel {
        self.travel.in_radians()
    }

    /// How far the target lies ahead: the short way round where the travel is continuous.
    pub open spec fn lead(self, motion: Motion, target: Binary32) -> Binary32 {
        match self.travel {
            Travel::Limited { .. } => target - motion.current,
            Travel::Continuous => shortest(target - motion.current),
        }
    }

    /// The motion of this step would reach the target or run past it.
    pub open spec fn arrives(self, motion: Motion, target: Binary32, dt: Binary32) -> bool {
        let lead = self.lead(motion, target).absolute();
        (motion.velocity * dt).absolute() >= lead && lead > zero()
    }

    /// The velocity that still allows braking to rest at the target, within the speed limit.
    pub open spec fn wanted_velocity(self, motion: Motion, target: Binary32) -> Binary32 {
        let lead = self.lead(motion, target);
        lead.sign() * (number(TWO_BITS) * self.acceleration() * lead.absolute()).root().smaller(
            self.speed(),
        )
    }

    /// The change of velocity in one step, within the acceleration limit.
    pub open spec fn velocity_change(
        self,
        motion: Motion,
        target: Binary32,
        dt: Binary32,
    ) -> Binary32 {
        let most = self.acceleration() * dt;
        (self.wanted_velocity(motion, target) - motion.velocity).clamped(-most, most)
    }

    /// One step towards the target: land on it where the step arrives, else slew; the travel holds
    /// either way.
    pub open spec fn moved(self, motion: Motion, target: Binary32, dt: Binary32) -> Motion {
        if self.arrives(motion, target, dt) {
            Motion {
                current: self.limits().held(motion.current + self.lead(motion, target)),
                velocity: zero(),
            }
        } else {
            let velocity = motion.velocity + self.velocity_change(motion, target, dt);
            Motion { current: self.limits().held(motion.current + velocity * dt), velocity }
        }
    }

    /// The target is closer than one step can resolve, and the servo slower than one step can brake.
    pub open spec fn settles(self, motion: Motion, target: Binary32, dt: Binary32) -> bool {
        let most = self.acceleration() * dt;
        self.lead(motion, target).absolute() < most * dt && self.moved(
            motion,
            target,
            dt,
        ).velocity.absolute() < most
    }

    /// The motion after a step.
    pub open spec fn stepped(self, motion: Motion, target: Binary32, dt: Binary32) -> Motion {
        let moved = self.moved(motion, target, dt);
        if self.settles(motion, target, dt) {
            Motion {
                current: match self.travel {
                    Travel::Limited { .. } => self.limits().held(target),
                    Travel::Continuous => moved.current,
                },
                velocity: zero(),
            }
        } else {
            moved
        }
    }

    /// The bounds that the step holds a value to are in order: the travel, and the acceleration limit
    /// where it slews.
    pub open spec fn steppable(self, motion: Motion, target: Binary32, dt: Binary32) -> bool {
        let most = self.acceleration() * dt;
        &&& self.limits().ordered()
        &&& self.arrives(motion, target, dt) || -most <= most
    }

    fn lead_of(&self, motion: Motion, target: Binary32) -> (r: Binary32)
        ensures
            r == self.lead(motion, target),
    {
        match self.travel {
            Travel::Limited { .. } => target - motion.current,
            Travel::Continuous => shortest_angle(target - motion.current),
        }
    }

    fn does_arrive(&self, motion: Motion, target: Binary32, dt: Binary32) -> (r: bool)
        ensures
            r == self.arrives(motion, target, dt),
    {
        let lead = self.lead_of(motion, target).abs();
        (motion.velocity * dt).abs() >= lead && lead > zero()
    }

    fn slew(&self, motion: Motion, target: Binary32, dt: Binary32) -> (r: Binary32)
        requires
            -(self.acceleration() * dt) <= self.acceleration() * dt,
        ensures
            r == motion.velocity + self.velocity_change(motion, target, dt),
    {
        let lead = self.lead_of(motion, target);
        let accel = self.accel.to_radians();
        let target_speed = (number(TWO_BITS) * accel * lead.abs()).sqrt().min(
            self.max_speed.to_radians(),
        );
        let wanted = lead.signum() * target_speed;
        let most = accel * dt;
        motion.velocity + (wanted - motion.velocity).clamp(most.negated(), most)
    }

    /// Whether a step is defined.
    pub fn can_step(&self, motion: Motion, target: Binary32, dt: Binary32) -> (r: bool)
        ensures
            r == self.steppable(motion, target, dt),
    {
        let most = self.accel.to_radians() * dt;
        self.travel.to_radians().is_ordered() && (self.does_arrive(motion, target, dt)
            || most.negated() <= most)
    }

    /// Move the servo for `dt` seconds.
    pub fn step(&self, motion: Motion, target: Binary32, dt: Binary32) -> (r: Motion)
        requires
            self.steppable(motion, target, dt),
        ensures
            r == self.stepped(motion, target, dt),
    {
        let lead = self.lead_of(motion, target);
        let limits = self.travel.to_radians();
        let most = self.accel.to_radians() * dt;
        let mut moved = motion;
        if self.does_arrive(motion, target, dt) {
            moved.current = limits.hold(motion.current + lead);
            moved.velocity = zero();
        } else {
            moved.velocity = self.slew(motion, target, dt);
            moved.current = limits.hold(motion.current + moved.velocity * dt);
        }
        if lead.abs() < most * dt && moved.velocity.abs() < most {
            moved.velocity = zero();
            if let Travel::Limited { .. } = self.travel {
                moved.current = limits.hold(target);
            }
        }
        moved
    }
}

/// Drive a servo for `dt` seconds. The pose of the node before the first drive is its rest.
pub fn drive_servo(
    spec: &ServoSpec,
    command: &ServoCommand,
    state: &mut ServoState,
    pose: Rotation,
    dt: Binary32,
)
    requires
        spec.steppable(old(state).motion, command.target, dt),
    ensures
        *final(state) == driven(*spec, *old(state), (Drive { command: *command, pose, dt })),
{
    if !state.captured {
        state.rest = pose;
        state.captured = true;
    }
    state.motion = spec.step(state.motion, command.target, dt);
}

/// The pose that a servo gives its node: the rest, turned about the axis by the angle.
#[derive(Clone, Copy, Debug, PartialEq)]
pub struct ServoPose {
    pub rest: Rotation,
    pub axis: Vector3,
    pub angle: Binary32,
}

pub open spec fn pose_of(spec: ServoSpec, state: ServoState) -> ServoPose {
    ServoPose { rest: state.rest, axis: spec.axis.direction(), angle: state.motion.current }
}

/// The pose of a servo's node.
pub fn servo_pose(spec: &ServoSpec, state: &ServoState) -> (r: ServoPose)
    ensures
        r == pose_of(*spec, *state),
{
    ServoPose { rest: state.rest, axis: spec.axis.to_vec3(), angle: state.current() }
}

/// One drive of a servo: what it is told, the pose of its node, and how long it is driven.
pub struct Drive {
    pub command: ServoCommand,
    pub pose: Rotation,
    pub dt: Binary32,
}

/// The state after one drive.
pub open spec fn driven(spec: ServoSpec, state: ServoState, drive: Drive) -> ServoState {
    ServoState {
        motion: spec.stepped(state.motion, drive.command.target, drive.dt),
        rest: if state.captured {
            state.rest
        } else {
            drive.pose
        },
        captured: true,
    }
}

/// The state after any number of drives, in order.
pub open spec fn after_drives(spec: ServoSpec, state: ServoState, drives: Seq<Drive>) -> ServoState
    decreases drives.len(),
{
    if drives.len() == 0 {
        state
    } else {
        driven(spec, after_drives(spec, state, drives.drop_last()), drives.last())
    }
}

/// The rest is read once: after any number of drives it is the pose of the node at the first of them,
/// unless it was read before. So the pose is absolute: it depends on that rest, on the axis and on the
/// present angle, and on nothing else of the way there.
pub proof fn law_rest_is_read_once(spec: ServoSpec, state: ServoState, drives: Seq<Drive>)
    requires
        drives.len() > 0,
    ensures
        after_drives(spec, state, drives).captured,
        pose_of(spec, after_drives(spec, state, drives)) == (ServoPose {
            rest: if state.captured {
                state.rest
            } else {
                drives[0].pose
            },
            axis: spec.axis.direction(),
            angle: after_drives(spec, state, drives).motion.current,
        }),
    decreases drives.len(),
{
    let rest = drives.drop_last();
    if rest.len() > 0 {
        law_rest_is_read_once(spec, state, rest);
        assert(rest[0] == drives[0]);
    } else {
        assert(after_drives(spec, state, rest) == state);
    }
}

/// A full turn is exactly two half turns.
pub proof fn lemma_full_turn()
    ensures
        number(TAU_BITS).value() == 2 * number(PI_BITS).value(),
        number(PI_BITS).value() > 0,
        number(PI_BITS).is_finite(),
        number(TAU_BITS).is_finite(),
        !number(TAU_BITS).is_zero(),
{
    let b = BINADE as nat;
    let f = (PI_BITS as nat) % b;
    let e = ((PI_BITS as nat) / b - 1) as nat;
    assert((TAU_BITS as nat) % b == f && (TAU_BITS as nat) / b - 1 == e + 1);
    lemma_pow2_unfold(e + 1);
    assert((b + f) * pow2(e + 1) == 2 * ((b + f) * pow2(e))) by (nonlinear_arith)
        requires
            pow2(e + 1) == 2 * pow2(e),
    ;
    assert(magnitude(TAU_BITS as nat) == 2 * magnitude(PI_BITS as nat));
    lemma_units_positive(number(PI_BITS));
}

/// The shortest way round is at most half a turn, either way.
pub proof fn law_shortest_way_is_within_half_a_turn(diff: Binary32)
    requires
        (diff + number(PI_BITS)).is_finite(),
    ensures
        -number(PI_BITS) <= shortest(diff),
        shortest(diff) <= number(PI_BITS),
{
    let pi = number(PI_BITS);
    let tau = number(TAU_BITS);
    let shifted = diff + pi;
    lemma_full_turn();
    lemma_remainder(shifted, tau);
    let r = shifted % tau;
    lemma_order_is_by_value(r, zero());
    lemma_units_positive(r);
    lemma_units_positive(zero());
    let e = shifted.euclidean_remainder(tau);
    if r < zero() {
        assert(tau.absolute() == tau);
        lemma_sum_within(r, tau, zero(), tau);
    } else {
        lemma_order_is_by_value(zero(), r);
        lemma_order_is_by_value(r, tau);
    }
    assert(zero() <= e && e <= tau && e.is_finite());
    lemma_order_is_by_value(zero(), e);
    lemma_order_is_by_value(e, tau);
    lemma_negation(pi);
    lemma_sum_within(e, -pi, -pi, pi);
}

/// No difference is no turn.
pub proof fn lemma_no_turn()
    ensures
        shortest(zero()) == zero(),
{
    let pi = number(PI_BITS);
    let tau = number(TAU_BITS);
    lemma_full_turn();
    lemma_units_positive(zero());
    lemma_adding_zero(pi, zero());
    assert(zero() + pi == pi);
    lemma_remainder(pi, tau);
    vstd::arithmetic::div_mod::lemma_small_mod(pi.units(), tau.units());
    lemma_magnitude_order((pi % tau).index(), pi.index());
    lemma_magnitude_order(pi.index(), (pi % tau).index());
    assert(pi % tau == pi);
    lemma_difference_with_itself(pi);
}

/// A step stops the servo or changes its velocity by no more than the acceleration limit allows.
pub proof fn law_slew_obeys_the_acceleration_limit(
    spec: ServoSpec,
    motion: Motion,
    target: Binary32,
    dt: Binary32,
)
    requires
        spec.steppable(motion, target, dt),
        spec.arrives(motion, target, dt) || !(spec.wanted_velocity(motion, target)
            - motion.velocity).is_nan(),
    ensures
        spec.stepped(motion, target, dt).velocity == zero() || ({
            let most = spec.acceleration() * dt;
            let change = spec.velocity_change(motion, target, dt);
            &&& -most <= change
            &&& change <= most
            &&& spec.stepped(motion, target, dt).velocity == motion.velocity + change
        }),
{
}

/// A servo with limited travel stays within it, whatever it is told and however fast it turns.
pub proof fn law_travel_is_enforced(
    spec: ServoSpec,
    motion: Motion,
    target: Binary32,
    dt: Binary32,
    min: Binary32,
    max: Binary32,
)
    requires
        spec.limits() == (Travel::Limited { min, max }),
        spec.steppable(motion, target, dt),
        !target.is_nan(),
        motion.current.is_finite(),
        spec.arrives(motion, target, dt) || !((motion.velocity + spec.velocity_change(
            motion,
            target,
            dt,
        )) * dt).is_nan(),
    ensures
        min <= spec.stepped(motion, target, dt).current,
        spec.stepped(motion, target, dt).current <= max,
{
    let lead = spec.lead(motion, target);
    lemma_not_nan(target, -motion.current);
    lemma_not_nan(motion.current, lead);
    let velocity = motion.velocity + spec.velocity_change(motion, target, dt);
    lemma_not_nan(motion.current, velocity * dt);
}

/// A sum is a number where one term is finite and the other a number.
proof fn lemma_not_nan(a: Binary32, b: Binary32)
    requires
        a.is_finite() || b.is_finite(),
    ensures
        !a.is_nan() && !b.is_nan() ==> !(a + b).is_nan(),
{
    if a.is_finite() && b.is_finite() {
        lemma_sum(a, b);
    }
}

/// A step that arrives stops the servo.
pub proof fn law_arrival_stops(spec: ServoSpec, motion: Motion, target: Binary32, dt: Binary32)
    requires
        spec.arrives(motion, target, dt),
    ensures
        spec.stepped(motion, target, dt).velocity == zero(),
{
}

/// A servo at rest on a target within its travel stays there: it does not buzz.
pub proof fn law_settled_servo_stays(spec: ServoSpec, target: Binary32, dt: Binary32)
    requires
        target.is_finite(),
        dt.is_finite(),
        at_least_zero(spec.speed()),
        at_least_zero(spec.acceleration()),
        (number(TWO_BITS) * spec.acceleration()).is_finite(),
        -(spec.acceleration() * dt) <= spec.acceleration() * dt,
        match spec.limits() {
            Travel::Limited { min, max } => min <= target && target <= max,
            Travel::Continuous => true,
        },
    ensures
        ({
            let rest = Motion { current: target, velocity: zero() };
            let after = spec.stepped(rest, target, dt);
            &&& spec.steppable(rest, target, dt)
            &&& after.current.same_value(target)
            &&& after.velocity.is_zero()
        }),
{
    let rest = Motion { current: target, velocity: zero() };
    let most = spec.acceleration() * dt;
    lemma_difference_with_itself(target);
    lemma_no_turn();
    assert(spec.lead(rest, target) == zero());
    assert(!spec.arrives(rest, target, dt));
    lemma_zero_product(number(TWO_BITS) * spec.acceleration(), zero());
    let braking = number(TWO_BITS) * spec.acceleration() * zero().absolute();
    assert(braking.is_zero());
    assert(braking.root() == braking);
    let speed = braking.smaller(spec.speed());
    assert(speed.is_zero());
    lemma_zero_product(zero().sign(), speed);
    let wanted = spec.wanted_velocity(rest, target);
    assert(wanted.is_zero());
    lemma_adding_zero(wanted, zero());
    let diff = wanted - zero();
    assert(diff.is_zero());
    let change = diff.clamped(-most, most);
    lemma_negation(most);
    assert(change.is_zero());
    lemma_adding_zero(zero(), change);
    let velocity = zero() + change;
    assert(velocity.is_zero());
    lemma_zero_product(dt, velocity);
    lemma_adding_zero(target, velocity * dt);
}

} // verus!
