//! Traction: differential thrust with skid-steer friction. Each grounded wheel pushes along its track
//! and resists sliding; yaw and turning resistance follow from the forces at the contacts.

use crate::binary32::encoding::Binary32;
use crate::binary32::functions::{number, one, zero};
use crate::binary32::laws::{
    at_least_zero, in_unit_range, lemma_adding_zero, lemma_negation, lemma_root_above_one,
    lemma_scaling_never_lengthens, lemma_share, lemma_sum, lemma_sum_is_monotone,
    lemma_zero_product, lemma_zero_quotient,
};
use crate::damage::capability::{
    capability_available, effectiveness_of, TankCapabilities, TankVolumes, VolumeFacets,
};
use crate::damage::role::Capability;
use crate::driving::input::{in_signed_unit_range, DriveInput};
use crate::driving::parameters::Drivetrain;
use crate::driving::suspension::Suspension;
use crate::tank::rig::TrackSide;
use crate::vector::{
    lemma_minus_itself, lemma_scaled_to_zero, lemma_zero_dot, origin, vector, Vector3,
};
use std::collections::HashMap;
use vstd::prelude::*;

verus! {

/// The friction coefficient along the track: 0.9.
pub const MU: u32 = 0x3f66_6666;

/// The share of it that holds sideways: 0.55.
pub const LATERAL_GRIP_RATIO: u32 = 0x3f0c_cccd;

/// Below this contact speed, in metres per second, a wheel grips: 0.3.
pub const STICK_SPEED: u32 = 0x3e99_999a;

/// A track command up to this counts as none: 0.02.
pub const COMMAND_DEADBAND: u32 = 0x3ca3_d70a;

/// The directions on the ground that a tank pushes along.
#[derive(Clone, Copy, Debug, PartialEq)]
pub struct DriveBasis {
    pub forward: Vector3,
    pub right: Vector3,
}

/// The hull's forward direction laid flat, and the direction to its right.
pub open spec fn ground_basis(hull_forward: Vector3) -> DriveBasis {
    let forward = vector(hull_forward.x, zero(), hull_forward.z).unit_or_zero();
    DriveBasis { forward, right: vector(-forward.z, zero(), forward.x) }
}

pub fn drive_basis(hull_forward: Vector3) -> (r: DriveBasis)
    ensures
        r == ground_basis(hull_forward),
{
    let forward = vector(hull_forward.x, zero(), hull_forward.z).normalize_or_zero();
    DriveBasis { forward, right: vector(forward.z.negated(), zero(), forward.x) }
}

impl DriveBasis {
    /// The parts of a velocity along the track and across it.
    pub fn split(&self, velocity: Vector3) -> (r: (Binary32, Binary32))
        ensures
            r == (velocity.dot(self.forward), velocity.dot(self.right)),
    {
        (velocity.dot(self.forward), velocity.dot(self.right))
    }
}

/// What one tank is to do in this tick.
#[derive(Clone, Copy, Debug, PartialEq)]
pub struct DriveOrder {
    /// The tank can drive at all.
    pub available: bool,
    /// The player controls the tank.
    pub controlled: bool,
    pub input: DriveInput,
    pub drivetrain: Drivetrain,
    pub basis: DriveBasis,
}

impl DriveOrder {
    /// The live intent for the controlled tank; every other tank holds still.
    pub open spec fn intent(self) -> DriveInput {
        if self.controlled {
            self.input
        } else {
            DriveInput { throttle: zero(), steer: zero() }
        }
    }
}

/// The order for a tank: whether it can drive is read off its live volumes, and the ground directions
/// off the hull.
pub open spec fn order_for(
    tank_volumes: Option<&TankVolumes>,
    tank_caps: Option<&TankCapabilities>,
    volumes: Map<u64, VolumeFacets>,
    hull_forward: Vector3,
    controlled: bool,
    input: DriveInput,
    drivetrain: Drivetrain,
) -> DriveOrder {
    DriveOrder {
        available: effectiveness_of(tank_volumes, tank_caps, Capability::Drive, volumes) > zero(),
        controlled,
        input,
        drivetrain,
        basis: ground_basis(hull_forward),
    }
}

/// What a tank is to do in this tick.
pub fn drive_order(
    tank_volumes: Option<&TankVolumes>,
    tank_caps: Option<&TankCapabilities>,
    volumes: &HashMap<u64, VolumeFacets>,
    hull_forward: Vector3,
    controlled: bool,
    input: DriveInput,
    drivetrain: Drivetrain,
) -> (r: DriveOrder)
    ensures
        r == order_for(
            tank_volumes,
            tank_caps,
            volumes@,
            hull_forward,
            controlled,
            input,
            drivetrain,
        ),
        r.available == (effectiveness_of(tank_volumes, tank_caps, Capability::Drive, volumes@)
            > zero()),
        r.controlled == controlled,
        r.input.throttle == input.throttle,
        r.input.steer == input.steer,
        r.drivetrain.max_thrust == drivetrain.max_thrust,
        r.drivetrain.rolling_resistance == drivetrain.rolling_resistance,
        r.drivetrain.lateral_grip == drivetrain.lateral_grip,
        r.drivetrain.brush_stiffness == drivetrain.brush_stiffness,
        r.drivetrain.brush_damping == drivetrain.brush_damping,
        r.basis.forward.y.is_zero(),
        r.basis.right == vector(-r.basis.forward.z, zero(), r.basis.forward.x),
{
    proof {
        law_right_is_square_to_forward(hull_forward);
    }
    DriveOrder {
        available: capability_available(tank_volumes, tank_caps, Capability::Drive, volumes),
        controlled,
        input,
        drivetrain,
        basis: drive_basis(hull_forward),
    }
}

/// A track's share of the intent. Steer adds on the left and takes away on the right, so that it
/// turns the nose the same way at any throttle.
pub open spec fn command_of(side: TrackSide, intent: DriveInput) -> Binary32 {
    (match side {
        TrackSide::Left => intent.throttle + intent.steer,
        TrackSide::Right => intent.throttle - intent.steer,
    }).clamped(-one(), one())
}

pub fn track_command(side: TrackSide, intent: DriveInput) -> (r: Binary32)
    ensures
        r == command_of(side, intent),
{
    let raw = match side {
        TrackSide::Left => intent.throttle + intent.steer,
        TrackSide::Right => intent.throttle - intent.steer,
    };
    raw.clamp(one().negated(), one())
}

/// A roadwheel with what the physics says of its contact: the hull's velocity there, and the length
/// of the part of it on the ground plane.
#[derive(Clone, Copy, Debug, PartialEq)]
pub struct Wheel {
    pub side: TrackSide,
    pub velocity: Vector3,
    pub speed: Binary32,
    pub suspension: Suspension,
}

/// The budgets of the friction ellipse, along the track and across it.
pub open spec fn grip_of(load: Binary32) -> (Binary32, Binary32) {
    let grip = number(MU) * load;
    (grip, grip * number(LATERAL_GRIP_RATIO))
}

/// How far out on the ellipse with the given semi-axes a point lies: one is the boundary.
pub open spec fn ellipse(x: Binary32, y: Binary32, a: Binary32, b: Binary32) -> Binary32 {
    (x / a) * (x / a) + (y / b) * (y / b)
}

fn ellipse_level(x: Binary32, y: Binary32, a: Binary32, b: Binary32) -> (r: Binary32)
    ensures
        r == ellipse(x, y, a, b),
{
    let u = x / a;
    let v = y / b;
    u * u + v * v
}

/// The brush of a wheel: the point that it grips, and how far the contact has slipped from it along
/// the track and across it.
#[derive(Clone, Copy, Debug, PartialEq)]
pub struct Brush {
    pub anchor: Option<Vector3>,
    pub along: Binary32,
    pub across: Binary32,
}

/// The brush after gripping or letting go, before it stretches to its limit. A slow contact grips
/// where it is unless it grips already; a fast one lets go.
pub open spec fn planted(wheel: Wheel, contact: Vector3, basis: DriveBasis) -> Brush {
    let anchor = if !(wheel.speed < number(STICK_SPEED)) {
        None
    } else if wheel.suspension.anchor is None {
        Some(contact)
    } else {
        wheel.suspension.anchor
    };
    match anchor {
        Some(point) => Brush {
            anchor,
            along: contact.minus(point).dot(basis.forward),
            across: contact.minus(point).dot(basis.right),
        },
        None => Brush { anchor, along: zero(), across: zero() },
    }
}

/// The brush held to its slip point: past it, the anchor trails the contact.
pub open spec fn saturated(
    brush: Brush,
    contact: Vector3,
    load: Binary32,
    drivetrain: Drivetrain,
    basis: DriveBasis,
) -> Brush {
    let (grip, grip_lat) = grip_of(load);
    let level = ellipse(
        brush.along,
        brush.across,
        grip / drivetrain.brush_stiffness,
        grip_lat / drivetrain.brush_stiffness,
    );
    if brush.anchor is Some && level > one() {
        let s = level.root().reciprocal();
        let along = brush.along * s;
        let across = brush.across * s;
        Brush {
            anchor: Some(
                contact.minus(basis.forward.scaled(along)).minus(basis.right.scaled(across)),
            ),
            along,
            across,
        }
    } else {
        brush
    }
}

/// The wheel drives: its command is outside the dead band.
pub open spec fn drives(command: Binary32) -> bool {
    command.absolute() > number(COMMAND_DEADBAND)
}

/// The force along the track: thrust against rolling resistance while driving, the brush while
/// gripping, rolling resistance alone while coasting.
pub open spec fn force_along(
    wheel: Wheel,
    brush: Brush,
    command: Binary32,
    drivetrain: Drivetrain,
    basis: DriveBasis,
) -> Binary32 {
    let v = wheel.velocity.dot(basis.forward);
    if drives(command) {
        command * drivetrain.max_thrust - drivetrain.rolling_resistance * v
    } else if wheel.speed < number(STICK_SPEED) {
        (-drivetrain.brush_stiffness) * brush.along - drivetrain.brush_damping * v
    } else {
        (-drivetrain.rolling_resistance) * v
    }
}

/// The force across the track: the brush while gripping, else the resistance to sliding.
pub open spec fn force_across(
    wheel: Wheel,
    brush: Brush,
    drivetrain: Drivetrain,
    basis: DriveBasis,
) -> Binary32 {
    let v = wheel.velocity.dot(basis.right);
    if wheel.speed < number(STICK_SPEED) {
        (-drivetrain.brush_stiffness) * brush.across - drivetrain.brush_damping * v
    } else {
        (-drivetrain.lateral_grip) * v
    }
}

/// The ground force: both parts, brought back to the boundary of the friction ellipse where they lie
/// outside it.
pub open spec fn capped_force(
    along: Binary32,
    across: Binary32,
    load: Binary32,
    basis: DriveBasis,
) -> Vector3 {
    let (grip, grip_lat) = grip_of(load);
    let force = basis.forward.scaled(along).plus(basis.right.scaled(across));
    let level = ellipse(along, across, grip, grip_lat);
    if level > one() {
        force.scaled(level.root().reciprocal())
    } else {
        force
    }
}

/// The anchor after the drive: while driving it rolls along with the contact.
pub open spec fn rolled_anchor(brush: Brush, command: Binary32, basis: DriveBasis) -> Option<Vector3> {
    match brush.anchor {
        Some(point) if drives(command) => Some(point.plus(basis.forward.scaled(brush.along))),
        anchor => anchor,
    }
}

/// A grounded, loaded wheel after the drive, and its ground force.
pub open spec fn pushed(order: DriveOrder, wheel: Wheel, contact: Vector3) -> (Suspension, Vector3) {
    let load = wheel.suspension.load;
    let command = command_of(wheel.side, order.intent());
    let brush = saturated(
        planted(wheel, contact, order.basis),
        contact,
        load,
        order.drivetrain,
        order.basis,
    );
    let force = capped_force(
        force_along(wheel, brush, command, order.drivetrain, order.basis),
        force_across(wheel, brush, order.drivetrain, order.basis),
        load,
        order.basis,
    );
    (
        Suspension {
            drive_force: force,
            anchor: rolled_anchor(brush, command, order.basis),
            ..wheel.suspension
        },
        force,
    )
}

/// A wheel after the drive, and its ground force if it has any. A tank that cannot drive parks; a
/// wheel off the ground is left alone; one without load neither pushes nor grips.
pub open spec fn driven(order: DriveOrder, wheel: Wheel) -> (Suspension, Option<Vector3>) {
    if !order.available {
        (Suspension { drive_force: origin(), ..wheel.suspension }, None)
    } else {
        match wheel.suspension.contact {
            None => (wheel.suspension, None),
            Some(contact) => if wheel.suspension.load <= zero() {
                (Suspension { drive_force: origin(), anchor: None, ..wheel.suspension }, None)
            } else {
                let (suspension, force) = pushed(order, wheel, contact);
                (suspension, Some(force))
            },
        }
    }
}

fn plant(wheel: &Wheel, contact: Vector3, basis: &DriveBasis) -> (r: Brush)
    ensures
        r == planted(*wheel, contact, *basis),
{
    let gripping = wheel.speed < number(STICK_SPEED);
    let anchor: Option<Vector3> = if !gripping {
        None
    } else if wheel.suspension.anchor.is_none() {
        Some(contact)
    } else {
        wheel.suspension.anchor
    };
    match anchor {
        Some(point) => {
            let slip = contact.minus(point);
            Brush { anchor, along: slip.dot(basis.forward), across: slip.dot(basis.right) }
        },
        None => Brush { anchor, along: zero(), across: zero() },
    }
}

fn saturate(
    brush: Brush,
    contact: Vector3,
    load: Binary32,
    drivetrain: &Drivetrain,
    basis: &DriveBasis,
) -> (r: Brush)
    ensures
        r == saturated(brush, contact, load, *drivetrain, *basis),
{
    let grip = number(MU) * load;
    let grip_lat = grip * number(LATERAL_GRIP_RATIO);
    if brush.anchor.is_some() {
        let level = ellipse_level(
            brush.along,
            brush.across,
            grip / drivetrain.brush_stiffness,
            grip_lat / drivetrain.brush_stiffness,
        );
        if level > one() {
            let s = level.sqrt().recip();
            let along = brush.along * s;
            let across = brush.across * s;
            let trailing = contact.minus(basis.forward.scaled(along)).minus(
                basis.right.scaled(across),
            );
            return Brush { anchor: Some(trailing), along, across };
        }
    }
    brush
}

fn push_wheel(order: &DriveOrder, wheel: &mut Wheel, contact: Vector3) -> (force: Vector3)
    ensures
        final(wheel).suspension == pushed(*order, *old(wheel), contact).0,
        force == pushed(*order, *old(wheel), contact).1,
        final(wheel).side == old(wheel).side,
        final(wheel).velocity == old(wheel).velocity,
        final(wheel).speed == old(wheel).speed,
{
    let basis = order.basis;
    let drivetrain = order.drivetrain;
    let load = wheel.suspension.load;
    let intent = if order.controlled {
        order.input
    } else {
        DriveInput { throttle: zero(), steer: zero() }
    };
    let command = track_command(wheel.side, intent);
    let driving = command.abs() > number(COMMAND_DEADBAND);
    let gripping = wheel.speed < number(STICK_SPEED);
    let (v_along, v_across) = basis.split(wheel.velocity);
    let brush = saturate(plant(wheel, contact, &basis), contact, load, &drivetrain, &basis);

    let along = if driving {
        command * drivetrain.max_thrust - drivetrain.rolling_resistance * v_along
    } else if gripping {
        drivetrain.brush_stiffness.negated() * brush.along - drivetrain.brush_damping * v_along
    } else {
        drivetrain.rolling_resistance.negated() * v_along
    };
    let across = if gripping {
        drivetrain.brush_stiffness.negated() * brush.across - drivetrain.brush_damping * v_across
    } else {
        drivetrain.lateral_grip.negated() * v_across
    };

    let grip = number(MU) * load;
    let mut force = basis.forward.scaled(along).plus(basis.right.scaled(across));
    let level = ellipse_level(along, across, grip, grip * number(LATERAL_GRIP_RATIO));
    if level > one() {
        force = force.scaled(level.sqrt().recip());
    }
    wheel.suspension.anchor = match brush.anchor {
        Some(point) => if driving {
            Some(point.plus(basis.forward.scaled(brush.along)))
        } else {
            Some(point)
        },
        None => None,
    };
    wheel.suspension.drive_force = force;
    force
}

/// Drive one wheel for this tick. The result is the force on the hull at the contact, if there is any.
pub fn drive_wheel(order: &DriveOrder, wheel: &mut Wheel) -> (force: Option<Vector3>)
    ensures
        final(wheel).suspension == driven(*order, *old(wheel)).0,
        force == driven(*order, *old(wheel)).1,
        final(wheel).side == old(wheel).side,
        final(wheel).velocity == old(wheel).velocity,
        final(wheel).speed == old(wheel).speed,
{
    if !order.available {
        wheel.suspension.drive_force = origin();
        return None;
    }
    match wheel.suspension.contact {
        None => None,
        Some(contact) => {
            if wheel.suspension.load <= zero() {
                wheel.suspension.drive_force = origin();
                wheel.suspension.anchor = None;
                return None;
            }
            Some(push_wheel(order, wheel, contact))
        },
    }
}

/// Drive all wheels of a tank for this tick: the force at each wheel's contact, in order.
pub fn apply_drive(order: &DriveOrder, wheels: &mut Vec<Wheel>) -> (forces: Vec<Option<Vector3>>)
    ensures
        final(wheels)@.len() == old(wheels)@.len(),
        forces@.len() == old(wheels)@.len(),
        forall|i: int|
            0 <= i < old(wheels)@.len() ==> {
                &&& (#[trigger] final(wheels)@[i]) == (Wheel {
                    suspension: driven(*order, old(wheels)@[i]).0,
                    ..old(wheels)@[i]
                })
                &&& forces@[i] == driven(*order, old(wheels)@[i]).1
            },
{
    let ghost before = wheels@;
    let mut forces: Vec<Option<Vector3>> = Vec::new();
    let mut i: usize = 0;
    while i < wheels.len()
        invariant
            i <= wheels.len(),
            wheels@.len() == before.len(),
            forces@.len() == i,
            forall|k: int|
                0 <= k < i ==> {
                    &&& (#[trigger] wheels@[k]) == (Wheel {
                        suspension: driven(*order, before[k]).0,
                        ..before[k]
                    })
                    &&& forces@[k] == driven(*order, before[k]).1
                },
            forall|k: int| i <= k < wheels@.len() ==> (#[trigger] wheels@[k]) == before[k],
        decreases wheels.len() - i,
    {
        let mut wheel = wheels[i];
        let force = drive_wheel(order, &mut wheel);
        wheels.set(i, wheel);
        forces.push(force);
        i = i + 1;
    }
    forces
}

/// A tank whose Drive capability is gone parks: none of its wheels pushes.
pub proof fn law_tank_without_drive_parks(
    tank_volumes: Option<&TankVolumes>,
    tank_caps: Option<&TankCapabilities>,
    volumes: Map<u64, VolumeFacets>,
    hull_forward: Vector3,
    controlled: bool,
    input: DriveInput,
    drivetrain: Drivetrain,
    wheel: Wheel,
)
    requires
        !(effectiveness_of(tank_volumes, tank_caps, Capability::Drive, volumes) > zero()),
    ensures
        ({
            let order = order_for(
                tank_volumes,
                tank_caps,
                volumes,
                hull_forward,
                controlled,
                input,
                drivetrain,
            );
            &&& driven(order, wheel).1 is None
            &&& driven(order, wheel).0 == (Suspension {
                drive_force: origin(),
                ..wheel.suspension
            })
        }),
{
}

/// A tank that cannot drive parks: no wheel pushes, and no wheel lets go.
pub proof fn law_disabled_tank_parks(order: DriveOrder, wheel: Wheel)
    requires
        !order.available,
    ensures
        driven(order, wheel).1 is None,
        driven(order, wheel).0 == (Suspension { drive_force: origin(), ..wheel.suspension }),
{
}

/// A wheel without load has no ground force and holds no anchor.
pub proof fn law_unloaded_wheel_is_idle(order: DriveOrder, wheel: Wheel)
    requires
        order.available,
        wheel.suspension.contact is Some,
        wheel.suspension.load <= zero(),
    ensures
        driven(order, wheel).1 is None,
        driven(order, wheel).0.drive_force == origin(),
        driven(order, wheel).0.anchor is None,
{
}

/// A track command is from minus one to one.
pub proof fn law_command_stays_in_range(side: TrackSide, intent: DriveInput)
    requires
        intent.throttle.is_finite(),
        intent.steer.is_finite(),
    ensures
        in_signed_unit_range(command_of(side, intent)),
{
    lemma_sum(intent.throttle, intent.steer);
    lemma_negation(intent.steer);
    lemma_sum(intent.throttle, -intent.steer);
}

/// Only the controlled tank drives: every other one holds.
pub proof fn law_only_the_controlled_tank_drives(order: DriveOrder, side: TrackSide)
    requires
        !order.controlled,
    ensures
        !drives(command_of(side, order.intent())),
{
    lemma_adding_zero(zero(), zero());
}

/// Steer to the right turns the nose to the right at any throttle: the left track never gets less
/// than the right one.
pub proof fn law_steer_turns_the_same_way(throttle: Binary32, steer: Binary32)
    requires
        throttle.is_finite(),
        steer.is_finite(),
        at_least_zero(steer),
    ensures
        ({
            let intent = DriveInput { throttle, steer };
            command_of(TrackSide::Right, intent) <= command_of(TrackSide::Left, intent)
        }),
{
    lemma_negation(steer);
    lemma_sum_is_monotone(throttle, -steer, throttle, steer);
    lemma_negation(one());
}

/// Pure steer turns in place: the tracks get opposite commands.
pub proof fn law_pure_steer_is_symmetric(steer: Binary32)
    requires
        steer.is_finite(),
    ensures
        ({
            let intent = DriveInput { throttle: zero(), steer };
            command_of(TrackSide::Right, intent).same_value(-command_of(TrackSide::Left, intent))
        }),
{
    lemma_adding_zero(steer, zero());
    lemma_adding_zero(-steer, zero());
    lemma_negation(steer);
    lemma_negation(one());
    let left = zero() + steer;
    let right = zero() - steer;
    assert(left.rank() == -right.rank());
}

/// A grounded, loaded wheel holds an anchor exactly while it is slow.
pub proof fn law_grip_follows_speed(order: DriveOrder, wheel: Wheel)
    requires
        order.available,
        wheel.suspension.contact is Some,
        !(wheel.suspension.load <= zero()),
    ensures
        driven(order, wheel).0.anchor is Some <==> wheel.speed < number(STICK_SPEED),
{
}

/// The scale that brings a point back to the ellipse is a shrinking one.
pub proof fn lemma_trim(level: Binary32)
    requires
        level > one(),
    ensures
        in_unit_range(level.root().reciprocal()),
{
    lemma_root_above_one(level);
    lemma_share(one(), level.root());
}

/// Bringing a part back to the ellipse does not lengthen it.
proof fn lemma_trimmed(part: Binary32, level: Binary32)
    requires
        part.is_finite(),
    ensures
        level > one() ==> (part * level.root().reciprocal()).absolute() <= part.absolute(),
        part.absolute() <= part.absolute(),
{
    if level > one() {
        lemma_trim(level);
        lemma_scaling_never_lengthens(part, level.root().reciprocal());
    }
}

/// The friction cap never lengthens the ground force: no component grows.
pub proof fn law_friction_cap_never_lengthens(
    along: Binary32,
    across: Binary32,
    load: Binary32,
    basis: DriveBasis,
)
    requires
        basis.forward.scaled(along).plus(basis.right.scaled(across)).is_finite(),
    ensures
        ({
            let free = basis.forward.scaled(along).plus(basis.right.scaled(across));
            let force = capped_force(along, across, load, basis);
            &&& force.x.absolute() <= free.x.absolute()
            &&& force.y.absolute() <= free.y.absolute()
            &&& force.z.absolute() <= free.z.absolute()
        }),
{
    let (grip, grip_lat) = grip_of(load);
    let free = basis.forward.scaled(along).plus(basis.right.scaled(across));
    lemma_trimmed(free.x, ellipse(along, across, grip, grip_lat));
    lemma_trimmed(free.y, ellipse(along, across, grip, grip_lat));
    lemma_trimmed(free.z, ellipse(along, across, grip, grip_lat));
}

/// The brush never stretches further than it slipped: saturation only shortens the slip.
pub proof fn law_saturation_never_stretches(
    brush: Brush,
    contact: Vector3,
    load: Binary32,
    drivetrain: Drivetrain,
    basis: DriveBasis,
)
    requires
        brush.along.is_finite(),
        brush.across.is_finite(),
    ensures
        ({
            let after = saturated(brush, contact, load, drivetrain, basis);
            &&& after.along.absolute() <= brush.along.absolute()
            &&& after.across.absolute() <= brush.across.absolute()
            &&& after.anchor is Some <==> brush.anchor is Some
        }),
{
    let (grip, grip_lat) = grip_of(load);
    let level = ellipse(
        brush.along,
        brush.across,
        grip / drivetrain.brush_stiffness,
        grip_lat / drivetrain.brush_stiffness,
    );
    lemma_trimmed(brush.along, level);
    lemma_trimmed(brush.across, level);
}

/// Two zeros lie on no ellipse outside its boundary.
pub proof fn lemma_center_of_ellipse(x: Binary32, y: Binary32, a: Binary32, b: Binary32)
    requires
        x.is_zero(),
        y.is_zero(),
    ensures
        !(ellipse(x, y, a, b) > one()),
{
    lemma_zero_quotient(x, a);
    lemma_zero_quotient(y, b);
    let u = x / a;
    let v = y / b;
    if !u.is_nan() && !v.is_nan() {
        lemma_zero_product(u, u);
        lemma_zero_product(v, v);
        lemma_adding_zero(u * u, v * v);
    }
}

/// A wheel that stands still on its anchor feels no ground force, and the anchor stays: a parked tank
/// does not creep.
pub proof fn law_standing_wheel_rests(order: DriveOrder, wheel: Wheel, contact: Vector3)
    requires
        order.available,
        wheel.suspension.contact == Some(contact),
        wheel.suspension.anchor == Some(contact),
        !(wheel.suspension.load <= zero()),
        contact.is_finite(),
        order.basis.forward.is_finite(),
        order.basis.right.is_finite(),
        order.drivetrain.brush_stiffness.is_finite(),
        order.drivetrain.brush_damping.is_finite(),
        wheel.velocity.is_zero(),
        wheel.speed < number(STICK_SPEED),
        !drives(command_of(wheel.side, order.intent())),
    ensures
        driven(order, wheel).1 matches Some(force) && force.is_zero(),
        driven(order, wheel).0.anchor == Some(contact),
{
    let basis = order.basis;
    let d = order.drivetrain;
    let load = wheel.suspension.load;
    let (grip, grip_lat) = grip_of(load);
    let brush = planted(wheel, contact, basis);
    assert(brush.along.is_zero() && brush.across.is_zero()) by {
        lemma_minus_itself(contact);
        lemma_zero_dot(origin(), basis.forward);
        lemma_zero_dot(origin(), basis.right);
    }
    assert(saturated(brush, contact, load, d, basis) == brush) by {
        lemma_center_of_ellipse(
            brush.along,
            brush.across,
            grip / d.brush_stiffness,
            grip_lat / d.brush_stiffness,
        );
    }
    let command = command_of(wheel.side, order.intent());
    let along = force_along(wheel, brush, command, d, basis);
    let across = force_across(wheel, brush, d, basis);
    assert(along.is_zero() && across.is_zero()) by {
        lemma_zero_dot(wheel.velocity, basis.forward);
        lemma_zero_dot(wheel.velocity, basis.right);
        lemma_relaxed_brush(
            d.brush_stiffness,
            brush.along,
            d.brush_damping,
            wheel.velocity.dot(basis.forward),
        );
        lemma_relaxed_brush(
            d.brush_stiffness,
            brush.across,
            d.brush_damping,
            wheel.velocity.dot(basis.right),
        );
    }
    assert(capped_force(along, across, load, basis).is_zero()) by {
        lemma_center_of_ellipse(along, across, grip, grip_lat);
        lemma_scaled_to_zero(basis.forward, basis.right, along, across);
    }
}

/// A brush without slip at rest exerts nothing.
pub proof fn lemma_relaxed_brush(k: Binary32, slip: Binary32, c: Binary32, v: Binary32)
    requires
        k.is_finite(),
        c.is_finite(),
        slip.is_zero(),
        v.is_zero(),
    ensures
        ((-k) * slip - c * v).is_zero(),
{
    lemma_negation(k);
    lemma_zero_product(-k, slip);
    lemma_zero_product(c, v);
    lemma_adding_zero((-k) * slip, c * v);
}

/// The ground directions are level, and the right one is the forward one turned by a quarter turn to
/// the right.
pub proof fn law_right_is_square_to_forward(hull_forward: Vector3)
    ensures
        ({
            let basis = ground_basis(hull_forward);
            &&& basis.forward.y.is_zero()
            &&& basis.right.x == -basis.forward.z
            &&& basis.right.y == zero()
            &&& basis.right.z == basis.forward.x
        }),
{
    let r = vector(hull_forward.x, zero(), hull_forward.z).length_reciprocal();
    if r.is_finite() {
        lemma_zero_product(r, zero());
    }
}

} // verus!
