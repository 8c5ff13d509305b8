//! What the tracks do to the hull: thrust along the heading, resistance against the motion, and the
//! brush that pulls back to where the wheel grips.

use crate::binary32::encoding::Binary32;
use crate::binary32::functions::{number, one, zero};
use crate::binary32::laws::{
    at_least_zero, lemma_adding_zero, lemma_negation, lemma_one_is_neutral, lemma_opposite_product,
    lemma_product_commutes, lemma_product_grows, lemma_root_of_one, lemma_scaled_down,
    lemma_scaling_keeps_order, lemma_share, lemma_sum_commutes, lemma_sum_is_monotone,
    lemma_unit_range_units, lemma_zero_product, lemma_zero_quotient,
};
use crate::damage::capability::{effectiveness_of, TankCapabilities, TankVolumes, VolumeFacets};
use crate::damage::role::Capability;
use crate::driving::input::{in_signed_unit_range, DriveInput};
use crate::driving::parameters::Drivetrain;
use crate::driving::traction::{
    capped_force, command_of, driven, drives, ellipse, force_across, force_along, grip_of,
    ground_basis, lemma_center_of_ellipse, lemma_relaxed_brush, order_for, planted, rolled_anchor,
    saturated, Brush, DriveBasis, DriveOrder, Wheel, COMMAND_DEADBAND, LATERAL_GRIP_RATIO, MU,
    STICK_SPEED,
};
use crate::tank::rig::TrackSide;
use crate::vector::{lemma_minus_itself, lemma_zero_dot, origin, vector, Vector3};
use vstd::prelude::*;

verus! {

/// The order of a tank carries what it is made from unchanged: the intent, and the drivetrain field by
/// field.
pub proof fn law_order_carries_the_drivetrain(
    tank_volumes: Option<&TankVolumes>,
    tank_caps: Option<&TankCapabilities>,
    volumes: Map<u64, VolumeFacets>,
    hull_forward: Vector3,
    controlled: bool,
    input: DriveInput,
    drivetrain: Drivetrain,
)
    ensures
        ({
            let order = order_for(
                tank_volumes,
                tank_caps,
                volumes,
                hull_forward,
                controlled,
                input,
                drivetrain,
            );
            &&& order.available <==> effectiveness_of(
                tank_volumes,
                tank_caps,
                Capability::Drive,
                volumes,
            ) > zero()
            &&& order.controlled == controlled
            &&& order.input.throttle == input.throttle
            &&& order.input.steer == input.steer
            &&& order.drivetrain.max_thrust == drivetrain.max_thrust
            &&& order.drivetrain.rolling_resistance == drivetrain.rolling_resistance
            &&& order.drivetrain.lateral_grip == drivetrain.lateral_grip
            &&& order.drivetrain.brush_stiffness == drivetrain.brush_stiffness
            &&& order.drivetrain.brush_damping == drivetrain.brush_damping
            &&& controlled ==> order.intent() == input
            &&& !controlled ==> order.intent().throttle == zero() && order.intent().steer == zero()
        }),
{
}

/// A number keeps its side of zero when it is scaled by a positive one.
proof fn lemma_same_side(x: Binary32, r: Binary32)
    requires
        x.is_finite(),
        r.is_finite(),
        r > zero(),
    ensures
        x >= zero() ==> x * r >= zero(),
        x <= zero() ==> x * r <= zero(),
        x.is_zero() ==> (x * r).is_zero(),
{
    lemma_negation(x);
    if at_least_zero(x) {
        lemma_product_grows(x, r, x, r);
    } else {
        lemma_product_grows(-x, r, -x, r);
        lemma_opposite_product(-x, r);
        lemma_negation((-x) * r);
    }
    if x.is_zero() {
        lemma_zero_product(r, x);
    }
}

/// A tank pushes the way that its hull points: each component of the heading keeps its side of zero,
/// and the heading is level.
pub proof fn law_heading_follows_the_hull(hull_forward: Vector3)
    requires
        hull_forward.is_finite(),
    ensures
        ({
            let forward = ground_basis(hull_forward).forward;
            &&& hull_forward.x >= zero() ==> forward.x >= zero()
            &&& hull_forward.x <= zero() ==> forward.x <= zero()
            &&& hull_forward.z >= zero() ==> forward.z >= zero()
            &&& hull_forward.z <= zero() ==> forward.z <= zero()
            &&& forward.y.is_zero()
        }),
{
    let r = vector(hull_forward.x, zero(), hull_forward.z).length_reciprocal();
    if r.is_finite() && r > zero() {
        lemma_same_side(hull_forward.x, r);
        lemma_same_side(zero(), r);
        lemma_same_side(hull_forward.z, r);
    }
}

/// A hull whose direction on the ground has length one already pushes exactly along it.
pub proof fn law_level_heading_is_kept(hull_forward: Vector3)
    requires
        hull_forward.is_finite(),
        hull_forward.x * hull_forward.x + zero() * zero() + hull_forward.z * hull_forward.z
            == one(),
    ensures
        ground_basis(hull_forward).forward == vector(hull_forward.x, zero(), hull_forward.z),
        ground_basis(hull_forward).right == vector(-hull_forward.z, zero(), hull_forward.x),
{
    lemma_root_of_one();
    lemma_one_is_neutral(hull_forward.x);
    lemma_one_is_neutral(hull_forward.z);
    lemma_one_is_neutral(zero());
}

/// The heading does not depend on how steeply the hull is pitched, only on its direction seen from
/// above.
pub proof fn law_pitch_does_not_matter(first: Vector3, second: Vector3)
    requires
        first.x == second.x,
        first.z == second.z,
    ensures
        ground_basis(first) == ground_basis(second),
{
}

/// The intent asks the track for all it has, forwards: full throttle without steer, or a full turn in
/// place away from the track's side.
pub open spec fn full_ahead(side: TrackSide, intent: DriveInput) -> bool {
    ||| intent.throttle == one() && intent.steer.is_zero()
    ||| intent.throttle.is_zero() && side == TrackSide::Left && intent.steer == one()
    ||| intent.throttle.is_zero() && side == TrackSide::Right && intent.steer == -one()
}

/// Full ahead is full command.
proof fn lemma_full_command(side: TrackSide, intent: DriveInput)
    requires
        full_ahead(side, intent),
    ensures
        command_of(side, intent) == one(),
        drives(command_of(side, intent)),
{
    lemma_negation(one());
    if intent.throttle.is_zero() {
        lemma_adding_zero(one(), intent.throttle);
        lemma_sum_commutes(one(), intent.throttle);
    }
    lemma_negation(intent.steer);
    if intent.steer.is_zero() {
        lemma_adding_zero(one(), intent.steer);
        lemma_adding_zero(one(), -intent.steer);
    }
}

/// A point on the long axis of an ellipse, no further out than the axis reaches, is not outside.
proof fn lemma_on_the_axis(x: Binary32, y: Binary32, a: Binary32, b: Binary32)
    requires
        at_least_zero(x),
        x.is_finite(),
        x <= a,
        a > zero(),
        y.is_zero(),
    ensures
        !(ellipse(x, y, a, b) > one()),
{
    let u = x / a;
    let v = y / b;
    lemma_share(x, a);
    lemma_unit_range_units(u);
    lemma_scaled_down(u, u, u, u);
    lemma_zero_quotient(y, b);
    if !v.is_nan() {
        lemma_zero_product(v, v);
        lemma_adding_zero(u * u, v * v);
    }
}

/// The brush of a wheel that stands where it grips has no slip.
proof fn lemma_standing_brush(order: DriveOrder, wheel: Wheel, contact: Vector3)
    requires
        contact.is_finite(),
        order.basis.forward.is_finite(),
        order.basis.right.is_finite(),
        wheel.suspension.anchor is None || wheel.suspension.anchor == Some(contact),
        wheel.speed < number(STICK_SPEED),
    ensures
        ({
            let brush = saturated(
                planted(wheel, contact, order.basis),
                contact,
                wheel.suspension.load,
                order.drivetrain,
                order.basis,
            );
            brush.along.is_zero() && brush.across.is_zero() && brush.anchor == Some(contact)
        }),
{
    let brush = planted(wheel, contact, order.basis);
    let (grip, grip_lat) = grip_of(wheel.suspension.load);
    lemma_minus_itself(contact);
    lemma_zero_dot(origin(), order.basis.forward);
    lemma_zero_dot(origin(), order.basis.right);
    lemma_center_of_ellipse(
        brush.along,
        brush.across,
        grip / order.drivetrain.brush_stiffness,
        grip_lat / order.drivetrain.brush_stiffness,
    );
}

/// Thrust from rest: without speed nothing is lost to resistance.
proof fn lemma_thrust_from_rest(thrust: Binary32, resistance: Binary32, v: Binary32)
    requires
        thrust.is_finite(),
        thrust > zero(),
        resistance.is_finite(),
        v.is_zero(),
    ensures
        one() * thrust - resistance * v == thrust,
{
    lemma_one_is_neutral(thrust);
    lemma_zero_product(resistance, v);
    lemma_negation(resistance * v);
    lemma_adding_zero(thrust, -(resistance * v));
}

/// The parts of the force of a standing wheel at full command: the thrust along the track, and nothing
/// across it.
proof fn lemma_parts_from_rest(wheel: Wheel, brush: Brush, d: Drivetrain, basis: DriveBasis)
    requires
        brush.along.is_zero(),
        brush.across.is_zero(),
        basis.forward.is_finite(),
        basis.right.is_finite(),
        d.rolling_resistance.is_finite(),
        d.brush_stiffness.is_finite(),
        d.brush_damping.is_finite(),
        d.max_thrust.is_finite(),
        d.max_thrust > zero(),
        wheel.velocity.is_zero(),
        wheel.speed < number(STICK_SPEED),
    ensures
        force_along(wheel, brush, one(), d, basis) == d.max_thrust,
        force_across(wheel, brush, d, basis).is_zero(),
{
    let v = wheel.velocity.dot(basis.forward);
    let w = wheel.velocity.dot(basis.right);
    assert(v.is_zero()) by {
        lemma_zero_dot(wheel.velocity, basis.forward);
    }
    assert(w.is_zero()) by {
        lemma_zero_dot(wheel.velocity, basis.right);
    }
    assert(drives(one()));
    lemma_thrust_from_rest(d.max_thrust, d.rolling_resistance, v);
    lemma_relaxed_brush(d.brush_stiffness, brush.across, d.brush_damping, w);
}

/// A force along the heading alone, within the grip, is not cut.
proof fn lemma_uncut(along: Binary32, across: Binary32, load: Binary32, basis: DriveBasis)
    requires
        along.is_finite(),
        along > zero(),
        along <= number(MU) * load,
        across.is_zero(),
    ensures
        capped_force(along, across, load, basis) == basis.forward.scaled(along).plus(
            basis.right.scaled(across),
        ),
{
    let (grip, grip_lat) = grip_of(load);
    lemma_on_the_axis(along, across, grip, grip_lat);
}

/// A wheel of a tank with full command from rest, within the grip: its force is the full thrust along
/// the heading and nothing else.
proof fn lemma_full_thrust(order: DriveOrder, wheel: Wheel, contact: Vector3) -> (rest: Binary32)
    requires
        order.available,
        wheel.suspension.contact == Some(contact),
        wheel.suspension.anchor is None || wheel.suspension.anchor == Some(contact),
        !(wheel.suspension.load <= zero()),
        contact.is_finite(),
        order.basis.forward.is_finite(),
        order.basis.right.is_finite(),
        order.drivetrain.rolling_resistance.is_finite(),
        order.drivetrain.brush_stiffness.is_finite(),
        order.drivetrain.brush_damping.is_finite(),
        order.drivetrain.max_thrust.is_finite(),
        order.drivetrain.max_thrust > zero(),
        order.drivetrain.max_thrust <= number(MU) * wheel.suspension.load,
        wheel.velocity.is_zero(),
        wheel.speed < number(STICK_SPEED),
        command_of(wheel.side, order.intent()) == one(),
    ensures
        rest.is_zero(),
        driven(order, wheel).1 == Some(
            order.basis.forward.scaled(order.drivetrain.max_thrust).plus(
                order.basis.right.scaled(rest),
            ),
        ),
{
    let basis = order.basis;
    let d = order.drivetrain;
    let load = wheel.suspension.load;
    let brush = saturated(planted(wheel, contact, basis), contact, load, d, basis);
    lemma_standing_brush(order, wheel, contact);
    lemma_parts_from_rest(wheel, brush, d, basis);
    let rest = force_across(wheel, brush, d, basis);
    lemma_uncut(d.max_thrust, rest, load, basis);
    rest
}

/// A sum with a zero product is the rest of it.
proof fn lemma_nothing_added(a: Binary32, b: Binary32, nothing: Binary32)
    requires
        a.is_finite(),
        b.is_finite(),
        nothing.is_zero(),
    ensures
        (a + b * nothing).same_value(a),
{
    lemma_zero_product(b, nothing);
    lemma_adding_zero(a, b * nothing);
}

/// End to end: a standing, grounded wheel of a tank that can drive, full ahead and within its grip, is pushed along the hull's heading with exactly the thrust of the tank's drivetrain.
pub proof fn law_full_throttle_gives_full_thrust(
    tank_volumes: Option<&TankVolumes>,
    tank_caps: Option<&TankCapabilities>,
    volumes: Map<u64, VolumeFacets>,
    hull_forward: Vector3,
    input: DriveInput,
    drivetrain: Drivetrain,
    wheel: Wheel,
    contact: Vector3,
)
    requires
        effectiveness_of(tank_volumes, tank_caps, Capability::Drive, volumes) > zero(),
        full_ahead(wheel.side, input),
        wheel.suspension.contact == Some(contact),
        wheel.suspension.anchor is None || wheel.suspension.anchor == Some(contact),
        !(wheel.suspension.load <= zero()),
        contact.is_finite(),
        hull_forward.is_finite(),
        ground_basis(hull_forward).forward.is_finite(),
        drivetrain.rolling_resistance.is_finite(),
        drivetrain.brush_stiffness.is_finite(),
        drivetrain.brush_damping.is_finite(),
        drivetrain.max_thrust.is_finite(),
        drivetrain.max_thrust > zero(),
        drivetrain.max_thrust <= number(MU) * wheel.suspension.load,
        (ground_basis(hull_forward).forward.x * drivetrain.max_thrust).is_finite(),
        (ground_basis(hull_forward).forward.z * drivetrain.max_thrust).is_finite(),
        wheel.velocity.is_zero(),
        wheel.speed < number(STICK_SPEED),
    ensures
        ({
            let order = order_for(
                tank_volumes,
                tank_caps,
                volumes,
                hull_forward,
                true,
                input,
                drivetrain,
            );
            let forward = ground_basis(hull_forward).forward;
            &&& driven(order, wheel).1 matches Some(force)
            &&& force.x.same_value(forward.x * drivetrain.max_thrust)
            &&& force.y.is_zero()
            &&& force.z.same_value(forward.z * drivetrain.max_thrust)
            &&& hull_forward.x >= zero() ==> force.x >= zero()
            &&& hull_forward.x <= zero() ==> force.x <= zero()
            &&& hull_forward.z >= zero() ==> force.z >= zero()
            &&& hull_forward.z <= zero() ==> force.z <= zero()
        }),
{
    let order = order_for(
        tank_volumes,
        tank_caps,
        volumes,
        hull_forward,
        true,
        input,
        drivetrain,
    );
    let forward = order.basis.forward;
    let right = order.basis.right;
    let thrust = drivetrain.max_thrust;
    law_heading_follows_the_hull(hull_forward);
    lemma_negation(forward.z);
    lemma_full_command(wheel.side, order.intent());
    let rest = lemma_full_thrust(order, wheel, contact);
    lemma_zero_product(thrust, forward.y);
    lemma_nothing_added(forward.x * thrust, right.x, rest);
    lemma_nothing_added(forward.y * thrust, right.y, rest);
    lemma_nothing_added(forward.z * thrust, right.z, rest);
    lemma_same_side(forward.x, thrust);
    lemma_same_side(forward.z, thrust);
}

/// The force along the track, case by case: thrust in proportion to the command less the rolling
/// resistance while the track drives; the pull of the brush while the wheel stands; the rolling
/// resistance alone while it coasts.
pub proof fn law_force_along_the_track(
    wheel: Wheel,
    brush: Brush,
    command: Binary32,
    drivetrain: Drivetrain,
    basis: DriveBasis,
)
    ensures
        ({
            let (u, f) = (wheel.velocity, basis.forward);
            let v = u.x * f.x + u.y * f.y + u.z * f.z;
            let force = force_along(wheel, brush, command, drivetrain, basis);
            let driving = command.absolute() > number(COMMAND_DEADBAND);
            let slow = wheel.speed < number(STICK_SPEED);
            &&& driving ==> force == command * drivetrain.max_thrust - drivetrain.rolling_resistance
                * v
            &&& !driving && slow ==> force == (-drivetrain.brush_stiffness) * brush.along
                - drivetrain.brush_damping * v
            &&& !driving && !slow ==> force == (-drivetrain.rolling_resistance) * v
        }),
{
}

/// The force across the track: the pull of the brush while the wheel stands, else the resistance to
/// sliding. The command does not come into it.
pub proof fn law_force_across_the_track(
    wheel: Wheel,
    brush: Brush,
    drivetrain: Drivetrain,
    basis: DriveBasis,
)
    ensures
        ({
            let (u, r) = (wheel.velocity, basis.right);
            let v = u.x * r.x + u.y * r.y + u.z * r.z;
            let force = force_across(wheel, brush, drivetrain, basis);
            let slow = wheel.speed < number(STICK_SPEED);
            &&& slow ==> force == (-drivetrain.brush_stiffness) * brush.across
                - drivetrain.brush_damping * v
            &&& !slow ==> force == (-drivetrain.lateral_grip) * v
        }),
{
}

/// More command, more thrust: of two commands that both drive, the larger never pushes less.
pub proof fn law_thrust_grows_with_command(
    wheel: Wheel,
    brush: Brush,
    low: Binary32,
    high: Binary32,
    drivetrain: Drivetrain,
    basis: DriveBasis,
)
    requires
        drives(low),
        drives(high),
        low <= high,
        low.is_finite(),
        high.is_finite(),
        at_least_zero(drivetrain.max_thrust),
        drivetrain.max_thrust.is_finite(),
        (low * drivetrain.max_thrust).is_finite(),
        (high * drivetrain.max_thrust).is_finite(),
        (drivetrain.rolling_resistance * wheel.velocity.dot(basis.forward)).is_finite(),
    ensures
        force_along(wheel, brush, low, drivetrain, basis) <= force_along(
            wheel,
            brush,
            high,
            drivetrain,
            basis,
        ),
{
    let t = drivetrain.max_thrust;
    let drag = drivetrain.rolling_resistance * wheel.velocity.dot(basis.forward);
    lemma_scaling_keeps_order(t, low, high);
    lemma_product_commutes(t, low);
    lemma_product_commutes(t, high);
    lemma_negation(drag);
    lemma_sum_is_monotone(low * t, -drag, high * t, -drag);
}

/// Rolling resistance works against the motion: of two wheels with the same command, the one that
/// rolls faster is never pushed more.
pub proof fn law_resistance_bounds_the_speed(
    slow: Wheel,
    fast: Wheel,
    brush: Brush,
    command: Binary32,
    drivetrain: Drivetrain,
    basis: DriveBasis,
)
    requires
        drives(command),
        at_least_zero(drivetrain.rolling_resistance),
        drivetrain.rolling_resistance.is_finite(),
        (command * drivetrain.max_thrust).is_finite(),
        slow.velocity.dot(basis.forward).is_finite(),
        fast.velocity.dot(basis.forward).is_finite(),
        (drivetrain.rolling_resistance * slow.velocity.dot(basis.forward)).is_finite(),
        (drivetrain.rolling_resistance * fast.velocity.dot(basis.forward)).is_finite(),
        slow.velocity.dot(basis.forward) <= fast.velocity.dot(basis.forward),
    ensures
        force_along(fast, brush, command, drivetrain, basis) <= force_along(
            slow,
            brush,
            command,
            drivetrain,
            basis,
        ),
{
    let c = drivetrain.rolling_resistance;
    let (u, v) = (slow.velocity.dot(basis.forward), fast.velocity.dot(basis.forward));
    let push = command * drivetrain.max_thrust;
    lemma_scaling_keeps_order(c, u, v);
    lemma_negation(c * u);
    lemma_negation(c * v);
    lemma_sum_is_monotone(push, -(c * v), push, -(c * u));
}

/// What opposes a motion lies on the other side of zero.
proof fn lemma_opposes(c: Binary32, v: Binary32)
    requires
        at_least_zero(c),
        c.is_finite(),
        v.is_finite(),
    ensures
        v >= zero() ==> (-c) * v <= zero(),
        v <= zero() ==> (-c) * v >= zero(),
{
    lemma_opposite_product(c, v);
    lemma_negation(c * v);
    lemma_zero_product(c, zero());
    if v >= zero() {
        lemma_scaling_keeps_order(c, zero(), v);
    } else {
        lemma_scaling_keeps_order(c, v, zero());
    }
}

/// Coasting brakes: a wheel that rolls without command is pushed against its motion along the track.
pub proof fn law_coasting_brakes(
    wheel: Wheel,
    brush: Brush,
    command: Binary32,
    drivetrain: Drivetrain,
    basis: DriveBasis,
)
    requires
        !drives(command),
        !(wheel.speed < number(STICK_SPEED)),
        at_least_zero(drivetrain.rolling_resistance),
        drivetrain.rolling_resistance.is_finite(),
        wheel.velocity.dot(basis.forward).is_finite(),
    ensures
        ({
            let v = wheel.velocity.dot(basis.forward);
            let force = force_along(wheel, brush, command, drivetrain, basis);
            &&& v >= zero() ==> force <= zero()
            &&& v <= zero() ==> force >= zero()
        }),
{
    lemma_opposes(drivetrain.rolling_resistance, wheel.velocity.dot(basis.forward));
}

/// A wheel that slides sideways is pushed against its slide, whatever the command.
pub proof fn law_sliding_is_resisted(
    wheel: Wheel,
    brush: Brush,
    drivetrain: Drivetrain,
    basis: DriveBasis,
)
    requires
        !(wheel.speed < number(STICK_SPEED)),
        at_least_zero(drivetrain.lateral_grip),
        drivetrain.lateral_grip.is_finite(),
        wheel.velocity.dot(basis.right).is_finite(),
    ensures
        ({
            let v = wheel.velocity.dot(basis.right);
            let force = force_across(wheel, brush, drivetrain, basis);
            &&& v >= zero() ==> force <= zero()
            &&& v <= zero() ==> force >= zero()
        }),
{
    lemma_opposes(drivetrain.lateral_grip, wheel.velocity.dot(basis.right));
}

/// A spring with a damper at rest pulls back.
proof fn lemma_pulls_back(k: Binary32, slip: Binary32, c: Binary32, v: Binary32)
    requires
        at_least_zero(k),
        k.is_finite(),
        c.is_finite(),
        slip.is_finite(),
        v.is_zero(),
        (k * slip).is_finite(),
    ensures
        slip >= zero() ==> (-k) * slip - c * v <= zero(),
        slip <= zero() ==> (-k) * slip - c * v >= zero(),
{
    lemma_opposes(k, slip);
    lemma_opposite_product(k, slip);
    lemma_negation(k * slip);
    lemma_zero_product(c, v);
    lemma_adding_zero((-k) * slip, c * v);
}

/// The brush pulls back: a standing wheel that has slipped from its anchor is pushed towards it, along
/// the track while no command drives it, and across it always.
pub proof fn law_brush_pulls_back(
    wheel: Wheel,
    brush: Brush,
    command: Binary32,
    drivetrain: Drivetrain,
    basis: DriveBasis,
)
    requires
        wheel.speed < number(STICK_SPEED),
        wheel.velocity.is_zero(),
        basis.forward.is_finite(),
        basis.right.is_finite(),
        at_least_zero(drivetrain.brush_stiffness),
        drivetrain.brush_stiffness.is_finite(),
        drivetrain.brush_damping.is_finite(),
        brush.along.is_finite(),
        brush.across.is_finite(),
        (drivetrain.brush_stiffness * brush.along).is_finite(),
        (drivetrain.brush_stiffness * brush.across).is_finite(),
    ensures
        ({
            let along = force_along(wheel, brush, command, drivetrain, basis);
            let across = force_across(wheel, brush, drivetrain, basis);
            &&& !drives(command) && brush.along >= zero() ==> along <= zero()
            &&& !drives(command) && brush.along <= zero() ==> along >= zero()
            &&& brush.across >= zero() ==> across <= zero()
            &&& brush.across <= zero() ==> across >= zero()
        }),
{
    lemma_zero_dot(wheel.velocity, basis.forward);
    lemma_zero_dot(wheel.velocity, basis.right);
    lemma_pulls_back(
        drivetrain.brush_stiffness,
        brush.along,
        drivetrain.brush_damping,
        wheel.velocity.dot(basis.forward),
    );
    lemma_pulls_back(
        drivetrain.brush_stiffness,
        brush.across,
        drivetrain.brush_damping,
        wheel.velocity.dot(basis.right),
    );
}

/// A slow wheel grips where it first stood still and measures its slip from there, along the heading
/// and to the right of it; a fast one lets go.
pub proof fn law_brush_measures_the_slip(wheel: Wheel, contact: Vector3, basis: DriveBasis)
    ensures
        ({
            let brush = planted(wheel, contact, basis);
            let (f, r) = (basis.forward, basis.right);
            &&& !(wheel.speed < number(STICK_SPEED)) ==> brush.anchor is None && brush.along == zero()
                && brush.across == zero()
            &&& wheel.speed < number(STICK_SPEED) ==> {
                &&& brush.anchor is Some
                &&& wheel.suspension.anchor is Some ==> brush.anchor == wheel.suspension.anchor
                &&& wheel.suspension.anchor is None ==> brush.anchor == Some(contact)
                &&& brush.anchor matches Some(p) && brush.along == (contact.x - p.x) * f.x + (
                contact.y - p.y) * f.y + (contact.z - p.z) * f.z && brush.across == (contact.x
                    - p.x) * r.x + (contact.y - p.y) * r.y + (contact.z - p.z) * r.z
            }
        }),
{
}

/// The anchor after the drive: a driven wheel rolls its anchor along the heading by the slip along it,
/// and any other wheel keeps it.
pub proof fn law_driven_wheel_rolls_its_anchor(brush: Brush, command: Binary32, basis: DriveBasis)
    ensures
        brush.anchor is None ==> rolled_anchor(brush, command, basis) is None,
        !drives(command) ==> rolled_anchor(brush, command, basis) == brush.anchor,
        drives(command) ==> (brush.anchor matches Some(p) ==> rolled_anchor(brush, command, basis)
            == Some(
            vector(
                p.x + basis.forward.x * brush.along,
                p.y + basis.forward.y * brush.along,
                p.z + basis.forward.z * brush.along,
            ),
        )),
{
}

/// A command drives exactly outside the dead band, whichever its sign.
pub proof fn law_dead_band_is_symmetric(command: Binary32)
    requires
        !command.is_nan(),
    ensures
        drives(command) <==> command > number(COMMAND_DEADBAND) || command < -number(
            COMMAND_DEADBAND,
        ),
        drives(-command) == drives(command),
{
    lemma_negation(command);
    lemma_negation(number(COMMAND_DEADBAND));
}

/// Throttle alone reaches both tracks as it is.
pub proof fn law_throttle_reaches_both_tracks(intent: DriveInput, side: TrackSide)
    requires
        in_signed_unit_range(intent.throttle),
        intent.steer.is_zero(),
    ensures
        command_of(side, intent).same_value(intent.throttle),
{
    lemma_negation(one());
    lemma_negation(intent.steer);
    lemma_adding_zero(intent.throttle, intent.steer);
    lemma_adding_zero(intent.throttle, -intent.steer);
}

/// Steer goes to the left track as it is and to the right track reversed, on top of the throttle,
/// while neither track is at its limit.
pub proof fn law_steer_adds_left_and_takes_right(intent: DriveInput)
    ensures
        in_signed_unit_range(intent.throttle + intent.steer) ==> command_of(TrackSide::Left, intent)
            == intent.throttle + intent.steer,
        in_signed_unit_range(intent.throttle - intent.steer) ==> command_of(
            TrackSide::Right,
            intent,
        ) == intent.throttle - intent.steer,
        intent.throttle + intent.steer > one() ==> command_of(TrackSide::Left, intent) == one(),
        intent.throttle - intent.steer > one() ==> command_of(TrackSide::Right, intent) == one(),
        intent.throttle + intent.steer < -one() ==> command_of(TrackSide::Left, intent) == -one(),
        intent.throttle - intent.steer < -one() ==> command_of(TrackSide::Right, intent)
            == -one(),
{
    lemma_negation(one());
}

/// A wheel off the ground is left alone.
pub proof fn law_airborne_wheel_is_left_alone(order: DriveOrder, wheel: Wheel)
    requires
        order.available,
        wheel.suspension.contact is None,
    ensures
        driven(order, wheel).0 == wheel.suspension,
        driven(order, wheel).1 is None,
{
}

/// The drive changes neither the contact nor the load of a wheel, and the force that the hull feels is
/// the one that the wheel remembers.
pub proof fn law_drive_keeps_contact_and_load(order: DriveOrder, wheel: Wheel)
    ensures
        driven(order, wheel).0.contact == wheel.suspension.contact,
        driven(order, wheel).0.load == wheel.suspension.load,
        driven(order, wheel).1 matches Some(force) ==> driven(order, wheel).0.drive_force == force,
        driven(order, wheel).1 is Some <==> order.available && wheel.suspension.contact is Some
            && !(wheel.suspension.load <= zero()),
{
}

/// A loaded wheel holds better: both budgets grow with the load, and the one across the track is never
/// above the one along it.
pub proof fn law_grip_grows_with_load(light: Binary32, heavy: Binary32)
    requires
        at_least_zero(light),
        light <= heavy,
        heavy.is_finite(),
        grip_of(heavy).0.is_finite(),
    ensures
        grip_of(light).0 == number(MU) * light,
        grip_of(light).0 <= grip_of(heavy).0,
        grip_of(light).1 <= grip_of(heavy).1,
        grip_of(light).1 <= grip_of(light).0,
        grip_of(light).0 <= light,
{
    let mu = number(MU);
    let ratio = number(LATERAL_GRIP_RATIO);
    lemma_product_grows(mu, light, mu, heavy);
    lemma_scaled_down(mu * light, ratio, mu * heavy, ratio);
    lemma_scaled_down(light, mu, light, mu);
    lemma_product_commutes(mu, light);
}

/// Within the ellipse the ground force is the sum of both parts, component by component: the part
/// along the heading and the part to the right of it.
pub proof fn law_force_within_the_grip_is_the_sum(
    along: Binary32,
    across: Binary32,
    load: Binary32,
    basis: DriveBasis,
)
    requires
        ({
            let a = number(MU) * load;
            let b = a * number(LATERAL_GRIP_RATIO);
            !((along / a) * (along / a) + (across / b) * (across / b) > one())
        }),
    ensures
        ({
            let force = capped_force(along, across, load, basis);
            let (f, r) = (basis.forward, basis.right);
            &&& force.x == f.x * along + r.x * across
            &&& force.y == f.y * along + r.y * across
            &&& force.z == f.z * along + r.z * across
        }),
{
}

/// Past its slip point the anchor trails the contact: both slips shrink by one share, and the anchor
/// lies behind the contact by what is left of them, along the heading and to the right of it. Short of
/// it nothing changes.
pub proof fn law_anchor_trails_the_contact(
    brush: Brush,
    contact: Vector3,
    load: Binary32,
    drivetrain: Drivetrain,
    basis: DriveBasis,
)
    ensures
        ({
            let a = number(MU) * load / drivetrain.brush_stiffness;
            let b = number(MU) * load * number(LATERAL_GRIP_RATIO) / drivetrain.brush_stiffness;
            let level = (brush.along / a) * (brush.along / a) + (brush.across / b) * (brush.across
                / b);
            let share = one() / level.root();
            let after = saturated(brush, contact, load, drivetrain, basis);
            let (f, r) = (basis.forward, basis.right);
            &&& brush.anchor is None || !(level > one()) ==> after == brush
            &&& brush.anchor is Some && level > one() ==> {
                &&& after.along == brush.along * share
                &&& after.across == brush.across * share
                &&& after.anchor == Some(
                    vector(
                        contact.x - f.x * after.along - r.x * after.across,
                        contact.y - f.y * after.along - r.y * after.across,
                        contact.z - f.z * after.along - r.z * after.across,
                    ),
                )
            }
        }),
{
}

/// Outside the ellipse the force is brought back by one share, in the same direction.
pub proof fn law_force_outside_the_grip_is_scaled(
    along: Binary32,
    across: Binary32,
    load: Binary32,
    basis: DriveBasis,
)
    requires
        ({
            let a = number(MU) * load;
            let b = a * number(LATERAL_GRIP_RATIO);
            (along / a) * (along / a) + (across / b) * (across / b) > one()
        }),
    ensures
        ({
            let a = number(MU) * load;
            let b = a * number(LATERAL_GRIP_RATIO);
            let level = (along / a) * (along / a) + (across / b) * (across / b);
            let share = one() / level.root();
            let force = capped_force(along, across, load, basis);
            let (f, r) = (basis.forward, basis.right);
            &&& force.x == (f.x * along + r.x * across) * share
            &&& force.y == (f.y * along + r.y * across) * share
            &&& force.z == (f.z * along + r.z * across) * share
        }),
{
}

/// A velocity is split into its parts along the heading and to the right of it.
pub proof fn law_split_measures_both_parts(
    basis: DriveBasis,
    velocity: Vector3,
    parts: (Binary32, Binary32),
)
    requires
        call_ensures(DriveBasis::split, (&basis, velocity), parts),
    ensures
        parts.0 == velocity.x * basis.forward.x + velocity.y * basis.forward.y + velocity.z
            * basis.forward.z,
        parts.1 == velocity.x * basis.right.x + velocity.y * basis.right.y + velocity.z
            * basis.right.z,
{
}

/// A grounded, loaded wheel is pushed by its brush as it stands after trailing: its ground force is
/// what the parts for that brush and for its own track's command come to within the grip, and the
/// anchor that it keeps is that brush's.
pub proof fn law_wheel_is_pushed_by_its_trailing_brush(
    order: DriveOrder,
    wheel: Wheel,
    contact: Vector3,
)
    requires
        order.available,
        wheel.suspension.contact == Some(contact),
        !(wheel.suspension.load <= zero()),
    ensures
        ({
            let (load, d, basis) = (wheel.suspension.load, order.drivetrain, order.basis);
            let brush = saturated(planted(wheel, contact, basis), contact, load, d, basis);
            let command = command_of(
                wheel.side,
                if order.controlled {
                    order.input
                } else {
                    DriveInput { throttle: zero(), steer: zero() }
                },
            );
            let after = driven(order, wheel);
            &&& after.1 == Some(
                capped_force(
                    force_along(wheel, brush, command, d, basis),
                    force_across(wheel, brush, d, basis),
                    load,
                    basis,
                ),
            )
            &&& !drives(command) ==> after.0.anchor == brush.anchor
            &&& drives(command) ==> after.0.anchor == rolled_anchor(brush, command, basis)
        }),
{
}

} // verus!
