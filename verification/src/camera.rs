//! The cameras: an orbit around the turret ring, and the optic on the gun.

use crate::binary32::arithmetic::UNIT_SCALE;
use crate::binary32::encoding::Binary32;
use crate::binary32::functions::{number, one, zero};
use crate::binary32::laws::{
    at_least_zero, in_unit_range, lemma_adding_zero, lemma_complement, lemma_difference_with_itself,
    lemma_negation, lemma_one_is_neutral, lemma_opposite_product, lemma_order_is_by_value,
    lemma_product_commutes, lemma_product_grows, lemma_scaled_down, lemma_scaling_keeps_order,
    lemma_scaling_never_lengthens, lemma_sum, lemma_sum_is_monotone, lemma_sum_within,
    lemma_unit_range_units, lemma_units_of_one, lemma_whole_number, lemma_zero_product,
};
use crate::sight::{elevation_for, superelevation, Ranging};
use crate::vector::{axis_y, Vector3};
use vstd::arithmetic::power2::{lemma2_to64, pow2};
use vstd::prelude::*;

verus! {

/// The zoom of the orbit camera: zero is far, one is near. `zoom` glides towards `target_zoom`.
#[derive(Clone, Copy, Debug, PartialEq)]
pub struct OrbitCamera {
    pub zoom: Binary32,
    pub target_zoom: Binary32,
}

/// Whether the orbit camera follows the tank. Detached, it keeps its pose.
#[derive(Clone, Copy, Debug, PartialEq, Eq, Structural)]
pub struct CameraFollow(pub bool);

/// The turret ring in the tank's frame, once it is known.
#[derive(Clone, Copy, Debug, PartialEq)]
pub struct TurretPivot(pub Option<Vector3>);

/// The field of view of the orbit camera in radians: an eighth of a turn.
pub const ORBIT_FOV: u32 = 0x3f49_0fdb;

/// The field of view of the optic in radians: 0.12.
pub const GUNNER_FOV: u32 = 0x3df5_c28f;

/// The steepest look in radians: a quarter turn less 0.001.
pub const PITCH_LIMIT: u32 = 0x3fc8_ef16;

/// Radians of yaw per count of the mouse: 0.004.
pub const YAW_SENSITIVITY: u32 = 0x3b83_126f;

/// Radians of pitch per count of the mouse: 0.003.
pub const PITCH_SENSITIVITY: u32 = 0x3b44_9ba6;

/// Zoom per step of the wheel: 0.01.
pub const ZOOM_SPEED: u32 = 0x3c23_d70a;

/// The share of the way to the target zoom per second: 12.
pub const ZOOM_GLIDE: u32 = 0x4140_0000;

/// The height of the orbit's centre above the turret ring in metres: 2.5.
pub const PIVOT_LIFT: u32 = 0x4020_0000;

/// The radius of the orbit zoomed out, in metres: 18.
pub const ORBIT_FAR: u32 = 0x4190_0000;

/// The radius of the orbit zoomed in, in metres: 5.
pub const ORBIT_NEAR: u32 = 0x40a0_0000;

/// The pivot after a sighting: the first one is kept.
pub open spec fn pivot_after(known: Option<Vector3>, seen: Option<Vector3>) -> Option<Vector3> {
    if known is Some {
        known
    } else {
        seen
    }
}

/// Keep the pivot of the first sighting of the turret.
pub fn capture_turret_pivot(pivot: &mut TurretPivot, seen: Option<Vector3>)
    ensures
        final(pivot).0 == pivot_after(old(pivot).0, seen),
        final(pivot).0 == (match old(pivot).0 {
            Some(known) => Some(known),
            None => seen,
        }),
{
    if pivot.0.is_none() {
        pivot.0 = seen;
    }
}

/// A look turned by the mouse, never past the vertical.
pub open spec fn turned(
    yaw: Binary32,
    pitch: Binary32,
    dx: Binary32,
    dy: Binary32,
    yaw_rate: Binary32,
    pitch_rate: Binary32,
) -> (Binary32, Binary32) {
    (
        yaw - dx * yaw_rate,
        (pitch - dy * pitch_rate).clamped(-number(PITCH_LIMIT), number(PITCH_LIMIT)),
    )
}

/// Turn a look by the mouse at the given rates.
pub fn turn(
    yaw: Binary32,
    pitch: Binary32,
    dx: Binary32,
    dy: Binary32,
    yaw_rate: Binary32,
    pitch_rate: Binary32,
) -> (r: (Binary32, Binary32))
    ensures
        r == turned(yaw, pitch, dx, dy, yaw_rate, pitch_rate),
{
    let limit = number(PITCH_LIMIT);
    (yaw - dx * yaw_rate, (pitch - dy * pitch_rate).clamp(limit.negated(), limit))
}

/// Turn the orbit camera's look.
pub fn orbit_look(yaw: Binary32, pitch: Binary32, dx: Binary32, dy: Binary32) -> (r: (
    Binary32,
    Binary32,
))
    ensures
        r == turned(yaw, pitch, dx, dy, number(YAW_SENSITIVITY), number(PITCH_SENSITIVITY)),
{
    turn(yaw, pitch, dx, dy, number(YAW_SENSITIVITY), number(PITCH_SENSITIVITY))
}

/// The share of the way to the target zoom that a frame of `dt` seconds goes.
pub open spec fn glide_share(dt: Binary32) -> Binary32 {
    (number(ZOOM_GLIDE) * dt).smaller(one())
}

/// The zoom after a frame: the wheel moves the target, and the zoom glides towards it.
pub open spec fn zoomed(orbit: OrbitCamera, scroll: Binary32, dt: Binary32) -> OrbitCamera {
    let target_zoom = (orbit.target_zoom + scroll * number(ZOOM_SPEED)).clamped(zero(), one());
    OrbitCamera { target_zoom, zoom: orbit.zoom + (target_zoom - orbit.zoom) * glide_share(dt) }
}

/// Zoom the orbit camera.
pub fn orbit_zoom(orbit: &mut OrbitCamera, scroll: Binary32, dt: Binary32)
    ensures
        *final(orbit) == zoomed(*old(orbit), scroll, dt),
{
    orbit.target_zoom = (orbit.target_zoom + scroll * number(ZOOM_SPEED)).clamp(zero(), one());
    let ease = (number(ZOOM_GLIDE) * dt).min(one());
    orbit.zoom = orbit.zoom + (orbit.target_zoom - orbit.zoom) * ease;
}

/// The radius of the orbit at a zoom.
pub open spec fn radius_at(zoom: Binary32) -> Binary32 {
    number(ORBIT_FAR) + (number(ORBIT_NEAR) - number(ORBIT_FAR)) * zoom
}

pub fn orbit_radius(zoom: Binary32) -> (r: Binary32)
    ensures
        r == radius_at(zoom),
{
    number(ORBIT_FAR) + (number(ORBIT_NEAR) - number(ORBIT_FAR)) * zoom
}

/// The centre of the orbit, above the turret ring.
pub fn orbit_center(turret_ring: Vector3) -> (r: Vector3)
    ensures
        r == turret_ring.plus(axis_y().scaled(number(PIVOT_LIFT))),
        turret_ring.is_finite() ==> {
            &&& r.x.same_value(turret_ring.x)
            &&& r.y == turret_ring.y + number(PIVOT_LIFT)
            &&& r.z.same_value(turret_ring.z)
        },
{
    proof {
        let lift = number(PIVOT_LIFT);
        lemma_one_is_neutral(lift);
        lemma_zero_product(lift, zero());
        if turret_ring.is_finite() {
            lemma_adding_zero(turret_ring.x, zero() * lift);
            lemma_adding_zero(turret_ring.z, zero() * lift);
        }
    }
    turret_ring.plus(axis_y().scaled(number(PIVOT_LIFT)))
}

/// The place of the camera: `distance` behind the centre along the view axis.
pub fn orbit_position(center: Vector3, backward: Vector3, distance: Binary32) -> (r: Vector3)
    ensures
        r == center.plus(backward.scaled(distance)),
        r.x == center.x + backward.x * distance,
        r.y == center.y + backward.y * distance,
        r.z == center.z + backward.z * distance,
{
    center.plus(backward.scaled(distance))
}

/// How far the optic's line of sight is pitched from the bore: down by the elevation for the range.
pub fn sight_pitch(ranging: &Ranging) -> (r: Binary32)
    ensures
        r == -elevation_for(ranging.range),
{
    superelevation(ranging.range).negated()
}

/// The look stays short of the vertical.
pub proof fn law_look_stays_short_of_vertical(
    yaw: Binary32,
    pitch: Binary32,
    dx: Binary32,
    dy: Binary32,
    yaw_rate: Binary32,
    pitch_rate: Binary32,
)
    requires
        !(pitch - dy * pitch_rate).is_nan(),
    ensures
        -number(PITCH_LIMIT) <= turned(yaw, pitch, dx, dy, yaw_rate, pitch_rate).1,
        turned(yaw, pitch, dx, dy, yaw_rate, pitch_rate).1 <= number(PITCH_LIMIT),
{
}

/// The share of the way is a share.
proof fn lemma_glide_share(dt: Binary32)
    requires
        at_least_zero(dt),
    ensures
        in_unit_range(glide_share(dt)),
{
    if dt.is_finite() {
        lemma_product_grows(number(ZOOM_GLIDE), dt, number(ZOOM_GLIDE), dt);
    }
}

/// A glide from `z` towards `t` stays between zero and one.
proof fn lemma_glide(z: Binary32, t: Binary32, share: Binary32)
    requires
        in_unit_range(z),
        in_unit_range(t),
        in_unit_range(share),
    ensures
        in_unit_range(z + (t - z) * share),
{
    let d = t - z;
    let p = d * share;
    lemma_unit_range_units(z);
    lemma_unit_range_units(t);
    lemma_unit_range_units(share);
    lemma_negation(z);
    lemma_complement(z);
    lemma_sum_is_monotone(t, -z, one(), -z);
    lemma_sum_is_monotone(zero(), -z, t, -z);
    lemma_adding_zero(-z, zero());
    assert(d <= one() - z);
    assert(-z <= d) by {
        assert((zero() - z).same_value(-z));
    }
    lemma_adding_zero(z, zero());
    lemma_difference_with_itself(z);
    assert(d.is_finite());
    if at_least_zero(d) {
        lemma_scaled_down(d, share, d, share);
        assert(p.is_finite());
        lemma_sum_is_monotone(z, zero(), z, p);
        lemma_sum_is_monotone(z, p, z, one() - z);
    } else {
        lemma_negation(d);
        lemma_scaled_down(-d, share, -d, share);
        lemma_opposite_product(-d, share);
        lemma_negation((-d) * share);
        assert(p == -((-d) * share));
        assert(p <= zero() && d <= p && p.is_finite());
        lemma_sum_is_monotone(z, p, z, zero());
        lemma_sum_is_monotone(z, -z, z, p);
    }
}

/// The zoom and its target stay between zero and one.
pub proof fn law_zoom_stays_in_range(orbit: OrbitCamera, scroll: Binary32, dt: Binary32)
    requires
        in_unit_range(orbit.zoom),
        in_unit_range(orbit.target_zoom),
        !(orbit.target_zoom + scroll * number(ZOOM_SPEED)).is_nan(),
        at_least_zero(dt),
    ensures
        in_unit_range(zoomed(orbit, scroll, dt).target_zoom),
        in_unit_range(zoomed(orbit, scroll, dt).zoom),
{
    lemma_glide_share(dt);
    lemma_glide(orbit.zoom, zoomed(orbit, scroll, dt).target_zoom, glide_share(dt));
}

/// Near less far is minus 13 metres.
proof fn lemma_span()
    ensures
        number(ORBIT_NEAR) - number(ORBIT_FAR) == -number(0x4150_0000),
        number(ORBIT_NEAR).value() == 5 * pow2(UNIT_SCALE as nat),
        number(ORBIT_FAR).value() == 18 * pow2(UNIT_SCALE as nat),
        number(0x4150_0000).value() == 13 * pow2(UNIT_SCALE as nat),
{
    let near = number(ORBIT_NEAR);
    let far = number(ORBIT_FAR);
    let span = number(0x4150_0000);
    lemma2_to64();
    lemma_whole_number(ORBIT_NEAR as nat, 5, 21);
    lemma_whole_number(ORBIT_FAR as nat, 18, 19);
    lemma_whole_number(0x4150_0000, 13, 20);
    lemma_negation(far);
    lemma_negation(span);
    lemma_sum_within(near, -far, -span, -span);
}

/// The radius of the orbit stays between near and far.
pub proof fn law_radius_stays_between_near_and_far(zoom: Binary32)
    requires
        in_unit_range(zoom),
    ensures
        number(ORBIT_NEAR) <= radius_at(zoom),
        radius_at(zoom) <= number(ORBIT_FAR),
{
    let near = number(ORBIT_NEAR);
    let far = number(ORBIT_FAR);
    let span = number(0x4150_0000);
    let w = pow2(UNIT_SCALE as nat);
    lemma_unit_range_units(zoom);
    lemma_span();
    lemma_scaled_down(span, zoom, span, zoom);
    lemma_opposite_product(span, zoom);
    let back = span * zoom;
    lemma_negation(back);
    lemma_order_is_by_value(zero(), back);
    lemma_order_is_by_value(back, span);
    assert(near.value() <= far.value() + (-back).value() <= far.value()) by (nonlinear_arith)
        requires
            near.value() == 5 * w,
            far.value() == 18 * w,
            span.value() == 13 * w,
            (-back).value() == -back.value(),
            0 <= back.value() <= span.value(),
    ;
    lemma_sum_within(far, -back, near, far);
}

/// Zooming in never moves the camera away.
pub proof fn law_zoomed_in_is_closer(low: Binary32, high: Binary32)
    requires
        in_unit_range(low),
        in_unit_range(high),
        low <= high,
    ensures
        radius_at(high) <= radius_at(low),
{
    let span = number(0x4150_0000);
    lemma_unit_range_units(low);
    lemma_unit_range_units(high);
    lemma_span();
    lemma_scaled_down(span, low, span, high);
    lemma_scaled_down(span, high, span, high);
    lemma_opposite_product(span, low);
    lemma_opposite_product(span, high);
    lemma_negation(span * low);
    lemma_negation(span * high);
    lemma_sum_is_monotone(number(ORBIT_FAR), -(span * high), number(ORBIT_FAR), -(span * low));
}

/// The mouse turns the look: to the right it lowers the yaw, downwards it lowers the pitch, and each
/// motion turns its own angle alone.
pub proof fn law_look_follows_the_mouse(
    yaw: Binary32,
    pitch: Binary32,
    dx: Binary32,
    dy: Binary32,
    yaw_rate: Binary32,
    pitch_rate: Binary32,
)
    ensures
        ({
            let look = turned(yaw, pitch, dx, dy, yaw_rate, pitch_rate);
            &&& look.0 == yaw - dx * yaw_rate
            &&& -number(PITCH_LIMIT) <= pitch - dy * pitch_rate && pitch - dy * pitch_rate
                <= number(PITCH_LIMIT) ==> look.1 == pitch - dy * pitch_rate
            &&& pitch - dy * pitch_rate > number(PITCH_LIMIT) ==> look.1 == number(PITCH_LIMIT)
            &&& pitch - dy * pitch_rate < -number(PITCH_LIMIT) ==> look.1 == -number(PITCH_LIMIT)
        }),
{
    lemma_negation(number(PITCH_LIMIT));
}

/// A larger sweep of the mouse turns further the same way, in yaw and in pitch.
pub proof fn law_larger_sweep_turns_further(
    angle: Binary32,
    small: Binary32,
    large: Binary32,
    rate: Binary32,
    other: Binary32,
    motion: Binary32,
)
    requires
        angle.is_finite(),
        small.is_finite(),
        large.is_finite(),
        rate.is_finite(),
        at_least_zero(rate),
        small <= large,
        (small * rate).is_finite(),
        (large * rate).is_finite(),
    ensures
        turned(angle, other, large, motion, rate, rate).0 <= turned(
            angle,
            other,
            small,
            motion,
            rate,
            rate,
        ).0,
        turned(other, angle, motion, large, rate, rate).1 <= turned(
            other,
            angle,
            motion,
            small,
            rate,
            rate,
        ).1,
{
    lemma_scaling_keeps_order(rate, small, large);
    lemma_product_commutes(rate, small);
    lemma_product_commutes(rate, large);
    lemma_negation(small * rate);
    lemma_negation(large * rate);
    lemma_negation(number(PITCH_LIMIT));
    lemma_sum_is_monotone(angle, -(large * rate), angle, -(small * rate));
    lemma_sum(angle, -(large * rate));
    lemma_sum(angle, -(small * rate));
}

/// Without motion the look stays.
pub proof fn law_still_mouse_keeps_the_look(
    yaw: Binary32,
    pitch: Binary32,
    yaw_rate: Binary32,
    pitch_rate: Binary32,
)
    requires
        yaw.is_finite(),
        -number(PITCH_LIMIT) <= pitch,
        pitch <= number(PITCH_LIMIT),
        yaw_rate.is_finite(),
        pitch_rate.is_finite(),
    ensures
        turned(yaw, pitch, zero(), zero(), yaw_rate, pitch_rate).0.same_value(yaw),
        turned(yaw, pitch, zero(), zero(), yaw_rate, pitch_rate).1.same_value(pitch),
{
    lemma_negation(number(PITCH_LIMIT));
    lemma_zero_product(yaw_rate, zero());
    lemma_zero_product(pitch_rate, zero());
    lemma_adding_zero(yaw, zero() * yaw_rate);
    lemma_adding_zero(pitch, zero() * pitch_rate);
}

/// The wheel moves the target: scrolling up never lowers it, scrolling down never raises it.
pub proof fn law_scroll_moves_the_target(orbit: OrbitCamera, scroll: Binary32, dt: Binary32)
    requires
        in_unit_range(orbit.target_zoom),
        scroll.is_finite(),
        (scroll * number(ZOOM_SPEED)).is_finite(),
    ensures
        scroll >= zero() ==> orbit.target_zoom <= zoomed(orbit, scroll, dt).target_zoom,
        scroll <= zero() ==> zoomed(orbit, scroll, dt).target_zoom <= orbit.target_zoom,
        ({
            let wanted = orbit.target_zoom + scroll * number(ZOOM_SPEED);
            in_unit_range(wanted) ==> zoomed(orbit, scroll, dt).target_zoom == wanted
        }),
{
    let t = orbit.target_zoom;
    let s = number(ZOOM_SPEED);
    let d = scroll * s;
    lemma_unit_range_units(t);
    lemma_zero_product(s, zero());
    lemma_product_commutes(s, scroll);
    lemma_adding_zero(t, s * zero());
    lemma_sum(t, d);
    if scroll >= zero() {
        lemma_scaling_keeps_order(s, zero(), scroll);
        lemma_sum_is_monotone(t, s * zero(), t, d);
    }
    if scroll <= zero() {
        lemma_scaling_keeps_order(s, scroll, zero());
        lemma_sum_is_monotone(t, d, t, s * zero());
    }
}

/// The zoom glides towards its target and never away from it; on it, it stays.
pub proof fn law_zoom_glides_towards_its_target(orbit: OrbitCamera, scroll: Binary32, dt: Binary32)
    requires
        in_unit_range(orbit.zoom),
        in_unit_range(orbit.target_zoom),
        !(orbit.target_zoom + scroll * number(ZOOM_SPEED)).is_nan(),
        at_least_zero(dt),
    ensures
        ({
            let after = zoomed(orbit, scroll, dt);
            &&& orbit.zoom <= after.target_zoom ==> orbit.zoom <= after.zoom
            &&& after.target_zoom <= orbit.zoom ==> after.zoom <= orbit.zoom
        }),
{
    let z = orbit.zoom;
    let t = zoomed(orbit, scroll, dt).target_zoom;
    let share = glide_share(dt);
    let d = t - z;
    lemma_glide_share(dt);
    lemma_unit_range_units(z);
    lemma_unit_range_units(t);
    lemma_unit_range_units(share);
    lemma_negation(z);
    lemma_negation(zero());
    lemma_negation(one());
    lemma_units_of_one();
    lemma_sum_within(t, -z, -one(), one());
    lemma_adding_zero(z, zero());
    lemma_zero_product(share, zero());
    lemma_product_commutes(share, d);
    lemma_scaling_never_lengthens(d, share);
    lemma_adding_zero(z, share * zero());
    lemma_difference_with_itself(z);
    if z <= t {
        lemma_sum_is_monotone(z, -z, t, -z);
        lemma_scaling_keeps_order(share, zero(), d);
        lemma_sum_is_monotone(z, share * zero(), z, d * share);
    }
    if t <= z {
        lemma_sum_is_monotone(t, -z, z, -z);
        lemma_scaling_keeps_order(share, d, zero());
        lemma_sum_is_monotone(z, d * share, z, share * zero());
    }
}

/// Zoomed out the camera is far, zoomed in it is near.
pub proof fn law_radius_at_the_ends()
    ensures
        radius_at(zero()).same_value(number(ORBIT_FAR)),
        radius_at(one()).same_value(number(ORBIT_NEAR)),
{
    let span = number(0x4150_0000);
    let far = number(ORBIT_FAR);
    let near = number(ORBIT_NEAR);
    lemma_span();
    lemma_negation(span);
    lemma_zero_product(-span, zero());
    lemma_adding_zero(far, (-span) * zero());
    lemma_one_is_neutral(-span);
    lemma_order_is_by_value(near, far);
    lemma_sum_within(far, -span, near, near);
}

/// The optic looks below the bore by the elevation for the range: what the gun is raised by, the line
/// of sight is lowered by.
pub proof fn law_optic_looks_below_the_bore(ranging: Ranging, r: Binary32)
    requires
        call_ensures(sight_pitch, (&ranging,), r),
        elevation_for(ranging.range).is_finite(),
    ensures
        -r == elevation_for(ranging.range),
        (elevation_for(ranging.range) + r).is_zero(),
{
    let e = elevation_for(ranging.range);
    lemma_negation(e);
    lemma_difference_with_itself(e);
}

/// The camera stands behind the centre along the view axis; at distance zero it is in the centre.
pub proof fn law_camera_stands_behind_the_centre(
    center: Vector3,
    backward: Vector3,
    distance: Binary32,
    r: Vector3,
)
    requires
        call_ensures(orbit_position, (center, backward, distance), r),
    ensures
        r.x == center.x + backward.x * distance,
        r.y == center.y + backward.y * distance,
        r.z == center.z + backward.z * distance,
        distance.is_zero() && center.is_finite() && backward.is_finite() ==> r.same_value(center),
{
    if distance.is_zero() && center.is_finite() && backward.is_finite() {
        lemma_zero_product(backward.x, distance);
        lemma_zero_product(backward.y, distance);
        lemma_zero_product(backward.z, distance);
        lemma_adding_zero(center.x, backward.x * distance);
        lemma_adding_zero(center.y, backward.y * distance);
        lemma_adding_zero(center.z, backward.z * distance);
    }
}

/// The orbit turns by its own rates: 0.004 radians of yaw and 0.003 of pitch per count.
pub proof fn law_orbit_rates(
    yaw: Binary32,
    pitch: Binary32,
    dx: Binary32,
    dy: Binary32,
    r: (Binary32, Binary32),
)
    requires
        call_ensures(orbit_look, (yaw, pitch, dx, dy), r),
    ensures
        r.0 == yaw - dx * number(0x3b83_126f),
        -number(PITCH_LIMIT) <= pitch - dy * number(0x3b44_9ba6) && pitch - dy * number(0x3b44_9ba6)
            <= number(PITCH_LIMIT) ==> r.1 == pitch - dy * number(0x3b44_9ba6),
{
}

/// The first sighting of the turret stays: no later one replaces it, and until there is one the pivot
/// is unknown.
pub proof fn law_first_sighting_stays(first: Vector3, later: Option<Vector3>)
    ensures
        pivot_after(pivot_after(None, Some(first)), later) == Some(first),
        pivot_after(None, later) == later,
{
}

/// A frame goes the share of the way to the target zoom that 12 times its length is, and all of it
/// where that is one or more.
pub proof fn law_zoom_goes_its_share(orbit: OrbitCamera, scroll: Binary32, dt: Binary32)
    ensures
        ({
            let after = zoomed(orbit, scroll, dt);
            let share = number(0x4140_0000) * dt;
            let way = after.target_zoom - orbit.zoom;
            &&& share <= one() ==> after.zoom == orbit.zoom + way * share
            &&& share > one() ==> after.zoom == orbit.zoom + way * one()
        }),
{
}

/// The orbit's centre lies 2.5 metres straight above the turret ring.
pub proof fn law_orbit_centre_is_above_the_ring(turret_ring: Vector3, r: Vector3)
    requires
        call_ensures(orbit_center, (turret_ring,), r),
        turret_ring.is_finite(),
    ensures
        r.x.same_value(turret_ring.x),
        r.y == turret_ring.y + number(0x4020_0000),
        r.z.same_value(turret_ring.z),
{
}

} // verus!
