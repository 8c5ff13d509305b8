//! The friction ellipse: how well the rounded cap and the rounded brush keep to it.

use crate::binary32::arithmetic::UNIT_SCALE;
use crate::binary32::encoding::{lemma_magnitude_step, magnitude, Binary32, BINADE};
use crate::binary32::error::{
    eps, lemma_exact, lemma_exact_one, lemma_exact_order, lemma_finite_size, lemma_product_error,
    lemma_quotient_error, lemma_ratio, lemma_root_error, lemma_scale, lemma_sum_error, length,
    scale, tiny,
};
use crate::binary32::functions::{number, one, zero};
use crate::binary32::laws::{
    in_unit_range, lemma_adding_zero, lemma_magnitude_order, lemma_root_above_one,
    lemma_rounding_exists, lemma_scaling_never_lengthens, lemma_unit_range_units,
    lemma_zero_product,
};
use crate::binary32::precision::{
    lemma_modest_product, lemma_negated, lemma_small, lemma_square_is_a_number,
    lemma_sum_of_squares, lemma_tinier,
};
use crate::bounds::{
    at_least_one, inside, lemma_bounds_of_near, lemma_budgets, lemma_direction, lemma_factor,
    lemma_less, lemma_level, lemma_more, lemma_nothing, lemma_over, lemma_product_of_sizes,
    lemma_pulled_back, lemma_quotient_of_sizes, lemma_ratios, lemma_root_not_tiny,
    lemma_rounded_scaling, lemma_rounded_sum, lemma_scaled_to_one, lemma_smaller_part, lemma_split,
    lemma_split_is_capped, lemma_square_of_length, lemma_square_of_product, lemma_squared_length,
    lemma_swapped_ratio, lemma_times_one, lemma_two_parts, lemma_unit_components, lemma_weights,
    lemma_widened, less,
};
use crate::driving::parameters::Drivetrain;
use crate::driving::traction::{
    capped_force, ellipse, grip_of, ground_basis, lemma_trim, saturated, Brush, DriveBasis,
    LATERAL_GRIP_RATIO,
};
use crate::vector::{origin, vector, Vector3};
use vstd::arithmetic::power2::{lemma2_to64, lemma_pow2_adds, lemma_pow2_pos, pow2};
use vstd::prelude::*;

verus! {

/// The exact level of a point, for a level that does not overflow. A level is never below zero.
proof fn lemma_exact_level(x: Binary32, y: Binary32, a: Binary32, b: Binary32)
    requires
        x.is_finite(),
        y.is_finite(),
        a.is_finite(),
        b.is_finite(),
        a > zero(),
        b > zero(),
    ensures
        !ellipse(x, y, a, b).is_nan(),
        !ellipse(x, y, a, b).negative(),
        ellipse(x, y, a, b).is_finite() ==> ({
            let xi = x.size() / a.size();
            let eta = y.size() / b.size();
            xi * xi + eta * eta <= at_least_one(ellipse(x, y, a, b).size()) * (1real + 8real * eps())
        }),
{
    let u = x / a;
    let v = y / b;
    let level = ellipse(x, y, a, b);
    lemma_quotient_is_a_number(x, a);
    lemma_quotient_is_a_number(y, b);
    lemma_square_is_a_number(u);
    lemma_square_is_a_number(v);
    lemma_sum_of_squares(u * u, v * v);
    if level.is_finite() {
        lemma_small();
        lemma_quotient_error(x, a);
        lemma_quotient_error(y, b);
        lemma_product_error(u, u);
        lemma_product_error(v, v);
        lemma_sum_error(u * u, v * v);
        lemma_exact(x);
        lemma_exact(y);
        lemma_exact(a);
        lemma_exact(b);
        lemma_exact(u);
        lemma_exact(v);
        lemma_exact(u * u);
        lemma_exact(v * v);
        lemma_exact(level);
        lemma_quotient_of_sizes(x.size(), a.size());
        lemma_quotient_of_sizes(y.size(), b.size());
        lemma_level(
            x.size() / a.size(),
            y.size() / b.size(),
            u.size(),
            v.size(),
            (u * u).size(),
            (v * v).size(),
            level.size(),
            eps(),
            tiny(),
        );
    }
}

/// A finite number over a positive one is a number.
proof fn lemma_quotient_is_a_number(x: Binary32, a: Binary32)
    requires
        x.is_finite(),
        a.is_finite(),
        a > zero(),
    ensures
        !(x / a).is_nan(),
{
    lemma_rounding_exists(x.units() * pow2(UNIT_SCALE as nat), a.units());
}

/// The scale that brings a point of the given level back to the boundary, and what it does to the
/// ratios of the point.
proof fn lemma_scale_back(x: Binary32, y: Binary32, a: Binary32, b: Binary32)
    requires
        x.is_finite(),
        y.is_finite(),
        a.is_finite(),
        b.is_finite(),
        a > zero(),
        b > zero(),
        ellipse(x, y, a, b) > one(),
    ensures
        ({
            let s = ellipse(x, y, a, b).root().reciprocal();
            let xi = x.size() / a.size();
            let eta = y.size() / b.size();
            &&& in_unit_range(s)
            &&& s.is_finite()
            &&& !s.negative()
            &&& s.size() <= 1real
            &&& (xi * s.size()) * (xi * s.size()) + (eta * s.size()) * (eta * s.size()) <= 1real
                + 26real * eps()
        }),
{
    let level = ellipse(x, y, a, b);
    let root = level.root();
    let s = root.reciprocal();
    lemma_trim(level);
    lemma_root_above_one(level);
    lemma_unit_range_units(s);
    lemma_exact(s);
    lemma_exact_one();
    lemma_small();
    lemma_exact_level(x, y, a, b);
    let xi = x.size() / a.size();
    let eta = y.size() / b.size();
    if level.is_finite() {
        lemma_root_error(level);
        lemma_exact_order(one(), level);
        lemma_exact_order(one(), root);
        lemma_exact(level);
        lemma_exact(root);
        lemma_quotient_error(one(), root);
        lemma_finite_size(root);
        lemma_rounding_exists(one().units() * pow2(UNIT_SCALE as nat), root.units());
        lemma_exact_order(s, one());
        lemma_pulled_back(xi, eta, level.size(), root.size(), s.size(), eps(), tiny());
    } else {
        assert(s == zero());
        lemma_nothing(xi);
        lemma_nothing(eta);
    }
}

/// A part scaled back, less the least positive number, over its semi-axis.
proof fn lemma_scaled_part(x: Binary32, s: Binary32, a: real)
    requires
        x.is_finite(),
        in_unit_range(s),
        a > 0real,
    ensures
        0real <= less((x * s).size(), 2real * tiny()) / a <= ((x.size() / a) * s.size()) * (1real
            + 2real * eps()),
{
    let e = eps();
    let t = tiny();
    lemma_small();
    lemma_unit_range_units(s);
    lemma_scaling_never_lengthens(x, s);
    lemma_product_error(x, s);
    lemma_exact(x);
    lemma_exact(s);
    lemma_exact(x * s);
    let p = (x * s).size();
    let q = x.size();
    let f = s.size();
    lemma_product_of_sizes(q, f);
    lemma_less(p, q * f, e, t);
    lemma_over(less(p, 2real * t), q, f, 1real + 2real * e, a);
}

/// The brush stretches to its slip point and no further: after saturation the slip lies in the ellipse
/// of the grip over the stiffness, up to 32 roundings and the least positive number.
pub proof fn law_brush_keeps_to_its_slip_point(
    brush: Brush,
    contact: Vector3,
    load: Binary32,
    drivetrain: Drivetrain,
    basis: DriveBasis,
)
    requires
        brush.anchor is Some,
        brush.along.is_finite(),
        brush.across.is_finite(),
        ({
            let (grip, grip_lat) = grip_of(load);
            let a = grip / drivetrain.brush_stiffness;
            let b = grip_lat / drivetrain.brush_stiffness;
            &&& a.is_finite()
            &&& b.is_finite()
            &&& a > zero()
            &&& b > zero()
        }),
    ensures
        ({
            let (grip, grip_lat) = grip_of(load);
            let after = saturated(brush, contact, load, drivetrain, basis);
            inside(
                less(after.along.size(), 2real * tiny()),
                less(after.across.size(), 2real * tiny()),
                (grip / drivetrain.brush_stiffness).size(),
                (grip_lat / drivetrain.brush_stiffness).size(),
                32real * eps(),
            )
        }),
{
    let (grip, grip_lat) = grip_of(load);
    let a = grip / drivetrain.brush_stiffness;
    let b = grip_lat / drivetrain.brush_stiffness;
    let x = brush.along;
    let y = brush.across;
    let level = ellipse(x, y, a, b);
    let after = saturated(brush, contact, load, drivetrain, basis);
    let xi = x.size() / a.size();
    let eta = y.size() / b.size();
    let z = less(after.along.size(), 2real * tiny()) / a.size();
    let w = less(after.across.size(), 2real * tiny()) / b.size();
    lemma_exact(a);
    lemma_exact(b);
    lemma_exact(x);
    lemma_exact(y);
    lemma_exact_level(x, y, a, b);
    lemma_small();
    if level > one() {
        let s = level.root().reciprocal();
        lemma_scale_back(x, y, a, b);
        lemma_scaled_part(x, s, a.size());
        lemma_scaled_part(y, s, b.size());
        lemma_two_parts(z, w, xi * s.size(), eta * s.size(), eps());
    } else {
        lemma_exact_one();
        lemma_exact_order(level, one());
        lemma_exact(level);
        lemma_smaller_part(x.size(), 2real * tiny(), a.size());
        lemma_smaller_part(y.size(), 2real * tiny(), b.size());
        lemma_widened(z, xi, eps());
        lemma_widened(w, eta, eps());
        lemma_two_parts(z, w, xi, eta, eps());
    }
}

/// The exact part of a vector along another.
pub open spec fn exact_dot(a: Vector3, b: Vector3) -> real {
    a.x.exact() * b.x.exact() + a.y.exact() * b.y.exact() + a.z.exact() * b.z.exact()
}

/// The directions lie flat on the ground and at a right angle, and are no longer than one, up to 32
/// roundings.
pub open spec fn on_the_ground(basis: DriveBasis) -> bool {
    &&& basis.forward.is_finite()
    &&& basis.forward.y == zero()
    &&& basis.right == vector(-basis.forward.z, zero(), basis.forward.x)
    &&& exact_dot(basis.forward, basis.forward) <= 1real + 32real * eps()
}

/// A free component of a force, and its distance from the exact one.
proof fn lemma_free_component(f: Binary32, g: Binary32, along: Binary32, across: Binary32)
    requires
        f.is_finite(),
        g.is_finite(),
        along.is_finite(),
        across.is_finite(),
        (f * along + g * across).is_finite(),
    ensures
        ({
            let x = f.exact() * along.exact();
            let y = g.exact() * across.exact();
            length((f * along + g * across).exact() - (x + y)) <= 5real * eps() * (length(x)
                + length(y)) + 7real * tiny()
        }),
{
    lemma_scale();
    let p = f * along;
    let q = g * across;
    assert(p.is_finite() && q.is_finite());
    lemma_product_error(f, along);
    lemma_product_error(g, across);
    lemma_sum_error(p, q);
    lemma_rounded_sum(
        f.exact() * along.exact(),
        g.exact() * across.exact(),
        p.exact(),
        q.exact(),
        (p + q).exact(),
    );
}

/// The distance of a component of the capped force from the exact one, scaled.
proof fn lemma_capped_component(
    f: Binary32,
    g: Binary32,
    along: Binary32,
    across: Binary32,
    s: Binary32,
    r: Binary32,
)
    requires
        f.is_finite(),
        g.is_finite(),
        along.is_finite(),
        across.is_finite(),
        (f * along + g * across).is_finite(),
        in_unit_range(s),
        s.exact() >= 0real,
        s.exact() <= 1real,
        r == (f * along + g * across) * s || (r == f * along + g * across && s.exact() == 1real),
        length(f.exact()) <= 17real / 16real,
        length(g.exact()) <= 17real / 16real,
    ensures
        length(r.exact() - (f.exact() * along.exact() + g.exact() * across.exact()) * s.exact())
            <= 17real / 2real * eps() * (along.size() * s.exact() + across.size() * s.exact())
            + 10real * tiny(),
{
    let c = f * along + g * across;
    let x = f.exact() * along.exact();
    let y = g.exact() * across.exact();
    let m = length(x) + length(y);
    let k = s.exact();
    lemma_small();
    lemma_free_component(f, g, along, across);
    lemma_unit_range_units(s);
    lemma_exact(along);
    lemma_exact(across);
    lemma_weights(f.exact(), g.exact(), along.exact(), across.exact(), k);
    if r == c * s {
        lemma_scaling_never_lengthens(c, s);
        lemma_product_error(c, s);
        lemma_rounded_scaling(c.exact(), x + y, m, k, r.exact());
    } else {
        lemma_times_one(x + y);
        lemma_times_one(m);
        lemma_more(m, eps(), tiny());
    }
    lemma_factor(m * k, along.size() * k + across.size() * k, eps());
}

/// The friction cap holds: the ground force lies flat, and its parts along the track and across it lie
/// in the friction ellipse, up to 512 roundings and eight of the least positive numbers.
pub proof fn law_friction_is_capped(
    along: Binary32,
    across: Binary32,
    load: Binary32,
    basis: DriveBasis,
)
    requires
        along.is_finite(),
        across.is_finite(),
        on_the_ground(basis),
        basis.forward.scaled(along).plus(basis.right.scaled(across)).is_finite(),
        ({
            let (grip, grip_lat) = grip_of(load);
            &&& grip.is_finite()
            &&& grip > zero()
            &&& grip_lat > zero()
        }),
    ensures
        ({
            let (grip, grip_lat) = grip_of(load);
            let force = capped_force(along, across, load, basis);
            &&& force.y.is_zero()
            &&& inside(
                less(length(exact_dot(force, basis.forward)), 16real * tiny()),
                less(length(exact_dot(force, basis.right)), 16real * tiny()),
                grip.size(),
                grip_lat.size(),
                512real * eps(),
            )
        }),
{
    let (grip, grip_lat) = grip_of(load);
    let fx = basis.forward.x;
    let fz = basis.forward.z;
    lemma_lateral_budget(grip);
    let s = trim_of(along, across, grip, grip_lat);
    lemma_trim_of(along, across, grip, grip_lat);
    let force = capped_force(along, across, load, basis);
    lemma_flat(along, across, s, basis, force);
    lemma_flat_dot(force, basis.forward);
    lemma_flat_dot(force, basis.right);
    lemma_flat_dot(basis.forward, basis.forward);
    lemma_negated(fz);
    lemma_direction(fx.exact(), fz.exact());
    lemma_capped_component(fx, -fz, along, across, s, force.x);
    lemma_capped_component(fz, fx, along, across, s, force.z);
    let x = along.size() * s.exact();
    let y = across.size() * s.exact();
    let k = 17real / 2real * eps() * (x + y) + 10real * tiny();
    lemma_split(
        fx.exact(),
        fz.exact(),
        along.exact(),
        across.exact(),
        s.exact(),
        force.x.exact(),
        force.z.exact(),
        k,
    );
    lemma_exact(along);
    lemma_exact(across);
    lemma_exact(grip);
    lemma_exact(grip_lat);
    lemma_small();
    lemma_product_of_sizes(along.size(), s.exact());
    lemma_product_of_sizes(across.size(), s.exact());
    lemma_swapped_ratio(along.size(), s.exact(), grip.size());
    lemma_swapped_ratio(across.size(), s.exact(), grip_lat.size());
    lemma_reordered(force.x.exact(), fx.exact());
    lemma_reordered(force.z.exact(), fz.exact());
    lemma_reordered(force.x.exact(), (-fz).exact());
    lemma_reordered(force.z.exact(), fx.exact());
    lemma_split_is_capped(
        length(exact_dot(force, basis.forward)),
        length(exact_dot(force, basis.right)),
        x,
        y,
        fx.exact() * fx.exact() + fz.exact() * fz.exact(),
        grip.size(),
        grip_lat.size(),
        eps(),
        tiny(),
    );
}

proof fn lemma_reordered(x: real, y: real)
    ensures
        x * y == y * x,
{
    assert(x * y == y * x) by (nonlinear_arith);
}

proof fn lemma_flat_dot(a: Vector3, b: Vector3)
    requires
        a.y.is_zero(),
    ensures
        exact_dot(a, b) == a.x.exact() * b.x.exact() + a.z.exact() * b.z.exact(),
{
    lemma_exact(a.y);
    let y = b.y.exact();
    assert(0real * y == 0real) by (nonlinear_arith);
}

/// The scale that the cap applies to a force: one where the force lies in the ellipse.
spec fn trim_of(along: Binary32, across: Binary32, a: Binary32, b: Binary32) -> Binary32 {
    let level = ellipse(along, across, a, b);
    if level > one() {
        level.root().reciprocal()
    } else {
        one()
    }
}

proof fn lemma_trim_of(along: Binary32, across: Binary32, a: Binary32, b: Binary32)
    requires
        along.is_finite(),
        across.is_finite(),
        a.is_finite(),
        b.is_finite(),
        a > zero(),
        b > zero(),
    ensures
        ({
            let s = trim_of(along, across, a, b);
            let xi = along.size() / a.size();
            let eta = across.size() / b.size();
            &&& in_unit_range(s)
            &&& 0real <= s.exact() <= 1real
            &&& ellipse(along, across, a, b) > one() || s.exact() == 1real
            &&& (xi * s.exact()) * (xi * s.exact()) + (eta * s.exact()) * (eta * s.exact()) <= 1real
                + 26real * eps()
        }),
{
    let level = ellipse(along, across, a, b);
    let s = trim_of(along, across, a, b);
    let xi = along.size() / a.size();
    let eta = across.size() / b.size();
    lemma_exact(s);
    lemma_exact_one();
    lemma_exact_level(along, across, a, b);
    if level > one() {
        lemma_scale_back(along, across, a, b);
    } else {
        lemma_exact_order(level, one());
        lemma_exact(level);
        lemma_times_one(xi);
        lemma_times_one(eta);
        lemma_small();
    }
}

/// The capped force has no vertical part, and its other components are the free ones, scaled.
proof fn lemma_flat(
    along: Binary32,
    across: Binary32,
    s: Binary32,
    basis: DriveBasis,
    force: Vector3,
)
    requires
        along.is_finite(),
        across.is_finite(),
        on_the_ground(basis),
        in_unit_range(s),
        ({
            let free = basis.forward.scaled(along).plus(basis.right.scaled(across));
            force == free.scaled(s) || force == free
        }),
    ensures
        force.y.is_zero(),
{
    lemma_unit_range_units(s);
    lemma_zero_product(along, zero());
    lemma_zero_product(across, zero());
    lemma_adding_zero(zero() * along, zero() * across);
    lemma_zero_product(s, zero() * along + zero() * across);
}

/// The budget across the track is between a third of the one along it and twice that.
proof fn lemma_lateral_budget(grip: Binary32)
    requires
        grip.is_finite(),
        grip > zero(),
        grip * number(LATERAL_GRIP_RATIO) > zero(),
    ensures
        ({
            let lateral = grip * number(LATERAL_GRIP_RATIO);
            &&& lateral.is_finite()
            &&& lateral.size() <= 2real * grip.size()
            &&& grip.size() <= 3real * lateral.size()
        }),
{
    let ratio = number(LATERAL_GRIP_RATIO);
    let lateral = grip * ratio;
    lemma_ratio_in_units();
    lemma_scaling_never_lengthens(grip, ratio);
    lemma_product_error(grip, ratio);
    lemma_small();
    lemma_exact(grip);
    lemma_exact(lateral);
    lemma_budgets(lateral.size(), grip.size(), ratio.size(), eps(), tiny());
}

/// The lateral ratio is 9227469 / 2^24.
proof fn lemma_ratio_in_units()
    ensures
        number(LATERAL_GRIP_RATIO).size() == 9227469real / 16777216real,
{
    let k = LATERAL_GRIP_RATIO as nat;
    let p = pow2(125);
    lemma2_to64();
    lemma_pow2_adds(125, 24);
    lemma_pow2_pos(125);
    assert(k % (BINADE as nat) == 838861 && k / (BINADE as nat) == 126);
    assert(magnitude(k) == 9227469 * p);
    assert(pow2(UNIT_SCALE as nat) == p * 16777216);
    let x = p as real;
    assert((9227469real * x) / (x * 16777216real) == 9227469real / 16777216real) by (nonlinear_arith)
        requires
            x > 0real,
    ;
}

/// The least number of full precision: 2 to the -126.
pub const LEAST_NORMAL: u32 = 0x0080_0000;

/// The ground directions of a tank are on the ground, unless the hull points so nearly straight up or
/// down that the square of what is left of its direction loses precision.
pub proof fn law_ground_directions_are_on_the_ground(hull_forward: Vector3)
    requires
        hull_forward.is_finite(),
        ({
            let flat = vector(hull_forward.x, zero(), hull_forward.z);
            !(zero() < flat.dot(flat) && flat.dot(flat) < number(LEAST_NORMAL))
        }),
    ensures
        on_the_ground(ground_basis(hull_forward)),
{
    let flat = vector(hull_forward.x, zero(), hull_forward.z);
    let d = flat.dot(flat);
    let r = d.root().reciprocal();
    let forward = ground_basis(hull_forward).forward;
    lemma_exact(zero());
    lemma_small();
    if r.is_finite() && r > zero() {
        lemma_zero_product(r, zero());
        assert(zero() * r == zero()) by {
            lemma_rounding_exists(0, pow2(UNIT_SCALE as nat));
            assert(zero().units() * r.units() == 0) by (nonlinear_arith)
                requires
                    zero().units() == 0,
            ;
        }
        lemma_unit_length(hull_forward.x, hull_forward.z);
    } else {
        assert(forward == origin());
        assert(0real * 0real == 0real);
    }
    lemma_flat_dot(forward, forward);
}

/// The exact squared length of a flat vector that is scaled to length one.
proof fn lemma_unit_length(x: Binary32, z: Binary32)
    requires
        x.is_finite(),
        z.is_finite(),
        ({
            let flat = vector(x, zero(), z);
            let r = flat.dot(flat).root().reciprocal();
            &&& r.is_finite()
            &&& r > zero()
            &&& !(zero() < flat.dot(flat) && flat.dot(flat) < number(LEAST_NORMAL))
        }),
    ensures
        ({
            let flat = vector(x, zero(), z);
            let r = flat.dot(flat).root().reciprocal();
            let f = (x * r).exact();
            let g = (z * r).exact();
            &&& (x * r).is_finite()
            &&& (z * r).is_finite()
            &&& f * f + g * g <= 1real + 32real * eps()
        }),
{
    let e = eps();
    let t = tiny();
    let flat = vector(x, zero(), z);
    let d = flat.dot(flat);
    let root = d.root();
    let r = root.reciprocal();
    lemma_small();
    lemma_exact(x);
    lemma_exact(z);
    lemma_flat_square(x, z);
    lemma_exact(d);
    lemma_least_normal(d);
    lemma_tinier();
    lemma_root_error(d);
    lemma_exact(root);
    lemma_exact_one();
    lemma_rounding_exists(one().units() * pow2(UNIT_SCALE as nat), root.units());
    lemma_quotient_error(one(), root);
    lemma_exact(r);
    lemma_finite_size(root);
    lemma_root_not_tiny(d.size(), root.size(), e, t);
    let m = x.size() * x.size() + z.size() * z.size();
    lemma_product_of_sizes(x.size(), x.size());
    lemma_product_of_sizes(z.size(), z.size());
    lemma_scaled_to_one(m, d.size(), root.size(), r.size(), e, t);
    lemma_square_of_product(x.size(), z.size(), r.size());
    let u = x.size() * r.size();
    let v = z.size() * r.size();
    lemma_product_of_sizes(x.size(), r.size());
    lemma_product_of_sizes(z.size(), r.size());
    lemma_ratios(u, v, e);
    lemma_modest_product(x, r);
    lemma_modest_product(z, r);
    lemma_unit_components((x * r).size(), (z * r).size(), u, v, e, t);
    lemma_square_of_length((x * r).exact());
    lemma_square_of_length((z * r).exact());
    lemma_exact(x * r);
    lemma_exact(z * r);
}

/// A number of full precision, against the least number.
proof fn lemma_least_normal(d: Binary32)
    requires
        d.is_finite(),
        !d.negative(),
        d >= number(LEAST_NORMAL),
    ensures
        tiny() <= eps() * d.size(),
{
    lemma_scale();
    lemma_magnitude_order(BINADE as nat, d.index());
    lemma_magnitude_step((BINADE - 1) as nat);
    let n = d.units() as real;
    let s = scale();
    let q = n / s;
    let t = tiny();
    let e = eps();
    lemma_ratio(n, s);
    lemma_ratio(1real, 2real * s);
    assert(t <= e * q) by (nonlinear_arith)
        requires
            n >= 8388608real,
            q * s == n,
            t * (2real * s) == 1real,
            s > 0real,
            e == 1real / 16777216real,
    ;
}

/// The rounded squared length of a flat vector, against the exact one.
proof fn lemma_flat_square(x: Binary32, z: Binary32)
    requires
        x.is_finite(),
        z.is_finite(),
        ({
            let flat = vector(x, zero(), z);
            let r = flat.dot(flat).root().reciprocal();
            &&& r.is_finite()
            &&& r > zero()
            &&& !(zero() < flat.dot(flat) && flat.dot(flat) < number(LEAST_NORMAL))
        }),
    ensures
        ({
            let flat = vector(x, zero(), z);
            let d = flat.dot(flat);
            &&& d.is_finite()
            &&& !d.negative()
            &&& !d.is_zero()
            &&& d >= number(LEAST_NORMAL)
            &&& x.size() * x.size() + z.size() * z.size() <= d.size() * (1real + 7real * eps())
        }),
{
    let p = x * x;
    let y = zero() * zero();
    let q = z * z;
    let d = p + y + q;
    lemma_small();
    lemma_square_is_a_number(x);
    lemma_square_is_a_number(z);
    lemma_square_is_a_number(zero());
    lemma_zero_product(zero(), zero());
    lemma_sum_of_squares(p, y);
    lemma_sum_of_squares(p + y, q);
    assert(!d.is_infinite() && !d.is_zero());
    assert(d.is_finite());
    lemma_adding_zero(p, y);
    lemma_exact_order(p + y, p);
    lemma_exact_order(p, p + y);
    lemma_product_error(x, x);
    lemma_product_error(z, z);
    lemma_sum_error(p + y, q);
    lemma_exact(p);
    lemma_exact(p + y);
    lemma_exact(q);
    lemma_exact(d);
    lemma_least_normal(d);
    lemma_bounds_of_near(p.size(), x.size() * x.size());
    lemma_bounds_of_near(q.size(), z.size() * z.size());
    lemma_bounds_of_near(d.size(), (p + y).size() + q.size());
    lemma_squared_length(x.size(), z.size(), p.size(), q.size(), d.size(), eps(), tiny());
}

} // verus!
