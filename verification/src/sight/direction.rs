//! The direction of the intent, and how well its rounded vector points there.

use crate::binary32::encoding::Binary32;
use crate::binary32::error::{eps, lemma_exact, lemma_product_error, length, tiny};
use crate::binary32::functions::{one, zero};
use crate::binary32::laws::lemma_one_is_neutral;
use crate::binary32::precision::{lemma_modest_product, lemma_negated, lemma_small};
use crate::bounds::{
    lemma_binomial, lemma_near, lemma_scaled_sign, lemma_square_of_length, lemma_square_of_products,
};
use crate::sight::direction_of;
use crate::vector::vector;
use vstd::prelude::*;

verus! {

/// Two numbers are a sine and a cosine of one angle, up to a slack.
pub open spec fn unit_pair(sin: Binary32, cos: Binary32, slack: real) -> bool {
    &&& sin.is_finite()
    &&& cos.is_finite()
    &&& length(sin.exact() * sin.exact() + cos.exact() * cos.exact() - 1real) <= slack
}

/// Straight ahead is straight ahead.
pub proof fn law_no_turn_points_ahead()
    ensures
        direction_of(zero(), one(), zero(), one()).same_value(vector(zero(), zero(), -one())),
{
    lemma_one_is_neutral(-zero());
    lemma_one_is_neutral(-one());
}

/// The direction is the one that the angles say: for sines and cosines that belong together its length
/// is one, its height is the sine of the pitch, its flat part is as long as the cosine of the pitch, and
/// lies where the yaw says, straight along its sine and cosine. So the angles can be read off it again.
/// All this up to what the sines and cosines themselves are off, and 24 roundings.
pub proof fn law_direction_has_the_angles(
    yaw_sin: Binary32,
    yaw_cos: Binary32,
    pitch_sin: Binary32,
    pitch_cos: Binary32,
    slack: real,
)
    requires
        unit_pair(yaw_sin, yaw_cos, slack),
        unit_pair(pitch_sin, pitch_cos, slack),
        0real <= slack <= 1real / 16real,
    ensures
        ({
            let d = direction_of(yaw_sin, yaw_cos, pitch_sin, pitch_cos);
            let x = d.x.exact();
            let y = d.y.exact();
            let z = d.z.exact();
            let sin = yaw_sin.exact();
            let cos = yaw_cos.exact();
            let flat = pitch_cos.exact();
            &&& d.is_finite()
            &&& d.y == pitch_sin
            &&& length(x * x + y * y + z * z - 1real) <= 3real * slack + 24real * eps()
            &&& length(x * x + z * z - flat * flat) <= 2real * slack + 24real * eps()
            &&& length((-x) * cos - (-z) * sin) <= 24real * eps()
            &&& length((-x) * sin + (-z) * cos - flat) <= 2real * slack + 24real * eps()
        }),
{
    let e = eps();
    let t = tiny();
    let p = yaw_sin.exact();
    let q = yaw_cos.exact();
    let c = pitch_cos.exact();
    let s = pitch_sin.exact();
    lemma_small();
    lemma_pair(p, q, slack);
    lemma_pair(s, c, slack);
    lemma_part_of_direction(yaw_sin, pitch_cos);
    lemma_part_of_direction(yaw_cos, pitch_cos);
    let d = direction_of(yaw_sin, yaw_cos, pitch_sin, pitch_cos);
    lemma_bounded_product(p, c);
    lemma_bounded_product(q, c);
    let a = -d.x.exact() - p * c;
    let b = -d.z.exact() - q * c;
    lemma_error_size(length(a), length(p * c), e, t);
    lemma_error_size(length(b), length(q * c), e, t);
    lemma_angles(p, q, s, c, a, b, -d.x.exact(), -d.z.exact(), slack, e);
    lemma_opposite_squares(d.x.exact());
    lemma_opposite_squares(d.z.exact());
}

proof fn lemma_opposite_squares(x: real)
    ensures
        (-x) * (-x) == x * x,
{
    assert((-x) * (-x) == x * x) by (nonlinear_arith);
}

/// A sine and a cosine are hardly above one.
proof fn lemma_pair(p: real, q: real, slack: real)
    requires
        length(p * p + q * q - 1real) <= slack,
        0real <= slack <= 1real / 16real,
    ensures
        length(p) <= 17real / 16real,
        length(q) <= 17real / 16real,
{
    let u = length(p);
    let v = length(q);
    lemma_square_of_length(p);
    lemma_square_of_length(q);
    assert(u <= 17real / 16real) by (nonlinear_arith)
        requires
            u * u + v * v <= 17real / 16real,
            u >= 0real,
    ;
    assert(v <= 17real / 16real) by (nonlinear_arith)
        requires
            u * u + v * v <= 17real / 16real,
            v >= 0real,
    ;
}

proof fn lemma_bounded_product(p: real, c: real)
    requires
        length(p) <= 17real / 16real,
        length(c) <= 17real / 16real,
    ensures
        length(p * c) <= 5real / 4real,
{
    lemma_scaled_sign(p, c, 17real / 16real);
}

/// One horizontal part of the direction.
proof fn lemma_part_of_direction(angle: Binary32, pitch_cos: Binary32)
    requires
        angle.is_finite(),
        pitch_cos.is_finite(),
        length(angle.exact()) <= 17real / 16real,
        length(pitch_cos.exact()) <= 17real / 16real,
    ensures
        ({
            let x = (-angle) * pitch_cos;
            let exact = angle.exact() * pitch_cos.exact();
            &&& x.is_finite()
            &&& length(-x.exact() - exact) <= 2real * eps() * length(exact) + 2real * tiny()
        }),
{
    let x = (-angle) * pitch_cos;
    lemma_small();
    lemma_exact(angle);
    lemma_exact(-angle);
    lemma_exact(pitch_cos);
    lemma_negated(angle);
    let u = angle.size();
    let v = pitch_cos.size();
    assert(u * v <= 3real / 2real) by (nonlinear_arith)
        requires
            0real <= u <= 17real / 16real,
            0real <= v <= 17real / 16real,
    ;
    assert((-angle).size() == u);
    lemma_modest_product(-angle, pitch_cos);
    lemma_product_error(-angle, pitch_cos);
    let f = angle.exact();
    let c = pitch_cos.exact();
    assert((-f) * c == -(f * c)) by (nonlinear_arith);
    lemma_near(x.exact(), -(f * c));
}

proof fn lemma_error_size(a: real, x: real, e: real, t: real)
    requires
        a <= 2real * e * x + 2real * t,
        0real <= x <= 5real / 4real,
        e == 1real / 16777216real,
        0real < t <= e * e,
    ensures
        a <= 3real * e,
{
    assert(a <= 3real * e) by (nonlinear_arith)
        requires
            a <= 2real * e * x + 2real * t,
            0real <= x <= 5real / 4real,
            e == 1real / 16777216real,
            0real < t <= e * e,
    ;
}

/// The angles of a vector that is `(p c + a, s, q c + b)`.
proof fn lemma_angles(
    p: real,
    q: real,
    s: real,
    c: real,
    a: real,
    b: real,
    x: real,
    z: real,
    slack: real,
    e: real,
)
    requires
        length(p * p + q * q - 1real) <= slack,
        length(s * s + c * c - 1real) <= slack,
        0real <= slack <= 1real / 16real,
        length(p) <= 17real / 16real,
        length(q) <= 17real / 16real,
        length(c) <= 17real / 16real,
        length(p * c) <= 5real / 4real,
        length(q * c) <= 5real / 4real,
        x == p * c + a,
        z == q * c + b,
        length(a) <= 3real * e,
        length(b) <= 3real * e,
        e == 1real / 16777216real,
    ensures
        length(x * x + s * s + z * z - 1real) <= 3real * slack + 24real * e,
        length(x * x + z * z - c * c) <= 2real * slack + 24real * e,
        length(x * q - z * p) <= 24real * e,
        length(x * p + z * q - c) <= 2real * slack + 24real * e,
{
    let n = p * p + q * q;
    let cc = c * c;
    let k = n - 1real;
    lemma_square_with_error(p * c, a, e);
    lemma_square_with_error(q * c, b, e);
    lemma_square_of_products(p, c);
    lemma_square_of_products(q, c);
    let pp = p * p;
    let qq = q * q;
    assert(pp * cc + qq * cc == (pp + qq) * cc) by (nonlinear_arith);
    assert((1real + k) * cc == cc + k * cc) by (nonlinear_arith);
    lemma_scaled_sign(c, c, 17real / 16real);
    lemma_square_of_length(c);
    let lc = length(c);
    assert(lc * (17real / 16real) <= 5real / 4real);
    lemma_scaled_sign(k, cc, 5real / 4real);
    let lk = length(k);
    assert(lk * (5real / 4real) <= 2real * slack);
    assert((p * c + a) * q - (q * c + b) * p == a * q - b * p) by (nonlinear_arith);
    assert((p * c + a) * p + (q * c + b) * q == (p * p + q * q) * c + a * p + b * q)
        by (nonlinear_arith);
    lemma_small_product(a, q, e);
    lemma_small_product(b, p, e);
    lemma_small_product(a, p, e);
    lemma_small_product(b, q, e);
    assert((1real + k) * c == c + k * c) by (nonlinear_arith);
    lemma_scaled_sign(k, c, 17real / 16real);
    assert(lk * (17real / 16real) <= 2real * slack);
}

proof fn lemma_small_product(a: real, q: real, e: real)
    requires
        length(a) <= 3real * e,
        length(q) <= 17real / 16real,
        e == 1real / 16777216real,
    ensures
        length(a * q) <= 4real * e,
{
    lemma_scaled_sign(a, q, 17real / 16real);
}

/// The square of a part with an error.
proof fn lemma_square_with_error(y: real, a: real, e: real)
    requires
        length(y) <= 5real / 4real,
        length(a) <= 3real * e,
        e == 1real / 16777216real,
    ensures
        length((y + a) * (y + a) - y * y) <= 8real * e,
{
    lemma_binomial(y, a);
    lemma_scaled_sign(a, y, 5real / 4real);
    assert(y * a == a * y) by (nonlinear_arith);
    lemma_scaled_sign(a, a, 3real * e);
    let u = length(a);
    assert(u * (3real * e) <= e / 4real) by (nonlinear_arith)
        requires
            0real <= u <= 3real * e,
            e == 1real / 16777216real,
    ;
}

} // verus!
