//! Bounds over the real numbers for points and vectors that are scaled in rounded arithmetic.

use crate::binary32::error::{eps, lemma_ratio, length, near, tiny};
use vstd::prelude::*;

verus! {

/// The larger of a level and one.
pub open spec fn at_least_one(level: real) -> real {
    if level < 1real {
        1real
    } else {
        level
    }
}

/// The square of a sum.
pub proof fn lemma_binomial(m: real, n: real)
    ensures
        (m + n) * (m + n) == m * m + 2real * (m * n) + n * n,
{
    assert((m + n) * (m + n) == m * m + 2real * (m * n) + n * n) by (nonlinear_arith);
}

/// The square of a product.
pub proof fn lemma_square_of_products(x: real, y: real)
    ensures
        (x * y) * (x * y) == (x * x) * (y * y),
{
    assert((x * y) * (x * y) == (x * x) * (y * y)) by (nonlinear_arith);
}

/// A bound on a level, a factor and the square of a scale, regrouped.
pub proof fn lemma_regrouped(root: real, c: real, a: real, s: real)
    ensures
        (((root * c) * (root * c)) * a) * (s * s) == ((s * root) * (s * root)) * ((c * c) * a),
{
    lemma_square_of_products(root, c);
    lemma_square_of_products(s, root);
    let x = root * root;
    let y = c * c;
    let z = s * s;
    assert(((x * y) * a) * z == (z * x) * (y * a)) by (nonlinear_arith);
}

/// A ratio, its square rounded twice.
pub proof fn lemma_square(ratio: real, u: real, p: real, e: real, t: real)
    requires
        0real <= ratio <= u * (1real + e) + t,
        0real <= u,
        u * u <= p * (1real + e) + t,
        0real <= p,
        e == 1real / 16777216real,
        0real < t <= e * e,
    ensures
        ratio * ratio <= p * (1real + 4real * e) + 4real * t,
{
    let c = 1real + e;
    let v = u * c + t;
    lemma_square_grows(ratio, v);
    lemma_binomial(u * c, t);
    lemma_square_of_products(u, c);
    let m = u * u;
    lemma_product_of_sizes(u, u);
    assert(2real * u <= u * u + 1real) by (nonlinear_arith);
    let tc = t * c;
    lemma_product_of_sizes(t, c);
    assert((u * c) * t == u * (t * c)) by (nonlinear_arith);
    assert(2real * (u * tc) <= m * tc + tc) by (nonlinear_arith)
        requires
            2real * u <= m + 1real,
            tc >= 0real,
    ;
    let k = c * c + t * c;
    let cc = c * c;
    assert(m * cc + m * tc == m * (cc + tc)) by (nonlinear_arith);
    assert(1real <= k <= 1real + 2real * e + 3real * e * e) by (nonlinear_arith)
        requires
            k == c * c + t * c,
            c == 1real + e,
            e == 1real / 16777216real,
            0real < t <= e * e,
    ;
    let n = p * c + t;
    assert(m * k <= n * k) by (nonlinear_arith)
        requires
            m <= n,
            k >= 1real,
    ;
    assert((p * c + t) * k == p * (c * k) + t * k) by (nonlinear_arith);
    assert(c * k <= 1real + 4real * e) by (nonlinear_arith)
        requires
            c == 1real + e,
            1real <= k <= 1real + 2real * e + 3real * e * e,
            e == 1real / 16777216real,
    ;
    assert(p * (c * k) <= p * (1real + 4real * e)) by (nonlinear_arith)
        requires
            p >= 0real,
            c * k <= 1real + 4real * e,
    ;
    assert(t * k + t * c + t * t <= 4real * t) by (nonlinear_arith)
        requires
            0real < t <= e * e,
            e == 1real / 16777216real,
            c == 1real + e,
            1real <= k <= 1real + 2real * e + 3real * e * e,
    ;
}

/// The exact level of a point is the rounded one, up to eight roundings.
pub proof fn lemma_level(
    xi: real,
    eta: real,
    u: real,
    v: real,
    p: real,
    q: real,
    level: real,
    e: real,
    t: real,
)
    requires
        0real <= xi <= u * (1real + e) + t,
        0real <= eta <= v * (1real + e) + t,
        0real <= u,
        0real <= v,
        u * u <= p * (1real + e) + t,
        v * v <= q * (1real + e) + t,
        0real <= p,
        0real <= q,
        p + q <= level * (1real + e) + t,
        0real <= level,
        e == 1real / 16777216real,
        0real < t <= e * e,
    ensures
        xi * xi + eta * eta <= at_least_one(level) * (1real + 8real * e),
{
    lemma_square(xi, u, p, e, t);
    lemma_square(eta, v, q, e, t);
    let c = 1real + 4real * e;
    let g = at_least_one(level);
    assert(p * c + q * c == (p + q) * c) by (nonlinear_arith);
    assert((p + q) * c <= (level * (1real + e) + t) * c) by (nonlinear_arith)
        requires
            p + q <= level * (1real + e) + t,
            c > 0real,
    ;
    assert((level * (1real + e) + t) * c + 8real * t <= g * (1real + 8real * e)) by (nonlinear_arith)
        requires
            0real <= level <= g,
            1real <= g,
            c == 1real + 4real * e,
            e == 1real / 16777216real,
            0real < t <= e * e,
    ;
}

/// A point outside the ellipse, scaled by the rounded reciprocal of the rounded root of its level,
/// comes to lie on the boundary up to 26 roundings.
pub proof fn lemma_pulled_back(
    xi: real,
    eta: real,
    level: real,
    root: real,
    s: real,
    e: real,
    t: real,
)
    requires
        xi * xi + eta * eta <= level * (1real + 8real * e),
        level <= (root + e * root + t) * (root + e * root + t),
        root >= 1real,
        0real <= s,
        s - 1real / root <= e * s + t,
        root * t <= 4real * e,
        e == 1real / 16777216real,
        0real < t <= e * e,
    ensures
        (xi * s) * (xi * s) + (eta * s) * (eta * s) <= 1real + 26real * e,
{
    let i = 1real / root;
    assert(i * root == 1real) by (nonlinear_arith)
        requires
            i == 1real / root,
            root >= 1real,
    ;
    let z = s * root;
    assert(z * (1real - e) <= 1real + 4real * e) by (nonlinear_arith)
        requires
            s - i <= e * s + t,
            i * root == 1real,
            root >= 1real,
            root * t <= 4real * e,
            z == s * root,
    ;
    assert(0real <= z) by (nonlinear_arith)
        requires
            z == s * root,
            s >= 0real,
            root >= 1real,
    ;
    assert(z <= 1real + 6real * e) by (nonlinear_arith)
        requires
            z * (1real - e) <= 1real + 4real * e,
            e == 1real / 16777216real,
    ;
    let c = 1real + e + e * e;
    let h = root + e * root + t;
    assert(0real <= h <= root * c) by (nonlinear_arith)
        requires
            h == root + e * root + t,
            c == 1real + e + e * e,
            root >= 1real,
            0real < t <= e * e,
            e == 1real / 16777216real,
    ;
    lemma_square_grows(h, root * c);
    let a = 1real + 8real * e;
    lemma_square_of_product(xi, eta, s);
    lemma_regrouped(root, c, a, s);
    let m = xi * xi + eta * eta;
    let g = (root * c) * (root * c);
    assert(m <= g * a) by (nonlinear_arith)
        requires
            m <= level * a,
            level <= g,
            a > 0real,
    ;
    let ss = s * s;
    assert(ss >= 0real) by (nonlinear_arith)
        requires
            ss == s * s,
    ;
    assert(m * ss <= (g * a) * ss) by (nonlinear_arith)
        requires
            m <= g * a,
            ss >= 0real,
    ;
    lemma_square_grows(z, 1real + 6real * e);
    let zz = z * z;
    assert(zz <= 1real + 13real * e) by (nonlinear_arith)
        requires
            zz <= (1real + 6real * e) * (1real + 6real * e),
            e == 1real / 16777216real,
    ;
    assert(zz >= 0real) by (nonlinear_arith)
        requires
            zz == z * z,
    ;
    let k = (c * c) * a;
    assert(0real <= k <= 1real + 11real * e) by (nonlinear_arith)
        requires
            k == ((1real + e + e * e) * (1real + e + e * e)) * (1real + 8real * e),
            e == 1real / 16777216real,
    ;
    assert(zz * k <= 1real + 26real * e) by (nonlinear_arith)
        requires
            0real <= zz <= 1real + 13real * e,
            0real <= k <= 1real + 11real * e,
            e == 1real / 16777216real,
    ;
}

pub proof fn lemma_quotient_of_sizes(x: real, y: real)
    requires
        x >= 0real,
        y > 0real,
    ensures
        x / y >= 0real,
{
    assert(x / y >= 0real) by (nonlinear_arith)
        requires
            x >= 0real,
            y > 0real,
    ;
}

pub proof fn lemma_nothing(x: real)
    ensures
        (x * 0real) * (x * 0real) == 0real,
{
    assert(x * 0real == 0real) by (nonlinear_arith);
}

/// A point on the ground lies in the ellipse with the given semi-axes, or outside by the slack at most.
pub open spec fn inside(x: real, y: real, a: real, b: real, slack: real) -> bool {
    (x / a) * (x / a) + (y / b) * (y / b) <= 1real + slack
}

/// A size less an amount, zero at least.
pub open spec fn less(size: real, amount: real) -> real {
    if size <= amount {
        0real
    } else {
        size - amount
    }
}

pub proof fn lemma_product_of_sizes(x: real, y: real)
    requires
        x >= 0real,
        y >= 0real,
    ensures
        x * y >= 0real,
{
    assert(x * y >= 0real) by (nonlinear_arith)
        requires
            x >= 0real,
            y >= 0real,
    ;
}

/// A rounded number less the least positive one is at most the exact number and two roundings.
pub proof fn lemma_less(p: real, m: real, e: real, t: real)
    requires
        p - m <= e * p + t,
        m >= 0real,
        p >= 0real,
        t > 0real,
        e == 1real / 16777216real,
    ensures
        0real <= less(p, 2real * t) <= m * (1real + 2real * e),
{
    let z = p - 2real * t;
    assert(e * p == p / 16777216real) by (nonlinear_arith)
        requires
            e == 1real / 16777216real,
    ;
    assert(m * (1real + 2real * e) == m + m / 8388608real) by (nonlinear_arith)
        requires
            e == 1real / 16777216real,
    ;
}

/// A bound over a semi-axis.
pub proof fn lemma_over(z: real, q: real, f: real, k: real, a: real)
    requires
        0real <= z <= (q * f) * k,
        a > 0real,
    ensures
        0real <= z / a <= ((q / a) * f) * k,
{
    let g = z / a;
    let h = q / a;
    lemma_ratio(z, a);
    lemma_ratio(q, a);
    assert((q * f) * k == ((h * f) * k) * a) by (nonlinear_arith)
        requires
            h * a == q,
    ;
    let m = (h * f) * k;
    assert(0real <= g <= m) by (nonlinear_arith)
        requires
            0real <= g * a <= m * a,
            a > 0real,
    ;
}

pub proof fn lemma_smaller_part(x: real, t: real, a: real)
    requires
        x >= 0real,
        t > 0real,
        a > 0real,
    ensures
        0real <= less(x, t) / a <= x / a,
{
    let z = less(x, t);
    assert(0real <= z / a <= x / a) by (nonlinear_arith)
        requires
            0real <= z <= x,
            a > 0real,
    ;
}

/// A square grows with its root.
pub proof fn lemma_square_grows(z: real, m: real)
    requires
        0real <= z <= m,
    ensures
        z * z <= m * m,
{
    assert(z * z <= m * m) by (nonlinear_arith)
        requires
            0real <= z <= m,
    ;
}

/// Two parts that are close to a point in the ellipse.
pub proof fn lemma_two_parts(z: real, w: real, alpha: real, beta: real, e: real)
    requires
        0real <= z <= alpha * (1real + 2real * e),
        0real <= w <= beta * (1real + 2real * e),
        alpha * alpha + beta * beta <= 1real + 26real * e,
        e == 1real / 16777216real,
    ensures
        z * z + w * w <= 1real + 32real * e,
{
    let k = 1real + 2real * e;
    lemma_square_grows(z, alpha * k);
    lemma_square_grows(w, beta * k);
    let kk = k * k;
    assert((alpha * k) * (alpha * k) + (beta * k) * (beta * k) == (alpha * alpha + beta * beta) * kk)
        by (nonlinear_arith)
        requires
            kk == k * k,
    ;
    assert(1real <= kk <= 1real + 5real * e) by (nonlinear_arith)
        requires
            kk == (1real + 2real * e) * (1real + 2real * e),
            e == 1real / 16777216real,
    ;
    let m = alpha * alpha + beta * beta;
    assert(m * kk <= 1real + 32real * e) by (nonlinear_arith)
        requires
            m <= 1real + 26real * e,
            1real <= kk <= 1real + 5real * e,
            e == 1real / 16777216real,
    ;
}

/// A size is at most itself and two roundings.
pub proof fn lemma_widened(z: real, x: real, e: real)
    requires
        0real <= z <= x,
        e == 1real / 16777216real,
    ensures
        0real <= z <= x * (1real + 2real * e),
{
    assert(x * (1real + 2real * e) == x + x / 8388608real) by (nonlinear_arith)
        requires
            e == 1real / 16777216real,
    ;
}

/// A number that rounds an exact one, in terms of the exact one.
pub proof fn lemma_near(r: real, x: real)
    requires
        near(r, x),
        tiny() > 0real,
    ensures
        length(r - x) <= 2real * eps() * length(x) + 2real * tiny(),
{
    let e = eps();
    let t = tiny();
    let d = length(r - x);
    let y = length(r);
    let z = length(x);
    assert(d <= 2real * e * z + 2real * t) by (nonlinear_arith)
        requires
            d <= e * y + t,
            y <= z + d,
            z >= 0real,
            t > 0real,
            e == 1real / 16777216real,
    ;
}

/// A sum of two rounded terms, rounded: the first half of a force component.
pub proof fn lemma_rounded_sum(x: real, y: real, p: real, q: real, c: real)
    requires
        near(p, x),
        near(q, y),
        near(c, p + q),
        tiny() > 0real,
    ensures
        length(c - (x + y)) <= 5real * eps() * (length(x) + length(y)) + 7real * tiny(),
{
    lemma_near(p, x);
    lemma_near(q, y);
    lemma_near(c, p + q);
}

/// A number scaled down and rounded.
pub proof fn lemma_rounded_scaling(c: real, exact: real, m: real, s: real, r: real)
    requires
        length(c - exact) <= 5real * eps() * m + 7real * tiny(),
        length(exact) <= m,
        near(r, c * s),
        0real <= s <= 1real,
        tiny() > 0real,
    ensures
        length(r - exact * s) <= 8real * eps() * (m * s) + 10real * tiny(),
{
    let t = tiny();
    let d = c - exact;
    lemma_near(r, c * s);
    assert(c * s == exact * s + d * s) by (nonlinear_arith)
        requires
            d == c - exact,
    ;
    lemma_scaled_bound(exact, m, s);
    let e = eps();
    let n = m * s;
    lemma_scaled_bound(d, 5real * e * m + 7real * t, s);
    assert((5real * e * m + 7real * t) * s == 5real * e * n + 7real * (t * s)) by (nonlinear_arith)
        requires
            n == m * s,
    ;
    assert(t * s <= t) by (nonlinear_arith)
        requires
            t > 0real,
            s <= 1real,
    ;
    let near_c = length(r - c * s);
    let off = length(d * s);
    let size = length(c * s);
    assert(near_c + off <= 8real * e * n + 10real * t) by (nonlinear_arith)
        requires
            near_c <= 2real * e * size + 2real * t,
            off <= 5real * e * n + 7real * t,
            size <= n + off,
            n >= 0real,
            t > 0real,
            e == 1real / 16777216real,
    ;
}

pub proof fn lemma_scaled_bound(x: real, m: real, s: real)
    requires
        length(x) <= m,
        0real <= s,
    ensures
        length(x * s) <= m * s,
{
    assert(x * s <= m * s && -(x * s) <= m * s) by (nonlinear_arith)
        requires
            x <= m,
            -x <= m,
            0real <= s,
    ;
}

/// One part of a force: the exact part with two errors, along a direction `(f, g)`.
pub proof fn lemma_part(f: real, g: real, exact: real, d: real, c: real, part: real, k: real)
    requires
        part == exact + f * d + g * c,
        length(d) <= k,
        length(c) <= k,
        length(f) + length(g) <= 3real / 2real,
    ensures
        length(part) <= length(exact) + 3real / 2real * k,
{
    lemma_scaled_sign(f, d, k);
    lemma_scaled_sign(g, c, k);
    let u = length(f);
    let v = length(g);
    assert(u * k + v * k <= 3real / 2real * k) by (nonlinear_arith)
        requires
            u + v <= 3real / 2real,
            k >= 0real,
    ;
}

pub proof fn lemma_scaled_sign(f: real, d: real, k: real)
    requires
        length(d) <= k,
    ensures
        length(f * d) <= length(f) * k,
{
    if f >= 0real {
        lemma_scaled_bound(d, k, f);
        assert(d * f == f * d) by (nonlinear_arith);
        assert(k * f == f * k) by (nonlinear_arith);
    } else {
        lemma_scaled_bound(d, k, -f);
        assert(d * (-f) == -(f * d)) by (nonlinear_arith);
        assert(k * (-f) == (-f) * k) by (nonlinear_arith);
    }
}

/// A direction that is no longer than one, up to 32 roundings.
pub proof fn lemma_direction(f: real, g: real)
    requires
        f * f + g * g <= 1real + 32real * eps(),
    ensures
        length(f) <= 17real / 16real,
        length(g) <= 17real / 16real,
        length(f) + length(g) <= 3real / 2real,
{
    let u = length(f);
    let v = length(g);
    let e = eps();
    lemma_square_of_length(f);
    lemma_square_of_length(g);
    assert(u <= 17real / 16real) by (nonlinear_arith)
        requires
            u * u + v * v <= 1real + 32real * e,
            e == 1real / 16777216real,
            u >= 0real,
    ;
    assert(v <= 17real / 16real) by (nonlinear_arith)
        requires
            u * u + v * v <= 1real + 32real * e,
            e == 1real / 16777216real,
            v >= 0real,
    ;
    let z = u + v;
    assert(z * z <= 2real * (u * u + v * v)) by (nonlinear_arith)
        requires
            z == u + v,
    ;
    assert(z <= 3real / 2real) by (nonlinear_arith)
        requires
            z * z <= 2real * (1real + 32real * e),
            e == 1real / 16777216real,
            z >= 0real,
    ;
}

pub proof fn lemma_square_of_length(f: real)
    ensures
        length(f) * length(f) == f * f,
{
    assert((-f) * (-f) == f * f) by (nonlinear_arith);
}

/// A part of the capped force over its semi-axis: `x` and `y` are the exact parts, `r` the other
/// semi-axis over this one.
pub proof fn lemma_part_over(
    part: real,
    x: real,
    y: real,
    n: real,
    a: real,
    alpha: real,
    other: real,
    e: real,
    t: real,
)
    requires
        0real <= part <= n * x + 3real / 2real * (17real / 2real * e * (x + y) + 10real * t),
        0real <= n <= 1real + 32real * e,
        a > 0real,
        x == alpha * a,
        0real <= y <= other * a,
        0real <= alpha <= 1001real / 1000real,
        0real <= other <= 3003real / 1000real,
        e == 1real / 16777216real,
        t > 0real,
    ensures
        0real <= less(part, 16real * t) / a <= alpha + 86real * e,
{
    let z = less(part, 16real * t);
    lemma_product_of_sizes(alpha, a);
    assert(n * x <= (1real + 32real * e) * x) by (nonlinear_arith)
        requires
            n <= 1real + 32real * e,
            x >= 0real,
    ;
    assert(z <= (1real + 32real * e) * x + 51real / 4real * e * (x + y)) by (nonlinear_arith)
        requires
            part <= (1real + 32real * e) * x + 3real / 2real * (17real / 2real * e * (x + y)
                + 10real * t),
            z == part - 16real * t || z == 0real,
            x >= 0real,
            y >= 0real,
            t > 0real,
            e == 1real / 16777216real,
    ;
    let m = (1real + 32real * e) * alpha + 51real / 4real * e * (alpha + other);
    assert((1real + 32real * e) * x + 51real / 4real * e * (x + y) <= m * a) by (nonlinear_arith)
        requires
            x == alpha * a,
            y <= other * a,
            m == (1real + 32real * e) * alpha + 51real / 4real * e * (alpha + other),
            e == 1real / 16777216real,
    ;
    assert(m <= alpha + 86real * e) by (nonlinear_arith)
        requires
            m == (1real + 32real * e) * alpha + 51real / 4real * e * (alpha + other),
            0real <= alpha <= 1001real / 1000real,
            0real <= other <= 3003real / 1000real,
            e == 1real / 16777216real,
    ;
    let g = z / a;
    lemma_ratio(z, a);
    assert(0real <= g <= m) by (nonlinear_arith)
        requires
            0real <= z <= m * a,
            g * a == z,
            a > 0real,
    ;
}

/// The two parts of the capped force lie in the ellipse up to 512 roundings.
pub proof fn lemma_capped_parts(z: real, w: real, alpha: real, beta: real, e: real)
    requires
        0real <= z <= alpha + 86real * e,
        0real <= w <= beta + 86real * e,
        0real <= alpha <= 1001real / 1000real,
        0real <= beta <= 1001real / 1000real,
        alpha * alpha + beta * beta <= 1real + 26real * e,
        e == 1real / 16777216real,
    ensures
        z * z + w * w <= 1real + 512real * e,
{
    let x = alpha + 86real * e;
    let y = beta + 86real * e;
    lemma_square_grows(z, x);
    lemma_square_grows(w, y);
    assert(x * x <= alpha * alpha + 173real * e) by (nonlinear_arith)
        requires
            x == alpha + 86real * e,
            0real <= alpha <= 1001real / 1000real,
            e == 1real / 16777216real,
    ;
    assert(y * y <= beta * beta + 173real * e) by (nonlinear_arith)
        requires
            y == beta + 86real * e,
            0real <= beta <= 1001real / 1000real,
            e == 1real / 16777216real,
    ;
}

/// The ratios of a point in the ellipse are hardly above one.
pub proof fn lemma_ratios(alpha: real, beta: real, e: real)
    requires
        alpha * alpha + beta * beta <= 1real + 26real * e,
        e == 1real / 16777216real,
    ensures
        alpha <= 1001real / 1000real,
        beta <= 1001real / 1000real,
{
    assert(alpha <= 1001real / 1000real) by (nonlinear_arith)
        requires
            alpha * alpha + beta * beta <= 1real + 26real * e,
            e == 1real / 16777216real,
    ;
    assert(beta <= 1001real / 1000real) by (nonlinear_arith)
        requires
            alpha * alpha + beta * beta <= 1real + 26real * e,
            e == 1real / 16777216real,
    ;
}

/// The size of a weighted sum.
pub proof fn lemma_weights(f: real, g: real, x: real, y: real, s: real)
    requires
        length(f) <= 17real / 16real,
        length(g) <= 17real / 16real,
        0real <= s,
    ensures
        (length(f * x) + length(g * y)) * s <= 17real / 16real * (length(x) * s + length(y) * s),
        length(f * x + g * y) <= length(f * x) + length(g * y),
{
    let u = length(x);
    let v = length(y);
    lemma_scaled_sign(f, x, u);
    lemma_scaled_sign(g, y, v);
    let b = 17real / 16real;
    let i = length(f);
    let j = length(g);
    assert(i * u <= b * u) by (nonlinear_arith)
        requires
            i <= b,
            u >= 0real,
    ;
    assert(j * v <= b * v) by (nonlinear_arith)
        requires
            j <= b,
            v >= 0real,
    ;
    let m = length(f * x) + length(g * y);
    let z = b * u + b * v;
    assert(m * s <= z * s) by (nonlinear_arith)
        requires
            m <= z,
            0real <= s,
    ;
    assert((b * u + b * v) * s == b * (u * s + v * s)) by (nonlinear_arith);
}

/// A product multiplied out.
proof fn lemma_expanded(f: real, x: real, a: real, y: real, c: real, s: real, d: real)
    ensures
        f * ((x * a + y * c) * s + d) == (f * x) * (a * s) + (f * y) * (c * s) + f * d,
{
    let u = a * s;
    let v = c * s;
    let p = x * a;
    let q = y * c;
    assert((p + q) * s == p * s + q * s) by (nonlinear_arith);
    assert((x * a) * s == x * (a * s)) by (nonlinear_arith);
    assert((y * c) * s == y * (c * s)) by (nonlinear_arith);
    let k = x * u;
    let l = y * v;
    assert(f * (k + l + d) == f * k + f * l + f * d) by (nonlinear_arith);
    assert(f * (x * u) == (f * x) * u) by (nonlinear_arith);
    assert(f * (y * v) == (f * y) * v) by (nonlinear_arith);
}

/// A force that is made of its parts along a direction and across it, split again.
proof fn lemma_split_identity(
    fx: real,
    fz: real,
    along: real,
    across: real,
    s: real,
    dx: real,
    dz: real,
)
    ensures
        ({
            let n = fx * fx + fz * fz;
            let rx = (fx * along + (-fz) * across) * s + dx;
            let rz = (fz * along + fx * across) * s + dz;
            &&& fx * rx + fz * rz == n * (along * s) + fx * dx + fz * dz
            &&& (-fz) * rx + fx * rz == n * (across * s) + (-fz) * dx + fx * dz
        }),
{
    lemma_expanded(fx, fx, along, -fz, across, s, dx);
    lemma_expanded(fz, fz, along, fx, across, s, dz);
    lemma_expanded(-fz, fx, along, -fz, across, s, dx);
    lemma_expanded(fx, fz, along, fx, across, s, dz);
    let u = along * s;
    let v = across * s;
    assert((fx * (-fz)) * v + (fz * fx) * v == 0real) by (nonlinear_arith);
    assert((fx * fx) * u + (fz * fz) * u == (fx * fx + fz * fz) * u) by (nonlinear_arith);
    assert(((-fz) * fx) * u + (fx * fz) * u == 0real) by (nonlinear_arith);
    assert(((-fz) * (-fz)) * v + (fx * fx) * v == (fx * fx + fz * fz) * v) by (nonlinear_arith);
}

/// The parts of a force along a direction on the ground and across it. The force is the exact one,
/// scaled by `s`, with an error of at most `k` in each component.
pub proof fn lemma_split(
    fx: real,
    fz: real,
    along: real,
    across: real,
    s: real,
    rx: real,
    rz: real,
    k: real,
)
    requires
        fx * fx + fz * fz <= 1real + 32real * eps(),
        0real <= s,
        length(rx - (fx * along + (-fz) * across) * s) <= k,
        length(rz - (fz * along + fx * across) * s) <= k,
    ensures
        ({
            let n = fx * fx + fz * fz;
            &&& 0real <= n
            &&& length(fx * rx + fz * rz) <= n * (length(along) * s) + 3real / 2real * k
            &&& length((-fz) * rx + fx * rz) <= n * (length(across) * s) + 3real / 2real * k
        }),
{
    let n = fx * fx + fz * fz;
    let dx = rx - (fx * along + (-fz) * across) * s;
    let dz = rz - (fz * along + fx * across) * s;
    lemma_direction(fx, fz);
    assert(0real <= n) by (nonlinear_arith)
        requires
            n == fx * fx + fz * fz,
    ;
    lemma_split_identity(fx, fz, along, across, s, dx, dz);
    assert(rx == (fx * along + (-fz) * across) * s + dx);
    assert(rz == (fz * along + fx * across) * s + dz);
    lemma_part(fx, fz, n * (along * s), dx, dz, fx * rx + fz * rz, k);
    lemma_part(-fz, fx, n * (across * s), dx, dz, (-fz) * rx + fx * rz, k);
    lemma_length_of_share(n, along, s);
    lemma_length_of_share(n, across, s);
}

pub proof fn lemma_length_of_share(n: real, x: real, s: real)
    requires
        0real <= n,
        0real <= s,
    ensures
        length(n * (x * s)) <= n * (length(x) * s),
{
    lemma_scaled_bound(x, length(x), s);
    lemma_scaled_bound(x * s, length(x) * s, n);
    let y = x * s;
    let z = length(x) * s;
    assert(y * n == n * y) by (nonlinear_arith);
    assert(z * n == n * z) by (nonlinear_arith);
}

/// The split force lies in the ellipse: `x` and `y` are the exact parts, scaled.
pub proof fn lemma_split_is_capped(
    part: real,
    other: real,
    x: real,
    y: real,
    n: real,
    a: real,
    b: real,
    e: real,
    t: real,
)
    requires
        ({
            let k = 17real / 2real * e * (x + y) + 10real * t;
            &&& 0real <= part <= n * x + 3real / 2real * k
            &&& 0real <= other <= n * y + 3real / 2real * k
        }),
        0real <= n <= 1real + 32real * e,
        0real <= x,
        0real <= y,
        a > 0real,
        b > 0real,
        b <= 2real * a,
        a <= 3real * b,
        (x / a) * (x / a) + (y / b) * (y / b) <= 1real + 26real * e,
        e == 1real / 16777216real,
        t > 0real,
    ensures
        inside(less(part, 16real * t), less(other, 16real * t), a, b, 512real * e),
{
    let alpha = x / a;
    let beta = y / b;
    lemma_ratio(x, a);
    lemma_ratio(y, b);
    lemma_quotient_of_sizes(x, a);
    lemma_quotient_of_sizes(y, b);
    lemma_ratios(alpha, beta, e);
    assert(y <= (2real * beta) * a) by (nonlinear_arith)
        requires
            y == beta * b,
            b <= 2real * a,
            beta >= 0real,
    ;
    assert(x <= (3real * alpha) * b) by (nonlinear_arith)
        requires
            x == alpha * a,
            a <= 3real * b,
            alpha >= 0real,
    ;
    lemma_part_over(part, x, y, n, a, alpha, 2real * beta, e, t);
    lemma_part_over(other, y, x, n, b, beta, 3real * alpha, e, t);
    lemma_capped_parts(less(part, 16real * t) / a, less(other, 16real * t) / b, alpha, beta, e);
}

pub proof fn lemma_times_one(x: real)
    ensures
        x * 1real == x,
{
}

/// A bound with five roundings is one with eight.
pub proof fn lemma_more(m: real, e: real, t: real)
    requires
        m >= 0real,
        t > 0real,
        e == 1real / 16777216real,
    ensures
        5real * e * m + 7real * t <= 8real * e * m + 10real * t,
{
    assert(5real * e * m + 7real * t <= 8real * e * m + 10real * t) by (nonlinear_arith)
        requires
            m >= 0real,
            t > 0real,
            e == 1real / 16777216real,
    ;
}

/// A factor of 17/16 on eight roundings.
pub proof fn lemma_factor(m: real, n: real, e: real)
    requires
        m <= 17real / 16real * n,
        e == 1real / 16777216real,
    ensures
        8real * e * m <= 17real / 2real * e * n,
{
    assert(8real * e * m <= 17real / 2real * e * n) by (nonlinear_arith)
        requires
            m <= 17real / 16real * n,
            e == 1real / 16777216real,
    ;
}

pub proof fn lemma_swapped_ratio(x: real, s: real, a: real)
    requires
        a > 0real,
    ensures
        (x * s) / a == (x / a) * s,
{
    let y = x / a;
    let z = (x * s) / a;
    lemma_ratio(x, a);
    lemma_ratio(x * s, a);
    assert((y * s) * a == (y * a) * s) by (nonlinear_arith);
    let w = y * s;
    assert(z == w) by (nonlinear_arith)
        requires
            z * a == w * a,
            a > 0real,
    ;
}

/// The rounded lateral budget against the budget along the track.
pub proof fn lemma_budgets(b: real, a: real, r: real, e: real, t: real)
    requires
        b - a * r <= e * b + t,
        a * r - b <= e * b + t,
        r == 9227469real / 16777216real,
        a >= 2real * t,
        b >= 2real * t,
        t > 0real,
        e == 1real / 16777216real,
    ensures
        b <= 2real * a,
        a <= 3real * b,
{
    assert(b <= 2real * a && a <= 3real * b) by (nonlinear_arith)
        requires
            b - a * r <= e * b + t,
            a * r - b <= e * b + t,
            r == 9227469real / 16777216real,
            a >= 2real * t,
            b >= 2real * t,
            t > 0real,
            e == 1real / 16777216real,
    ;
}

/// The exact squared length of a flat vector, where the rounded one is not tiny.
pub proof fn lemma_squared_length(
    x: real,
    z: real,
    p: real,
    q: real,
    d: real,
    e: real,
    t: real,
)
    requires
        x * x <= p * (1real + e) + t,
        z * z <= q * (1real + e) + t,
        p + q <= d * (1real + e) + t,
        t <= e * d,
        e == 1real / 16777216real,
        t > 0real,
    ensures
        x * x + z * z <= d * (1real + 7real * e),
{
    let c = 1real + e;
    assert(p * c + q * c == (p + q) * c) by (nonlinear_arith);
    let m = p + q;
    assert(m * c + 2real * t <= d * (1real + 7real * e)) by (nonlinear_arith)
        requires
            m <= d * c + t,
            c == 1real + e,
            t <= e * d,
            e == 1real / 16777216real,
            t > 0real,
    ;
}

/// The rounded root of a number that is not tiny is not tiny.
pub proof fn lemma_root_not_tiny(d: real, root: real, e: real, t: real)
    requires
        d <= (root + e * root + t) * (root + e * root + t),
        t <= e * d,
        root >= 0real,
        e == 1real / 16777216real,
        0real < t <= e * e * e,
    ensures
        t <= e * root,
{
    if t > e * root {
        let h = root + e * root + t;
        assert(h <= 3real * 16777216real * t) by (nonlinear_arith)
            requires
                h == root + e * root + t,
                t > e * root,
                e == 1real / 16777216real,
                t > 0real,
        ;
        let k = 3real * 16777216real * t;
        lemma_square_grows(h, k);
        assert(t <= e * (k * k)) by (nonlinear_arith)
            requires
                t <= e * d,
                d <= k * k,
                e == 1real / 16777216real,
        ;
        assert(e * (k * k) < t) by (nonlinear_arith)
            requires
                k == 3real * 16777216real * t,
                e == 1real / 16777216real,
                0real < t <= e * e * e,
        ;
    }
}

/// The squared length of a vector scaled to length one, before its components are rounded.
pub proof fn lemma_scaled_to_one(m: real, d: real, root: real, s: real, e: real, t: real)
    requires
        0real <= m <= d * (1real + 7real * e),
        d <= (root + e * root + t) * (root + e * root + t),
        root > 0real,
        0real <= s,
        s - 1real / root <= e * s + t,
        root * t <= 4real * e,
        t <= e * root,
        e == 1real / 16777216real,
        t > 0real,
    ensures
        m * (s * s) <= 1real + 26real * e,
{
    let i = 1real / root;
    lemma_ratio(1real, root);
    let z = s * root;
    assert(z * (1real - e) <= 1real + 4real * e) by (nonlinear_arith)
        requires
            s - i <= e * s + t,
            i * root == 1real,
            root > 0real,
            root * t <= 4real * e,
            z == s * root,
    ;
    lemma_product_of_sizes(s, root);
    assert(z <= 1real + 6real * e) by (nonlinear_arith)
        requires
            z * (1real - e) <= 1real + 4real * e,
            e == 1real / 16777216real,
    ;
    let c = 1real + 2real * e;
    let h = root + e * root + t;
    assert(0real <= h <= root * c) by (nonlinear_arith)
        requires
            h == root + e * root + t,
            c == 1real + 2real * e,
            root > 0real,
            t <= e * root,
            t > 0real,
            e == 1real / 16777216real,
    ;
    lemma_square_grows(h, root * c);
    let a = 1real + 7real * e;
    let g = (root * c) * (root * c);
    assert(m <= g * a) by (nonlinear_arith)
        requires
            m <= d * a,
            d <= g,
            a > 0real,
    ;
    let ss = s * s;
    assert(ss >= 0real) by (nonlinear_arith)
        requires
            ss == s * s,
    ;
    assert(m * ss <= (g * a) * ss) by (nonlinear_arith)
        requires
            m <= g * a,
            ss >= 0real,
    ;
    lemma_regrouped(root, c, a, s);
    let k = (c * c) * a;
    assert(0real <= k <= 1real + 12real * e) by (nonlinear_arith)
        requires
            k == ((1real + 2real * e) * (1real + 2real * e)) * (1real + 7real * e),
            e == 1real / 16777216real,
    ;
    lemma_square_grows(z, 1real + 6real * e);
    let zz = z * z;
    assert(zz <= 1real + 13real * e) by (nonlinear_arith)
        requires
            zz <= (1real + 6real * e) * (1real + 6real * e),
            e == 1real / 16777216real,
    ;
    assert(zz >= 0real) by (nonlinear_arith)
        requires
            zz == z * z,
    ;
    assert(zz * k <= 1real + 26real * e) by (nonlinear_arith)
        requires
            0real <= zz <= 1real + 13real * e,
            0real <= k <= 1real + 12real * e,
            e == 1real / 16777216real,
    ;
}

/// Two rounded components of a vector scaled to length one.
pub proof fn lemma_unit_components(f: real, g: real, u: real, v: real, e: real, t: real)
    requires
        0real <= f <= u + 2real * e * u + 2real * t,
        0real <= g <= v + 2real * e * v + 2real * t,
        0real <= u,
        0real <= v,
        u * u + v * v <= 1real + 26real * e,
        e == 1real / 16777216real,
        0real < t <= e * e,
    ensures
        f * f + g * g <= 1real + 32real * e,
{
    lemma_ratios(u, v, e);
    let x = u + 2real * e * u + 2real * t;
    let y = v + 2real * e * v + 2real * t;
    lemma_square_grows(f, x);
    lemma_square_grows(g, y);
    lemma_widened_square(u, x, e, t);
    lemma_widened_square(v, y, e, t);
    let uu = u * u;
    let vv = v * v;
    assert(5real * e * uu + 5real * e * vv <= 5real * e + 140real * e * e) by (nonlinear_arith)
        requires
            uu + vv <= 1real + 26real * e,
            e == 1real / 16777216real,
    ;
    assert(140real * e * e + 16real * e * e <= e) by (nonlinear_arith)
        requires
            e == 1real / 16777216real,
    ;
}

pub proof fn lemma_widened_square(u: real, x: real, e: real, t: real)
    requires
        0real <= u <= 1001real / 1000real,
        x == u + 2real * e * u + 2real * t,
        e == 1real / 16777216real,
        0real < t <= e * e,
    ensures
        x * x <= u * u + 5real * e * (u * u) + 8real * e * e,
{
    let c = 1real + 2real * e;
    let uu = u * u;
    lemma_product_of_sizes(u, u);
    assert(u * (1real + 2real * e) == u + 2real * e * u) by (nonlinear_arith);
    let m = u * c;
    let n = 2real * t;
    lemma_binomial(m, n);
    lemma_square_of_products(u, c);
    assert((u * u) * (c * c) == (c * c) * (u * u)) by (nonlinear_arith);
    assert(2real * (m * n) == 4real * t * m) by (nonlinear_arith)
        requires
            n == 2real * t,
    ;
    assert(n * n == 4real * t * t) by (nonlinear_arith)
        requires
            n == 2real * t,
    ;
    assert((c * c) * uu <= uu + 5real * e * uu) by (nonlinear_arith)
        requires
            c == 1real + 2real * e,
            uu >= 0real,
            e == 1real / 16777216real,
    ;
    assert(m <= 3real / 2real) by (nonlinear_arith)
        requires
            m == u * c,
            0real <= u <= 1001real / 1000real,
            c == 1real + 2real * e,
            e == 1real / 16777216real,
    ;
    assert(4real * t * m <= 6real * t) by (nonlinear_arith)
        requires
            m <= 3real / 2real,
            t > 0real,
    ;
    assert(4real * t * t <= t) by (nonlinear_arith)
        requires
            0real < t <= e * e,
            e == 1real / 16777216real,
    ;
    assert(8real * e * e == 8real * (e * e)) by (nonlinear_arith);
}

/// What a rounded size says of the exact one.
pub proof fn lemma_bounds_of_near(r: real, x: real)
    requires
        near(r, x),
        r >= 0real,
    ensures
        x <= r * (1real + eps()) + tiny(),
{
    let e = eps();
    assert(r * (1real + e) == r + e * r) by (nonlinear_arith);
}

/// The squared length of a scaled vector.
pub proof fn lemma_square_of_product(x: real, z: real, s: real)
    ensures
        (x * s) * (x * s) + (z * s) * (z * s) == (x * x + z * z) * (s * s),
{
    lemma_square_of_products(x, s);
    lemma_square_of_products(z, s);
    let a = x * x;
    let b = z * z;
    let c = s * s;
    assert(a * c + b * c == (a + b) * c) by (nonlinear_arith);
}

} // verus!
