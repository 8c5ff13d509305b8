//! The margin that the intent may lead the gun by, and how well the rounded restraint keeps to it.

use crate::binary32::arithmetic::UNIT_SCALE;
use crate::binary32::encoding::{magnitude, Binary32, BINADE};
use crate::binary32::error::{
    eps, lemma_exact, lemma_exact_order, lemma_finite_size, lemma_product_error,
    lemma_quotient_error, lemma_ratio, lemma_root_error, lemma_scale, lemma_sum_error, length,
    scale, tiny,
};
use crate::binary32::functions::{number, zero, TWO_BITS};
use crate::binary32::laws::{
    lemma_scaling_never_lengthens, lemma_share, lemma_sum_within, lemma_unit_range_units,
    lemma_whole_number, lemma_zero_product,
};
use crate::binary32::precision::{
    lemma_modest_product, lemma_small, lemma_square_is_a_number, lemma_sum_of_squares, lemma_tinier,
};
use crate::bounds::{
    lemma_bounds_of_near, lemma_near, lemma_product_of_sizes, lemma_regrouped, lemma_square_grows,
    lemma_square_of_product, lemma_square_of_products, lemma_squared_length, lemma_unit_components,
};
use crate::sight::{lead_length, lead_of, restrained, GunnerIntent, LEAD_MARGIN};
use vstd::arithmetic::power2::{lemma2_to64, lemma_pow2_adds, lemma_pow2_pos, pow2};
use vstd::prelude::*;

verus! {

/// A lead brought back to the margin where it is longer.
pub open spec fn shortened(lead: (Binary32, Binary32)) -> (Binary32, Binary32) {
    if lead_length(lead) > number(LEAD_MARGIN) {
        let share = number(LEAD_MARGIN) / lead_length(lead);
        (lead.0 * share, lead.1 * share)
    } else {
        lead
    }
}

/// The margin holds: the intent leads the gun by the shortened lead, and that is no longer than the
/// margin, up to 32 roundings.
pub proof fn law_lead_keeps_to_the_margin(intent: GunnerIntent, turret: Binary32, sight: Binary32)
    requires
        ({
            let lead = lead_of(intent, turret, sight);
            lead.0.is_finite() && lead.1.is_finite()
        }),
    ensures
        ({
            let lead = shortened(lead_of(intent, turret, sight));
            let after = restrained(intent, turret, sight);
            &&& after == intent || after == (GunnerIntent {
                yaw: turret + lead.0,
                pitch: sight + lead.1,
            })
            &&& lead_length(lead).is_finite()
            &&& lead_length(lead).size() <= number(LEAD_MARGIN).size() * (1real + 32real * eps())
        }),
{
    let lead = lead_of(intent, turret, sight);
    let m = number(LEAD_MARGIN);
    lemma_margin_in_units();
    lemma_length_is_a_number(lead.0, lead.1);
    lemma_small();
    if lead_length(lead) > m {
        lemma_shortened_lead(lead.0, lead.1);
    } else {
        lemma_exact_order(lead_length(lead), m);
        lemma_exact(lead_length(lead));
        lemma_exact(m);
        let x = m.size();
        let e = eps();
        assert(x <= x * (1real + 32real * e)) by (nonlinear_arith)
            requires
                x >= 0real,
                e == 1real / 16777216real,
        ;
    }
}

/// The length of a finite lead is a number that is not below zero.
proof fn lemma_length_is_a_number(x: Binary32, z: Binary32)
    requires
        x.is_finite(),
        z.is_finite(),
    ensures
        !lead_length((x, z)).is_nan(),
        !lead_length((x, z)).negative(),
        lead_length((x, z)).is_finite() <==> (x * x + z * z).is_finite(),
        !(x * x + z * z).negative(),
        !(x * x + z * z).is_nan(),
        (x * x + z * z).is_finite() ==> (x * x).is_finite() && (z * z).is_finite(),
        !(x * x).negative(),
        !(z * z).negative(),
{
    lemma_square_is_a_number(x);
    lemma_square_is_a_number(z);
    lemma_sum_of_squares(x * x, z * z);
    let d = x * x + z * z;
    if d.is_finite() {
        lemma_root_error(d);
    }
}

/// The margin is 10737418 / 2^28.
proof fn lemma_margin_in_units()
    ensures
        number(LEAD_MARGIN).size() == 10737418real / 268435456real,
        number(LEAD_MARGIN).is_finite(),
        !number(LEAD_MARGIN).negative(),
{
    let k = LEAD_MARGIN as nat;
    let p = pow2(121);
    lemma2_to64();
    lemma_pow2_adds(121, 28);
    lemma_pow2_pos(121);
    assert(k % (BINADE as nat) == 2348810 && k / (BINADE as nat) == 122);
    assert(magnitude(k) == 10737418 * p);
    assert(pow2(UNIT_SCALE as nat) == p * 268435456);
    let x = p as real;
    assert((10737418real * x) / (x * 268435456real) == 10737418real / 268435456real)
        by (nonlinear_arith)
        requires
            x > 0real,
    ;
}

/// A lead that is too long, brought back.
proof fn lemma_shortened_lead(x: Binary32, z: Binary32)
    requires
        x.is_finite(),
        z.is_finite(),
        lead_length((x, z)) > number(LEAD_MARGIN),
    ensures
        ({
            let share = number(LEAD_MARGIN) / lead_length((x, z));
            let after = (x * share, z * share);
            &&& lead_length(after).is_finite()
            &&& lead_length(after).size() <= number(LEAD_MARGIN).size() * (1real + 32real * eps())
        }),
{
    let m = number(LEAD_MARGIN);
    let length = lead_length((x, z));
    let share = m / length;
    lemma_length_is_a_number(x, z);
    lemma_margin_in_units();
    lemma_share(m, length);
    lemma_unit_range_units(share);
    lemma_scaling_never_lengthens(x, share);
    lemma_scaling_never_lengthens(z, share);
    lemma_small();
    lemma_tinier();
    lemma_exact(x * share);
    lemma_exact(z * share);
    if length.is_finite() {
        lemma_scaled_lead(x, z);
    } else {
        assert(share.is_zero());
        lemma_zero_product(x, share);
        lemma_zero_product(z, share);
        lemma_exact(x * share);
        lemma_exact(z * share);
        assert(0real * 0real == 0real);
        assert((m.size() * m.size()) * (1real + 32real * eps()) >= 0real) by {
            lemma_margin_square(m.size(), eps());
        }
    }
    lemma_length_of_short(x * share, z * share);
}

proof fn lemma_margin_square(m: real, e: real)
    requires
        m == 10737418real / 268435456real,
        e == 1real / 16777216real,
    ensures
        (m * m) * (1real + 32real * e) >= 0real,
        9real / 10000real <= m * m <= 1real,
{
    assert((m * m) * (1real + 32real * e) >= 0real) by (nonlinear_arith)
        requires
            m == 10737418real / 268435456real,
            e == 1real / 16777216real,
    ;
    assert(9real / 10000real <= m * m <= 1real) by (nonlinear_arith)
        requires
            m == 10737418real / 268435456real,
    ;
}

/// The exact squared length of a lead that is brought back.
proof fn lemma_scaled_lead(x: Binary32, z: Binary32)
    requires
        x.is_finite(),
        z.is_finite(),
        lead_length((x, z)) > number(LEAD_MARGIN),
        lead_length((x, z)).is_finite(),
    ensures
        ({
            let m = number(LEAD_MARGIN).size();
            let share = number(LEAD_MARGIN) / lead_length((x, z));
            let f = (x * share).size();
            let g = (z * share).size();
            f * f + g * g <= (m * m) * (1real + 32real * eps())
        }),
{
    let m = number(LEAD_MARGIN);
    let d = x * x + z * z;
    let length = d.root();
    let share = m / length;
    let e = eps();
    let t = tiny();
    lemma_small();
    lemma_tinier();
    lemma_margin_in_units();
    lemma_length_is_a_number(x, z);
    lemma_exact(x);
    lemma_exact(z);
    lemma_exact(d);
    lemma_exact(length);
    lemma_exact(m);
    lemma_exact_order(m, length);
    lemma_root_error(d);
    lemma_finite_size(d);
    lemma_long_root(d.size(), length.size(), e, t);
    lemma_product_error(x, x);
    lemma_product_error(z, z);
    lemma_sum_error(x * x, z * z);
    lemma_exact(x * x);
    lemma_exact(z * z);
    lemma_bounds_of_near((x * x).size(), x.size() * x.size());
    lemma_bounds_of_near((z * z).size(), z.size() * z.size());
    lemma_bounds_of_near(d.size(), (x * x).size() + (z * z).size());
    lemma_squared_length(x.size(), z.size(), (x * x).size(), (z * z).size(), d.size(), e, t);
    lemma_share(m, length);
    lemma_unit_range_units(share);
    lemma_quotient_error(m, length);
    lemma_exact(share);
    let u = x.size() * share.size();
    let v = z.size() * share.size();
    lemma_product_of_sizes(x.size(), share.size());
    lemma_product_of_sizes(z.size(), share.size());
    lemma_scaled_to_margin(
        x.size() * x.size() + z.size() * z.size(),
        d.size(),
        length.size(),
        share.size(),
        m.size(),
        e,
        t,
    );
    lemma_square_of_product(x.size(), z.size(), share.size());
    lemma_scaling_never_lengthens(x, share);
    lemma_scaling_never_lengthens(z, share);
    lemma_product_error(x, share);
    lemma_product_error(z, share);
    lemma_exact(x * share);
    lemma_exact(z * share);
    lemma_near((x * share).size(), u);
    lemma_near((z * share).size(), v);
    lemma_short_components((x * share).size(), (z * share).size(), u, v, m.size(), e, t);
}

/// A lead longer than the margin is far from the least number, and its length from the largest.
proof fn lemma_long_root(d: real, length: real, e: real, t: real)
    requires
        length > 10737418real / 268435456real,
        ({
            let low = length - e * length - t;
            low >= 0real ==> low * low <= d
        }),
        d * t <= 4real * e,
        e == 1real / 16777216real,
        0real < t <= e * e * e,
    ensures
        t <= e * d,
        t <= e * length,
        length * t <= 4real * (e * e),
{
    let low = length - e * length - t;
    assert(low >= 3real / 4real * length) by (nonlinear_arith)
        requires
            low == length - e * length - t,
            length > 10737418real / 268435456real,
            e == 1real / 16777216real,
            0real < t <= e * e * e,
    ;
    let half = 3real / 4real * length;
    lemma_square_grows(half, low);
    let q = length * length;
    assert(half * half >= q / 2real) by (nonlinear_arith)
        requires
            half == 3real / 4real * length,
            q == length * length,
    ;
    assert(q / 2real <= d);
    assert(t <= e * length) by (nonlinear_arith)
        requires
            length > 10737418real / 268435456real,
            e == 1real / 16777216real,
            0real < t <= e * e * e,
    ;
    assert(q >= 1real / 1000real) by (nonlinear_arith)
        requires
            q == length * length,
            length > 10737418real / 268435456real,
    ;
    assert(t <= e * d) by (nonlinear_arith)
        requires
            q / 2real <= d,
            q >= 1real / 1000real,
            e == 1real / 16777216real,
            0real < t <= e * e * e,
    ;
    let y = length * t;
    assert(q * t <= 8real * e) by (nonlinear_arith)
        requires
            q / 2real <= d,
            d * t <= 4real * e,
            t > 0real,
    ;
    assert(y * y == (q * t) * t) by {
        lemma_square_of_products(length, t);
        assert(q * (t * t) == (q * t) * t) by (nonlinear_arith);
    }
    let qt = q * t;
    assert(qt * t <= 8real * (e * e) * (e * e)) by (nonlinear_arith)
        requires
            qt <= 8real * e,
            0real < t <= e * e * e,
            e == 1real / 16777216real,
    ;
    assert(y <= 4real * (e * e)) by (nonlinear_arith)
        requires
            y * y <= 8real * (e * e) * (e * e),
            e == 1real / 16777216real,
    ;
}

/// The squared length of a lead scaled to the margin, before its parts are rounded.
proof fn lemma_scaled_to_margin(
    m: real,
    d: real,
    length: real,
    s: real,
    margin: real,
    e: real,
    t: real,
)
    requires
        0real <= m <= d * (1real + 7real * e),
        d <= (length + e * length + t) * (length + e * length + t),
        length > 0real,
        0real <= s,
        s - margin / length <= e * s + t,
        length * t <= 4real * (e * e),
        t <= e * length,
        margin == 10737418real / 268435456real,
        e == 1real / 16777216real,
        t > 0real,
    ensures
        m * (s * s) <= (margin * margin) * (1real + 26real * e),
{
    let i = margin / length;
    lemma_ratio(margin, length);
    let z = s * length;
    assert(z * (1real - e) <= margin + 4real * (e * e)) by (nonlinear_arith)
        requires
            s - i <= e * s + t,
            i * length == margin,
            length > 0real,
            length * t <= 4real * (e * e),
            z == s * length,
    ;
    lemma_product_of_sizes(s, length);
    assert(z <= margin * (1real + 3real * e)) by (nonlinear_arith)
        requires
            z * (1real - e) <= margin + 4real * (e * e),
            margin == 10737418real / 268435456real,
            e == 1real / 16777216real,
    ;
    let c = 1real + 2real * e;
    let h = length + e * length + t;
    assert(0real <= h <= length * c) by (nonlinear_arith)
        requires
            h == length + e * length + t,
            c == 1real + 2real * e,
            length > 0real,
            t <= e * length,
            t > 0real,
            e == 1real / 16777216real,
    ;
    lemma_square_grows(h, length * c);
    let a = 1real + 7real * e;
    let g = (length * c) * (length * c);
    assert(m <= g * a) by (nonlinear_arith)
        requires
            m <= d * a,
            d <= g,
            a > 0real,
    ;
    let ss = s * s;
    lemma_product_of_sizes(s, s);
    assert(m * ss <= (g * a) * ss) by (nonlinear_arith)
        requires
            m <= g * a,
            ss >= 0real,
    ;
    lemma_regrouped(length, c, a, s);
    let k = (c * c) * a;
    assert(0real <= k <= 1real + 12real * e) by (nonlinear_arith)
        requires
            k == ((1real + 2real * e) * (1real + 2real * e)) * (1real + 7real * e),
            e == 1real / 16777216real,
    ;
    let f = 1real + 3real * e;
    lemma_square_grows(z, margin * f);
    lemma_square_of_products(margin, f);
    let mm = margin * margin;
    let ff = f * f;
    assert(ff <= 1real + 7real * e) by (nonlinear_arith)
        requires
            ff == (1real + 3real * e) * (1real + 3real * e),
            e == 1real / 16777216real,
    ;
    lemma_product_of_sizes(margin, margin);
    let zz = z * z;
    assert(zz <= mm * (1real + 7real * e)) by (nonlinear_arith)
        requires
            zz <= mm * ff,
            ff <= 1real + 7real * e,
            mm >= 0real,
    ;
    let b = 1real + 7real * e;
    assert(zz * k <= (mm * b) * k) by (nonlinear_arith)
        requires
            zz <= mm * b,
            k >= 0real,
    ;
    assert((mm * b) * k == mm * (b * k)) by (nonlinear_arith);
    assert(b * k <= 1real + 26real * e) by (nonlinear_arith)
        requires
            b == 1real + 7real * e,
            0real <= k <= 1real + 12real * e,
            e == 1real / 16777216real,
    ;
    let bk = b * k;
    assert(mm * bk <= mm * (1real + 26real * e)) by (nonlinear_arith)
        requires
            bk <= 1real + 26real * e,
            mm >= 0real,
    ;
}

/// Two rounded parts of a lead scaled to the margin.
proof fn lemma_short_components(f: real, g: real, u: real, v: real, m: real, e: real, t: real)
    requires
        0real <= f,
        0real <= g,
        length(f - u) <= 2real * e * length(u) + 2real * t,
        length(g - v) <= 2real * e * length(v) + 2real * t,
        0real <= u,
        0real <= v,
        u * u + v * v <= (m * m) * (1real + 26real * e),
        m == 10737418real / 268435456real,
        e == 1real / 16777216real,
        0real < t <= e * e * e,
    ensures
        f * f + g * g <= (m * m) * (1real + 32real * e),
{
    let i = 268435456real / 10737418real;
    assert(i * m == 1real) by (nonlinear_arith)
        requires
            i == 268435456real / 10737418real,
            m == 10737418real / 268435456real,
    ;
    assert(i > 0real) by (nonlinear_arith)
        requires
            i == 268435456real / 10737418real,
    ;
    lemma_short_part(f, u, i, e, t);
    lemma_short_part(g, v, i, e, t);
    let w = i * t;
    assert(0real < w <= e * e) by (nonlinear_arith)
        requires
            w == i * t,
            i == 268435456real / 10737418real,
            e == 1real / 16777216real,
            0real < t <= e * e * e,
    ;
    lemma_normalised(u, v, m, i, 1real + 26real * e);
    lemma_unit_components(i * f, i * g, i * u, i * v, e, w);
    lemma_scaled_again(f, g, m, i, 1real + 32real * e);
}

proof fn lemma_short_part(f: real, u: real, i: real, e: real, t: real)
    requires
        0real <= f,
        length(f - u) <= 2real * e * length(u) + 2real * t,
        0real <= u,
        i > 0real,
    ensures
        0real <= i * f <= i * u + 2real * e * (i * u) + 2real * (i * t),
        0real <= i * u,
{
    lemma_product_of_sizes(i, f);
    lemma_product_of_sizes(i, u);
    let b = u + 2real * e * u + 2real * t;
    assert(i * f <= i * b) by (nonlinear_arith)
        requires
            f <= b,
            i > 0real,
    ;
    assert(i * (u + 2real * e * u + 2real * t) == i * u + 2real * e * (i * u) + 2real * (i * t))
        by (nonlinear_arith);
}

proof fn lemma_normalised(u: real, v: real, m: real, i: real, b: real)
    requires
        i * m == 1real,
        u * u + v * v <= (m * m) * b,
    ensures
        (i * u) * (i * u) + (i * v) * (i * v) <= b,
{
    lemma_square_of_products(i, u);
    lemma_square_of_products(i, v);
    lemma_square_of_products(i, m);
    let ii = i * i;
    let uu = u * u;
    let vv = v * v;
    let mm = m * m;
    assert(ii >= 0real) by (nonlinear_arith)
        requires
            ii == i * i,
    ;
    let n = uu + vv;
    let k = mm * b;
    assert(ii * n <= ii * k) by (nonlinear_arith)
        requires
            n <= k,
            ii >= 0real,
    ;
    assert(ii * (uu + vv) == ii * uu + ii * vv) by (nonlinear_arith);
    assert(ii * (mm * b) == (ii * mm) * b) by (nonlinear_arith);
    assert((i * m) * (i * m) == 1real);
}

proof fn lemma_scaled_again(f: real, g: real, m: real, i: real, b: real)
    requires
        i * m == 1real,
        (i * f) * (i * f) + (i * g) * (i * g) <= b,
    ensures
        f * f + g * g <= (m * m) * b,
{
    assert(m * i == 1real) by (nonlinear_arith)
        requires
            i * m == 1real,
    ;
    let x = i * f;
    let y = i * g;
    assert(m * (i * f) == (m * i) * f) by (nonlinear_arith);
    assert(m * (i * g) == (m * i) * g) by (nonlinear_arith);
    lemma_square_of_products(m, x);
    lemma_square_of_products(m, y);
    let mm = m * m;
    let n = x * x + y * y;
    assert(mm >= 0real) by (nonlinear_arith)
        requires
            mm == m * m,
    ;
    assert(mm * n <= mm * b) by (nonlinear_arith)
        requires
            n <= b,
            mm >= 0real,
    ;
    let xx = x * x;
    let yy = y * y;
    assert(mm * (xx + yy) == mm * xx + mm * yy) by (nonlinear_arith);
}

/// The rounded length of a lead whose exact length keeps to the margin.
proof fn lemma_length_of_short(f: Binary32, g: Binary32)
    requires
        f.is_finite(),
        g.is_finite(),
        ({
            let m = number(LEAD_MARGIN).size();
            f.size() * f.size() + g.size() * g.size() <= (m * m) * (1real + 32real * eps())
        }),
    ensures
        lead_length((f, g)).is_finite(),
        lead_length((f, g)).size() <= number(LEAD_MARGIN).size() * (1real + 32real * eps()),
{
    let m = number(LEAD_MARGIN).size();
    let e = eps();
    let t = tiny();
    let ff = f.size() * f.size();
    let gg = g.size() * g.size();
    lemma_margin_in_units();
    lemma_small();
    lemma_tinier();
    lemma_exact(f);
    lemma_exact(g);
    lemma_product_of_sizes(f.size(), f.size());
    lemma_product_of_sizes(g.size(), g.size());
    lemma_margin_square(m, e);
    let mm = m * m;
    assert(mm * (1real + 32real * e) <= 3real / 2real) by (nonlinear_arith)
        requires
            0real <= mm <= 1real,
            e == 1real / 16777216real,
    ;
    lemma_modest_product(f, f);
    lemma_modest_product(g, g);
    lemma_length_is_a_number(f, g);
    let p = (f * f).size();
    let q = (g * g).size();
    assert(p + q <= 2real) by {
        lemma_squares_together(p, q, ff, gg, mm, e, t);
    }
    lemma_squares_add_up(f * f, g * g);
    let d = f * f + g * g;
    lemma_root_error(d);
    lemma_exact(d);
    lemma_exact(d.root());
    lemma_sum_error(f * f, g * g);
    lemma_exact(f * f);
    lemma_exact(g * g);
    lemma_near(d.size(), p + q);
    lemma_squares_together(p, q, ff, gg, mm, e, t);
    lemma_short_length(d.size(), p + q, d.root().size(), m, e, t);
}

proof fn lemma_squares_together(
    p: real,
    q: real,
    ff: real,
    gg: real,
    mm: real,
    e: real,
    t: real,
)
    requires
        0real <= p <= ff + 2real * e * ff + 2real * t,
        0real <= q <= gg + 2real * e * gg + 2real * t,
        0real <= ff,
        0real <= gg,
        ff + gg <= mm * (1real + 32real * e),
        9real / 10000real <= mm <= 1real,
        e == 1real / 16777216real,
        0real < t <= e * e * e,
    ensures
        p + q <= mm * (1real + 35real * e),
        p + q <= 2real,
{
    let n = ff + gg;
    assert(2real * e * ff + 2real * e * gg == 2real * e * n) by (nonlinear_arith)
        requires
            n == ff + gg,
    ;
    assert(n + 2real * e * n + 4real * t <= mm * (1real + 35real * e)) by (nonlinear_arith)
        requires
            n <= mm * (1real + 32real * e),
            9real / 10000real <= mm <= 1real,
            e == 1real / 16777216real,
            0real < t <= e * e * e,
    ;
    assert(mm * (1real + 35real * e) <= 2real) by (nonlinear_arith)
        requires
            0real <= mm <= 1real,
            e == 1real / 16777216real,
    ;
}

/// Two small squares add up to a finite number.
proof fn lemma_squares_add_up(p: Binary32, q: Binary32)
    requires
        p.is_finite(),
        q.is_finite(),
        !p.negative(),
        !q.negative(),
        p.size() + q.size() <= 2real,
    ensures
        (p + q).is_finite(),
{
    let two = number(TWO_BITS);
    let w = pow2(UNIT_SCALE as nat);
    lemma2_to64();
    lemma_whole_number(TWO_BITS as nat, 2, 22);
    lemma_scale();
    let x = p.units() as real;
    let y = q.units() as real;
    let s = scale();
    lemma_ratio(x, s);
    lemma_ratio(y, s);
    let a = x / s;
    let b = y / s;
    assert(a * s + b * s <= 2real * s) by (nonlinear_arith)
        requires
            a + b <= 2real,
            s > 0real,
    ;
    assert(p.units() + q.units() <= 2 * w);
    lemma_sum_within(p, q, zero(), two);
}

proof fn lemma_short_length(d: real, n: real, r: real, m: real, e: real, t: real)
    requires
        length(d - n) <= 2real * e * length(n) + 2real * t,
        0real <= n <= (m * m) * (1real + 35real * e),
        ({
            let low = r - e * r - t;
            low >= 0real ==> low * low <= d
        }),
        r >= 0real,
        m == 10737418real / 268435456real,
        e == 1real / 16777216real,
        0real < t <= e * e * e,
    ensures
        r <= m * (1real + 32real * e),
{
    let mm = m * m;
    lemma_margin_square(m, e);
    assert(d <= mm * (1real + 38real * e)) by (nonlinear_arith)
        requires
            d <= n + 2real * e * n + 2real * t,
            n <= mm * (1real + 35real * e),
            9real / 10000real <= mm,
            e == 1real / 16777216real,
            0real < t <= e * e * e,
    ;
    if r > m * (1real + 32real * e) {
        let low = r - e * r - t;
        let k = 1real + 30real * e;
        assert(low >= m * k && m * k >= 0real) by (nonlinear_arith)
            requires
                low == r - e * r - t,
                r > m * (1real + 32real * e),
                k == 1real + 30real * e,
                m == 10737418real / 268435456real,
                e == 1real / 16777216real,
                0real < t <= e * e * e,
        ;
        lemma_square_grows(m * k, low);
        lemma_square_of_products(m, k);
        assert(k * k > 1real + 38real * e) by (nonlinear_arith)
            requires
                k == 1real + 30real * e,
                e == 1real / 16777216real,
        ;
        let kk = k * k;
        assert(mm * kk > mm * (1real + 38real * e)) by (nonlinear_arith)
            requires
                kk > 1real + 38real * e,
                9real / 10000real <= mm,
        ;
    }
}

} // verus!
