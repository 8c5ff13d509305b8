//! How far rounding leads away from the exact result, over the real numbers.

use crate::binary32::arithmetic::UNIT_SCALE;
use crate::binary32::encoding::{
    lemma_magnitude_increases, lemma_magnitude_step, magnitude, Binary32, BINADE, INFINITE_INDEX,
};
use crate::binary32::functions::{one, ONE_BITS};
use crate::binary32::laws::{
    lemma_magnitude_order, lemma_order_is_by_value, lemma_root_exists, lemma_rounding_exists,
    lemma_units_of_one, lemma_whole_number,
};
use crate::binary32::quotient::{lemma_magnitude_rounds, lemma_units_positive};
use crate::binary32::root::rounded_root;
use crate::binary32::rounding::{lemma_pow2_increases, rounded};
use vstd::arithmetic::power2::{lemma2_to64, lemma_pow2_adds, lemma_pow2_pos, pow2};
use vstd::prelude::*;

verus! {

/// The relative error of one rounding: 2 to the -24.
pub open spec fn eps() -> real {
    1real / 16777216real
}

/// The units in one, as a real number.
pub open spec fn scale() -> real {
    pow2(UNIT_SCALE as nat) as real
}

/// Half of the least positive number: the absolute error of one rounding near zero.
pub open spec fn tiny() -> real {
    1real / (2real * scale())
}

impl Binary32 {
    /// The real number that a finite number is.
    pub open spec fn exact(self) -> real {
        self.value() as real / scale()
    }

    /// Its size.
    pub open spec fn size(self) -> real {
        self.units() as real / scale()
    }
}

/// The gap above a magnitude is a 2^23rd of it, or one unit near zero.
proof fn lemma_gap(k: nat)
    ensures
        8388608 * (magnitude(k + 1) - magnitude(k)) <= magnitude(k) + 8388608,
{
    let b = BINADE as nat;
    lemma_magnitude_step(k);
    if k >= b {
        let e = (k / b - 1) as nat;
        lemma_pow2_pos(e);
        assert(magnitude(k) >= 8388608 * pow2(e)) by (nonlinear_arith)
            requires
                magnitude(k) == (b + k % b) * pow2(e),
                b == 8388608,
                k % b >= 0,
        ;
    }
}

/// A rounded amount differs from the exact one by a 2^24th of itself and half a unit at most.
pub proof fn lemma_rounding_error(n: nat, d: nat)
    requires
        d > 0,
        rounded(n, d) < INFINITE_INDEX,
    ensures
        ({
            let m = magnitude(rounded(n, d));
            &&& 16777216 * (m * d - n) <= (m + 8388608) * d
            &&& 16777216 * (n - m * d) <= (m + 8388608) * d
        }),
{
    let k = rounded(n, d);
    let m = magnitude(k);
    lemma_rounding_exists(n, d);
    lemma_gap(k);
    let above = magnitude(k + 1);
    assert(16777216 * (n - m * d) <= (m + 8388608) * d) by (nonlinear_arith)
        requires
            2 * n <= (m + above) * d,
            8388608 * (above - m) <= m + 8388608,
            d > 0,
    ;
    if k > 0 {
        let below = magnitude((k - 1) as nat);
        lemma_gap((k - 1) as nat);
        lemma_magnitude_step((k - 1) as nat);
        assert(16777216 * (m * d - n) <= (m + 8388608) * d) by (nonlinear_arith)
            requires
                2 * n >= (below + m) * d,
                8388608 * (m - below) <= below + 8388608,
                below < m,
                d > 0,
        ;
    } else {
        assert(m * d == 0) by (nonlinear_arith)
            requires
                m == 0,
        ;
        assert((m + 8388608) * d >= 0) by (nonlinear_arith)
            requires
                d > 0,
        ;
    }
}

/// The size of a real number.
pub open spec fn length(x: real) -> real {
    if x < 0real {
        -x
    } else {
        x
    }
}

/// The first number is the second one rounded.
pub open spec fn near(rounded: real, exact: real) -> bool {
    &&& rounded - exact <= eps() * length(rounded) + tiny()
    &&& exact - rounded <= eps() * length(rounded) + tiny()
}

/// There are many units in one.
pub proof fn lemma_scale()
    ensures
        scale() > 0real,
        tiny() > 0real,
        tiny() <= 1real / 18446744073709551616real,
{
    lemma2_to64();
    lemma_pow2_increases(64, UNIT_SCALE as nat);
    let w = scale();
    assert(w >= 18446744073709551616real);
    assert(0real < 1real / (2real * w) <= 1real / 18446744073709551616real) by (nonlinear_arith)
        requires
            w >= 18446744073709551616real,
    ;
}

/// A finite number and its size.
pub proof fn lemma_exact(x: Binary32)
    ensures
        x.size() >= 0real,
        x.exact() == (if x.negative() {
            -x.size()
        } else {
            x.size()
        }),
        length(x.exact()) == x.size(),
        x.is_zero() ==> x.size() == 0real,
        !x.is_zero() ==> x.size() >= 2real * tiny(),
{
    lemma_scale();
    lemma_units_positive(x);
    let n = x.units() as real;
    let w = scale();
    assert(n / w >= 0real) by (nonlinear_arith)
        requires
            n >= 0real,
            w > 0real,
    ;
    assert((-n) / w == -(n / w)) by (nonlinear_arith)
        requires
            w > 0real,
    ;
    if x.is_zero() {
        assert(n / w == 0real) by (nonlinear_arith)
            requires
                n == 0real,
                w > 0real,
        ;
    } else {
        assert(n / w >= 2real * (1real / (2real * w))) by (nonlinear_arith)
            requires
                n >= 1real,
                w > 0real,
        ;
    }
}

/// Finite numbers are ordered as the real numbers that they are.
pub proof fn lemma_exact_order(a: Binary32, b: Binary32)
    requires
        a.is_finite(),
        b.is_finite(),
    ensures
        a < b <==> a.exact() < b.exact(),
        a <= b <==> a.exact() <= b.exact(),
{
    lemma_order_is_by_value(a, b);
    lemma_scale();
    let x = a.value() as real;
    let y = b.value() as real;
    let w = scale();
    assert((x < y <==> x / w < y / w) && (x <= y <==> x / w <= y / w)) by (nonlinear_arith)
        requires
            w > 0real,
    ;
}

/// One is one.
pub proof fn lemma_exact_one()
    ensures
        one().exact() == 1real,
        one().size() == 1real,
{
    lemma_units_of_one();
    lemma_scale();
    let w = scale();
    assert(w / w == 1real) by (nonlinear_arith)
        requires
            w > 0real,
    ;
}

/// An amount of `n / d` units, rounded.
proof fn lemma_amount(n: nat, d: nat, amount: real)
    requires
        d > 0,
        rounded(n, d) < INFINITE_INDEX,
        amount * (d as real * scale()) == n as real,
    ensures
        near(magnitude(rounded(n, d)) as real / scale(), amount),
        magnitude(rounded(n, d)) as real / scale() >= 0real,
{
    let m = magnitude(rounded(n, d));
    lemma_rounding_error(n, d);
    lemma_scale();
    lemma_whole_product_is_real(m as int, d as int);
    lemma_whole_product_is_real((m + 8388608) as int, d as int);
    let x = m as real;
    let y = d as real;
    let z = n as real;
    let w = scale();
    assert(x / w >= 0real) by (nonlinear_arith)
        requires
            x >= 0real,
            w > 0real,
    ;
    let e = 1real / 16777216real;
    let r = x / w;
    assert(r * w == x) by (nonlinear_arith)
        requires
            r == x / w,
            w > 0real,
    ;
    let h = 1real / (2real * w);
    assert(h * w == 1real / 2real) by (nonlinear_arith)
        requires
            h == 1real / (2real * w),
            w > 0real,
    ;
    assert(r - amount <= e * r + h) by (nonlinear_arith)
        requires
            16777216real * (x * y - z) <= (x + 8388608real) * y,
            amount * (y * w) == z,
            r * w == x,
            h * w == 1real / 2real,
            e == 1real / 16777216real,
            w > 0real,
            y > 0real,
    ;
    assert(amount - r <= e * r + h) by (nonlinear_arith)
        requires
            16777216real * (z - x * y) <= (x + 8388608real) * y,
            amount * (y * w) == z,
            r * w == x,
            h * w == 1real / 2real,
            e == 1real / 16777216real,
            w > 0real,
            y > 0real,
    ;
}

/// A product is the exact one, rounded.
pub proof fn lemma_product_error(a: Binary32, b: Binary32)
    requires
        a.is_finite(),
        b.is_finite(),
        (a * b).is_finite(),
    ensures
        near((a * b).size(), a.size() * b.size()),
        near((a * b).exact(), a.exact() * b.exact()),
{
    let n = a.units() * b.units();
    let d = pow2(UNIT_SCALE as nat);
    lemma_scale();
    lemma_whole_product_is_real(a.units() as int, b.units() as int);
    let x = a.units() as real;
    let y = b.units() as real;
    let w = scale();
    assert(((x / w) * (y / w)) * (w * w) == x * y) by (nonlinear_arith)
        requires
            w > 0real,
    ;
    lemma_rounding_exists(n, d);
    lemma_amount(n, d, a.size() * b.size());
    lemma_exact(a);
    lemma_exact(b);
    lemma_exact(a * b);
    lemma_signs(a.size(), b.size());
}

proof fn lemma_signs(x: real, y: real)
    ensures
        (-x) * y == -(x * y),
        x * (-y) == -(x * y),
        (-x) * (-y) == x * y,
{
    assert((-x) * y == -(x * y) && x * (-y) == -(x * y) && (-x) * (-y) == x * y)
        by (nonlinear_arith);
}

/// A quotient is the exact one, rounded.
pub proof fn lemma_quotient_error(a: Binary32, b: Binary32)
    requires
        a.is_finite(),
        b.is_finite(),
        !b.is_zero(),
        (a / b).is_finite(),
    ensures
        near((a / b).size(), a.size() / b.size()),
{
    let w = pow2(UNIT_SCALE as nat);
    let n = a.units() * w;
    let d = b.units();
    lemma_scale();
    lemma_units_positive(b);
    lemma_whole_product_is_real(a.units() as int, w as int);
    let x = a.units() as real;
    let y = b.units() as real;
    let s = scale();
    assert(((x / s) / (y / s)) * (y * s) == x * s) by (nonlinear_arith)
        requires
            s > 0real,
            y > 0real,
    ;
    lemma_rounding_exists(n, d);
    lemma_amount(n, d, a.size() / b.size());
}

/// A sum is the exact one, rounded.
pub proof fn lemma_sum_error(a: Binary32, b: Binary32)
    requires
        a.is_finite(),
        b.is_finite(),
        (a + b).is_finite(),
    ensures
        near((a + b).exact(), a.exact() + b.exact()),
{
    let v = a.value() + b.value();
    let n = (if v < 0 {
        -v
    } else {
        v
    }) as nat;
    lemma_scale();
    let x = a.value() as real;
    let y = b.value() as real;
    let w = scale();
    let z = n as real;
    assert(x / w + y / w == (x + y) / w) by (nonlinear_arith)
        requires
            w > 0real,
    ;
    assert((z / w) * (1real * w) == z) by (nonlinear_arith)
        requires
            w > 0real,
    ;
    assert((-z) / w == -(z / w)) by (nonlinear_arith)
        requires
            w > 0real,
    ;
    assert(z / w >= 0real) by (nonlinear_arith)
        requires
            z >= 0real,
            w > 0real,
    ;
    lemma_rounding_exists(n, 1);
    lemma_magnitude_rounds(0);
    lemma_amount(n, 1, z / w);
    lemma_exact(a + b);
    if v < 0 {
        assert(x + y == -z);
    } else {
        assert(x + y == z);
    }
}

/// The root of a finite number is finite, and its square is the number, up to one rounding of the root.
pub proof fn lemma_root_error(x: Binary32)
    requires
        x.is_finite(),
        x.is_zero() || !x.negative(),
    ensures
        x.root().is_finite(),
        x.root().negative() ==> x.root().is_zero(),
        !x.negative() ==> !x.root().negative(),
        ({
            let r = x.root().size();
            let high = r + eps() * r + tiny();
            let low = r - eps() * r - tiny();
            &&& x.size() <= high * high
            &&& low >= 0real ==> low * low <= x.size()
        }),
{
    lemma_scale();
    lemma_exact(x);
    let w = pow2(UNIT_SCALE as nat);
    if x.is_zero() {
        let high = eps() * 0real + tiny();
        assert(0real <= high * high) by (nonlinear_arith);
        lemma_exact(x.root());
    } else {
        let n = x.units() * w;
        lemma_root_exists(n);
        let k = rounded_root(n);
        lemma_root_is_finite(x);
        let m = magnitude(k);
        let above = magnitude(k + 1);
        lemma_gap(k);
        lemma_magnitude_step(k);
        lemma_whole_product_is_real(x.units() as int, w as int);
        lemma_whole_product_is_real((m + above) as int, (m + above) as int);
        let s = scale();
        let y = m as real;
        let z = above as real;
        let u = x.units() as real;
        let r = y / s;
        let t = 1real / (2real * s);
        let e = 1real / 16777216real;
        lemma_exact(x.root());
        lemma_ratio(y, s);
        lemma_ratio(u, s);
        lemma_ratio(1real, 2real * s);
        assert(4real * (u * s) <= (y + z) * (y + z));
        lemma_root_above(y, z, u, s, r, t, e);
        if k > 0 {
            let below = magnitude((k - 1) as nat);
            lemma_gap((k - 1) as nat);
            lemma_magnitude_step((k - 1) as nat);
            lemma_whole_product_is_real((below + m) as int, (below + m) as int);
            lemma_root_below(y, below as real, u, s, r, t, e);
        }
    }
}

/// A quotient times its divisor.
pub proof fn lemma_ratio(x: real, y: real)
    requires
        y > 0real,
    ensures
        (x / y) * y == x,
{
    assert((x / y) * y == x) by (nonlinear_arith)
        requires
            y > 0real,
    ;
}

proof fn lemma_root_above(y: real, z: real, u: real, s: real, r: real, t: real, e: real)
    requires
        s > 0real,
        y >= 0real,
        z >= y,
        8388608real * (z - y) <= y + 8388608real,
        4real * (u * s) <= (y + z) * (y + z),
        r * s == y,
        (u / s) * s == u,
        t * (2real * s) == 1real,
        e == 1real / 16777216real,
    ensures
        u / s <= (r + e * r + t) * (r + e * r + t),
{
    let high = r + e * r + t;
    assert(high * s == y + e * y + 1real / 2real) by (nonlinear_arith)
        requires
            high == r + e * r + t,
            r * s == y,
            t * (2real * s) == 1real,
    ;
    let h = y + e * y + 1real / 2real;
    assert(y + z <= 2real * h);
    assert(u * s <= h * h) by (nonlinear_arith)
        requires
            0real <= y + z <= 2real * h,
            4real * (u * s) <= (y + z) * (y + z),
    ;
    assert((u / s) * (s * s) <= (high * high) * (s * s)) by (nonlinear_arith)
        requires
            u * s <= h * h,
            high * s == h,
            (u / s) * s == u,
    ;
    let v = u / s;
    assert(v <= high * high) by (nonlinear_arith)
        requires
            v * (s * s) <= (high * high) * (s * s),
            s > 0real,
    ;
}

proof fn lemma_root_below(y: real, z: real, u: real, s: real, r: real, t: real, e: real)
    requires
        s > 0real,
        z >= 0real,
        z <= y,
        8388608real * (y - z) <= z + 8388608real,
        (z + y) * (z + y) <= 4real * (u * s),
        r * s == y,
        (u / s) * s == u,
        t * (2real * s) == 1real,
        e == 1real / 16777216real,
    ensures
        r - e * r - t >= 0real ==> (r - e * r - t) * (r - e * r - t) <= u / s,
{
    let low = r - e * r - t;
    if low >= 0real {
        assert(low * s == y - e * y - 1real / 2real) by (nonlinear_arith)
            requires
                low == r - e * r - t,
                r * s == y,
                t * (2real * s) == 1real,
        ;
        let h = y - e * y - 1real / 2real;
        assert(h >= 0real) by (nonlinear_arith)
            requires
                h == low * s,
                low >= 0real,
                s > 0real,
        ;
        assert(2real * h <= z + y);
        assert(h * h <= u * s) by (nonlinear_arith)
            requires
                0real <= 2real * h <= z + y,
                (z + y) * (z + y) <= 4real * (u * s),
        ;
        let v = u / s;
        assert((low * low) * (s * s) <= v * (s * s)) by (nonlinear_arith)
            requires
                h * h <= u * s,
                low * s == h,
                v * s == u,
        ;
        assert(low * low <= v) by (nonlinear_arith)
            requires
                (low * low) * (s * s) <= v * (s * s),
                s > 0real,
        ;
    }
}

/// The root of a finite number does not overflow.
proof fn lemma_root_is_finite(x: Binary32)
    requires
        x.is_finite(),
        !x.is_zero(),
    ensures
        rounded_root(x.units() * pow2(UNIT_SCALE as nat)) < INFINITE_INDEX,
{
    let w = pow2(UNIT_SCALE as nat);
    let n = x.units() * w;
    lemma_root_exists(n);
    let k = rounded_root(n);
    if k == INFINITE_INDEX {
        let top = magnitude(INFINITE_INDEX as nat);
        let mid = magnitude((k - 1) as nat) + top;
        lemma_magnitude_order(x.index(), (INFINITE_INDEX - 1) as nat);
        lemma_magnitude_step((INFINITE_INDEX - 1) as nat);
        lemma_units_of_one();
        lemma_magnitude_step(ONE_BITS as nat);
        lemma_magnitude_order((ONE_BITS + 1) as nat, (INFINITE_INDEX - 1) as nat);
        lemma_four_ones();
        assert(mid * mid > 4 * n) by (nonlinear_arith)
            requires
                n == x.units() * w,
                x.units() < top,
                mid >= top,
                top > 4 * w,
                w > 0,
        ;
    }
}

/// Four is far from infinite.
proof fn lemma_four_ones()
    ensures
        magnitude(INFINITE_INDEX as nat) > 4 * pow2(UNIT_SCALE as nat),
        pow2(UNIT_SCALE as nat) > 0,
{
    lemma_pow2_pos(UNIT_SCALE as nat);
    lemma2_to64();
    lemma_whole_number(0x4080_0000, 4, 21);
    lemma_magnitude_increases(0x4080_0000, INFINITE_INDEX as nat);
}

/// The largest finite number is far below one over the least.
pub proof fn lemma_finite_size(x: Binary32)
    requires
        x.is_finite(),
    ensures
        x.size() * tiny() <= 4real * eps(),
{
    let w = pow2(UNIT_SCALE as nat);
    let b = BINADE as nat;
    let top = magnitude(INFINITE_INDEX as nat);
    lemma2_to64();
    lemma_scale();
    lemma_magnitude_increases(x.index(), INFINITE_INDEX as nat);
    assert(top == b * pow2(254));
    lemma_pow2_adds(23, 254);
    lemma_pow2_adds(277, 21);
    lemma_pow2_adds(UNIT_SCALE as nat, UNIT_SCALE as nat);
    assert(top * 2097152 == w * w);
    lemma_whole_product_is_real(w as int, w as int);
    let n = x.units() as real;
    let s = scale();
    assert(n * 2097152real <= s * s);
    let q = n / s;
    let t = 1real / (2real * s);
    lemma_ratio(n, s);
    lemma_ratio(1real, 2real * s);
    assert(q * t <= 4real * (1real / 16777216real)) by (nonlinear_arith)
        requires
            n * 2097152real <= s * s,
            q * s == n,
            t * (2real * s) == 1real,
            s > 0real,
    ;
}

/// Whole numbers are the same numbers among the reals.
pub proof fn lemma_whole_product_is_real(a: int, b: int)
    ensures
        (a * b) as real == a as real * b as real,
{
    assert((a * b) as real == a as real * b as real) by (nonlinear_arith);
}

} // verus!
