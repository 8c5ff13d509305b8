//! Rounded results that do not overflow, and how small the least number is.

use crate::binary32::arithmetic::UNIT_SCALE;
use crate::binary32::encoding::{magnitude, Binary32, INFINITE_INDEX};
use crate::binary32::error::{
    eps, lemma_exact, lemma_product_error, lemma_ratio, lemma_scale, lemma_whole_product_is_real,
    scale, tiny,
};
use crate::binary32::functions::TWO_BITS;
use crate::binary32::laws::{
    lemma_magnitude_order, lemma_negation, lemma_rounding_exists, lemma_whole_number,
};
use crate::binary32::rounding::{lemma_pow2_increases, rounded};
use crate::bounds::{lemma_near, lemma_product_of_sizes};
use vstd::arithmetic::power2::{lemma2_to64, lemma_pow2_adds, lemma_pow2_pos, pow2};
use vstd::prelude::*;

verus! {

/// A least number is small beside the square of one rounding.
pub proof fn lemma_small()
    ensures
        0real < tiny() <= eps() * eps(),
        eps() == 1real / 16777216real,
{
    lemma_scale();
    let e = eps();
    assert(1real / 18446744073709551616real <= e * e) by (nonlinear_arith)
        requires
            e == 1real / 16777216real,
    ;
}

/// The square of a number is a number that is not below zero, and infinite where the number is.
pub proof fn lemma_square_is_a_number(u: Binary32)
    requires
        !u.is_nan(),
    ensures
        !(u * u).is_nan(),
        !(u * u).negative(),
        (u * u).is_finite() ==> u.is_finite(),
{
    lemma_rounding_exists(u.units() * u.units(), pow2(UNIT_SCALE as nat));
}

/// The sum of two such numbers is one, and infinite where one of them is.
pub proof fn lemma_sum_of_squares(p: Binary32, q: Binary32)
    requires
        !p.is_nan(),
        !p.negative(),
        !q.is_nan(),
        !q.negative(),
    ensures
        !(p + q).is_nan(),
        !(p + q).negative(),
        (p + q).is_finite() ==> p.is_finite() && q.is_finite(),
{
    if p.is_finite() && q.is_finite() {
        lemma_rounding_exists((p.value() + q.value()) as nat, 1);
    }
}

pub proof fn lemma_negated(x: Binary32)
    ensures
        (-x).exact() == -x.exact(),
        (-x).is_finite() == x.is_finite(),
{
    lemma_negation(x);
    lemma_exact(x);
    lemma_exact(-x);
}

/// A product of about one does not overflow.
pub proof fn lemma_modest_product(x: Binary32, r: Binary32)
    requires
        x.is_finite(),
        r.is_finite(),
        x.size() * r.size() <= 3real / 2real,
    ensures
        (x * r).is_finite(),
        (x * r).size() <= x.size() * r.size() + 2real * eps() * (x.size() * r.size()) + 2real
            * tiny(),
        (x * r).size() >= 0real,
{
    let w = pow2(UNIT_SCALE as nat);
    let n = x.units() * r.units();
    lemma_small();
    lemma_scale();
    lemma_exact(x);
    lemma_exact(r);
    lemma_pow2_pos(UNIT_SCALE as nat);
    lemma_rounding_exists(n, w);
    if !(x * r).is_finite() {
        let k = rounded(n, w);
        assert(k == INFINITE_INDEX);
        lemma_far_from_infinite();
        let top = magnitude((INFINITE_INDEX - 1) as nat);
        let next = magnitude(INFINITE_INDEX as nat);
        assert((top + next) * w >= 4 * (w * w)) by (nonlinear_arith)
            requires
                top >= 2 * w,
                next >= 2 * w,
        ;
        lemma_product_in_units(x.units(), r.units(), w);
    }
    lemma_product_error(x, r);
    lemma_exact(x * r);
    lemma_near((x * r).size(), x.size() * r.size());
    lemma_product_of_sizes(x.size(), r.size());
}

/// Two is far from infinite.
pub proof fn lemma_far_from_infinite()
    ensures
        magnitude((INFINITE_INDEX - 1) as nat) >= 2 * pow2(UNIT_SCALE as nat),
        magnitude(INFINITE_INDEX as nat) >= 2 * pow2(UNIT_SCALE as nat),
{
    lemma2_to64();
    lemma_whole_number(TWO_BITS as nat, 2, 22);
    lemma_magnitude_order(TWO_BITS as nat, (INFINITE_INDEX - 1) as nat);
    lemma_magnitude_order(TWO_BITS as nat, INFINITE_INDEX as nat);
}

pub proof fn lemma_product_in_units(x: nat, y: nat, w: nat)
    requires
        x * y >= 2 * (w * w),
        w > 0,
    ensures
        (x as real / w as real) * (y as real / w as real) >= 2real,
{
    lemma_whole_product_is_real(x as int, y as int);
    lemma_whole_product_is_real(w as int, w as int);
    let a = x as real;
    let b = y as real;
    let s = w as real;
    let p = a / s;
    let q = b / s;
    lemma_ratio(a, s);
    lemma_ratio(b, s);
    let m = p * q;
    let ss = s * s;
    assert((p * s) * (q * s) == (p * q) * (s * s)) by (nonlinear_arith);
    assert(m * ss >= 2real * ss);
    assert(ss > 0real) by (nonlinear_arith)
        requires
            ss == s * s,
            s > 0real,
    ;
    assert(m >= 2real) by (nonlinear_arith)
        requires
            m * ss >= 2real * ss,
            ss > 0real,
    ;
}

/// A least number is small beside the cube of one rounding.
pub proof fn lemma_tinier()
    ensures
        tiny() <= eps() * eps() * eps(),
{
    lemma2_to64();
    lemma_pow2_adds(64, 64);
    lemma_pow2_increases(128, UNIT_SCALE as nat);
    let w = scale();
    assert(w >= 18446744073709551616real * 18446744073709551616real);
    let e = eps();
    assert(1real / (2real * w) <= e * e * e) by (nonlinear_arith)
        requires
            w >= 18446744073709551616real * 18446744073709551616real,
            e == 1real / 16777216real,
    ;
}

} // verus!
