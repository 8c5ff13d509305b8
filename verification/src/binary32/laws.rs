//! Laws of the arithmetic that the game's own laws rest on.

use crate::binary32::arithmetic::UNIT_SCALE;
use crate::binary32::encoding::{
    lemma_magnitude_increases, lemma_magnitude_step, magnitude, pattern, Binary32, BINADE,
    INFINITE_INDEX,
};
use crate::binary32::functions::{one, zero, ONE_BITS};
use crate::binary32::quotient::{lemma_magnitude_rounds, lemma_remainder, lemma_units_positive};
use crate::binary32::root::{lemma_rounded_root, root_rounds_to, rounded_root};
use crate::binary32::rounding::{lemma_rounded, rounded, rounds_to};
use vstd::arithmetic::power2::{lemma_pow2_adds, lemma_pow2_pos, lemma_pow2_unfold, pow2};
use vstd::prelude::*;

verus! {

/// Magnitudes are ordered as their indices are.
pub proof fn lemma_magnitude_order(i: nat, j: nat)
    ensures
        i <= j <==> magnitude(i) <= magnitude(j),
{
    if i < j {
        lemma_magnitude_increases(i, j);
    } else if j < i {
        lemma_magnitude_increases(j, i);
    }
}

/// Finite numbers are ordered by value.
pub proof fn lemma_order_is_by_value(a: Binary32, b: Binary32)
    requires
        a.is_finite(),
        b.is_finite(),
    ensures
        a < b <==> a.value() < b.value(),
        a <= b <==> a.value() <= b.value(),
        a.same_value(b) <==> a.value() == b.value(),
{
    lemma_magnitude_order(a.index(), b.index());
    lemma_magnitude_order(b.index(), a.index());
    lemma_magnitude_order(0, a.index());
    lemma_magnitude_order(0, b.index());
    lemma_magnitude_order(a.index(), 0);
    lemma_magnitude_order(b.index(), 0);
}

proof fn lemma_rounding_exists_below(numerator: nat, denominator: nat, k: nat)
    requires
        k <= INFINITE_INDEX,
        k < INFINITE_INDEX ==> {
            let twice_mid = (magnitude(k) + magnitude(k + 1)) * denominator;
            2 * numerator < twice_mid || (2 * numerator == twice_mid && k % 2 == 0)
        },
    ensures
        exists|i: nat| rounds_to(numerator, denominator, i),
    decreases k,
{
    if k == 0 {
        assert(rounds_to(numerator, denominator, 0));
    } else {
        let twice_mid = (magnitude((k - 1) as nat) + magnitude(k)) * denominator;
        if twice_mid < 2 * numerator || (twice_mid == 2 * numerator && k % 2 == 0) {
            assert(rounds_to(numerator, denominator, k));
        } else {
            lemma_rounding_exists_below(numerator, denominator, (k - 1) as nat);
        }
    }
}

/// Every amount rounds to some index.
pub proof fn lemma_rounding_exists(numerator: nat, denominator: nat)
    ensures
        rounds_to(numerator, denominator, rounded(numerator, denominator)),
        rounded(numerator, denominator) <= INFINITE_INDEX,
{
    lemma_rounding_exists_below(numerator, denominator, INFINITE_INDEX as nat);
}

/// A larger amount never rounds to a smaller index.
pub proof fn lemma_rounding_is_monotone(n1: nat, n2: nat, denominator: nat)
    requires
        denominator > 0,
        n1 <= n2,
    ensures
        rounded(n1, denominator) <= rounded(n2, denominator),
{
    let i = rounded(n1, denominator);
    let j = rounded(n2, denominator);
    lemma_rounding_exists(n1, denominator);
    lemma_rounding_exists(n2, denominator);
    if j < i {
        let above = magnitude(j) + magnitude(j + 1);
        let below = magnitude((i - 1) as nat) + magnitude(i);
        lemma_magnitude_order(j, (i - 1) as nat);
        lemma_magnitude_order(j + 1, i);
        assert(above * denominator <= below * denominator) by (nonlinear_arith)
            requires
                above <= below,
        ;
        assert(below * denominator == 2 * n1 && above * denominator == 2 * n2);
        assert(above == below) by (nonlinear_arith)
            requires
                above * denominator == below * denominator,
                denominator > 0,
        ;
        assert(j == i - 1) by {
            if j < i - 1 {
                lemma_magnitude_increases(j, (i - 1) as nat);
            }
        }
    }
}

/// A whole multiple of the denominator that is a magnitude rounds to that magnitude.
pub proof fn lemma_exact_amount_rounds(k: nat, denominator: nat)
    requires
        k < INFINITE_INDEX,
        denominator > 0,
    ensures
        rounded(magnitude(k) * denominator, denominator) == k,
{
    let n = magnitude(k) * denominator;
    if k > 0 {
        lemma_magnitude_increases((k - 1) as nat, k);
        let mid = magnitude((k - 1) as nat) + magnitude(k);
        assert(mid * denominator < 2 * n) by (nonlinear_arith)
            requires
                mid < 2 * magnitude(k),
                n == magnitude(k) * denominator,
                denominator > 0,
        ;
    }
    lemma_magnitude_increases(k, k + 1);
    let mid = magnitude(k) + magnitude(k + 1);
    assert(2 * n < mid * denominator) by (nonlinear_arith)
        requires
            mid > 2 * magnitude(k),
            n == magnitude(k) * denominator,
            denominator > 0,
    ;
    assert(rounds_to(n, denominator, k));
    lemma_rounded(n, denominator, k);
}

/// One is `2^UNIT_SCALE` units.
pub proof fn lemma_units_of_one()
    ensures
        one().units() == pow2(UNIT_SCALE as nat),
        magnitude(ONE_BITS as nat) == pow2(UNIT_SCALE as nat),
{
    let b = BINADE as nat;
    assert(ONE_BITS as nat % b == 0 && ONE_BITS as nat / b == 127) by (nonlinear_arith)
        requires
            b == 0x80_0000,
    ;
    vstd::arithmetic::power2::lemma2_to64();
    lemma_pow2_adds(23, 126);
}

/// Multiplying by one changes nothing.
pub proof fn lemma_one_is_neutral(a: Binary32)
    requires
        a.is_finite(),
    ensures
        a * one() == a,
        one() * a == a,
{
    lemma_units_of_one();
    lemma_pow2_pos(UNIT_SCALE as nat);
    lemma_exact_amount_rounds(a.index(), pow2(UNIT_SCALE as nat));
    assert(a.units() * one().units() == one().units() * a.units()) by (nonlinear_arith);
}

/// The numbers from zero to one.
pub open spec fn in_unit_range(x: Binary32) -> bool {
    zero() <= x && x <= one()
}

/// A number from zero to one has at most the units of one.
pub proof fn lemma_unit_range_units(x: Binary32)
    requires
        in_unit_range(x),
    ensures
        x.is_finite(),
        x.units() <= pow2(UNIT_SCALE as nat),
        x.negative() ==> x.is_zero(),
{
    lemma_units_of_one();
    lemma_magnitude_order(x.index(), ONE_BITS as nat);
}

/// A finite number that is not below zero, scaled by a number from zero to one, does not grow and
/// does not fall below zero; and the product grows with both.
pub proof fn lemma_scaled_down(a: Binary32, b: Binary32, c: Binary32, d: Binary32)
    requires
        at_least_zero(a),
        in_unit_range(b),
        c.is_finite(),
        in_unit_range(d),
        a <= c,
        b <= d,
    ensures
        at_least_zero(a * b),
        a * b <= a,
        a * b <= c * d,
{
    let w = pow2(UNIT_SCALE as nat);
    lemma_units_of_one();
    lemma_pow2_pos(UNIT_SCALE as nat);
    lemma_unit_range_units(b);
    lemma_unit_range_units(d);
    lemma_magnitude_order(a.index(), c.index());
    lemma_magnitude_order(b.index(), d.index());
    let n1 = a.units() * b.units();
    let n2 = c.units() * d.units();
    assert(n1 <= n2) by (nonlinear_arith)
        requires
            n1 == a.units() * b.units(),
            n2 == c.units() * d.units(),
            a.units() <= c.units(),
            b.units() <= d.units(),
    ;
    assert(n1 <= a.units() * w) by (nonlinear_arith)
        requires
            n1 == a.units() * b.units(),
            b.units() <= w,
    ;
    assert(n2 <= c.units() * w) by (nonlinear_arith)
        requires
            n2 == c.units() * d.units(),
            d.units() <= w,
    ;
    lemma_rounding_is_monotone(n1, n2, w);
    lemma_rounding_is_monotone(n1, a.units() * w, w);
    lemma_rounding_is_monotone(n2, c.units() * w, w);
    lemma_exact_amount_rounds(a.index(), w);
    lemma_exact_amount_rounds(c.index(), w);
    lemma_signed_product(a, b);
    lemma_signed_product(c, d);
}

/// A product of two numbers that are not below zero is negative by its sign at most, not by value.
proof fn lemma_signed_product(a: Binary32, b: Binary32)
    requires
        at_least_zero(a),
        at_least_zero(b),
        a.is_finite(),
        b.is_finite(),
    ensures
        (a * b).index() == rounded(a.units() * b.units(), pow2(UNIT_SCALE as nat)),
        (a * b).negative() ==> (a * b).is_zero(),
        !(a * b).is_nan(),
{
    let n = a.units() * b.units();
    let w = pow2(UNIT_SCALE as nat);
    lemma_pow2_pos(UNIT_SCALE as nat);
    lemma_rounding_exists(n, w);
    if a.negative() != b.negative() {
        assert(n == 0) by (nonlinear_arith)
            requires
                n == a.units() * b.units(),
                a.units() == 0 || b.units() == 0,
        ;
        lemma_exact_amount_rounds(0, w);
        assert(magnitude(0) * w == 0) by (nonlinear_arith)
            requires
                magnitude(0) == 0,
        ;
    }
}

/// The numbers that are not below zero, infinity among them.
pub open spec fn at_least_zero(x: Binary32) -> bool {
    zero() <= x
}

/// The place of a sum of two numbers that are not below zero.
proof fn lemma_sum_rank(a: Binary32, b: Binary32)
    requires
        at_least_zero(a),
        at_least_zero(b),
    ensures
        at_least_zero(a + b),
        a.is_infinite() || b.is_infinite() ==> (a + b).rank() == INFINITE_INDEX,
        a.is_finite() && b.is_finite() ==> (a + b).rank() == rounded(a.units() + b.units(), 1),
{
    lemma_magnitude_order(0, a.index());
    lemma_magnitude_order(0, b.index());
    if a.is_finite() && b.is_finite() {
        let n = a.units() + b.units();
        lemma_rounding_exists(n, 1);
        assert(a.value() == a.units());
        assert(b.value() == b.units());
        if n == 0 {
            lemma_magnitude_rounds(0);
        }
    }
}

/// Sums of numbers that are not below zero grow with their terms.
pub proof fn lemma_sum_grows(a: Binary32, b: Binary32, c: Binary32, d: Binary32)
    requires
        at_least_zero(a),
        at_least_zero(b),
        a <= c,
        b <= d,
    ensures
        at_least_zero(a + b),
        at_least_zero(c + d),
        a + b <= c + d,
{
    lemma_sum_rank(a, b);
    lemma_sum_rank(c, d);
    if c.is_finite() && d.is_finite() {
        lemma_magnitude_order(a.index(), c.index());
        lemma_magnitude_order(b.index(), d.index());
        lemma_rounding_is_monotone(a.units() + b.units(), c.units() + d.units(), 1);
    } else {
        if a.is_finite() && b.is_finite() {
            lemma_rounding_exists(a.units() + b.units(), 1);
        }
    }
}

/// The place of the number that a whole number of units rounds to.
pub open spec fn rounded_rank(exact: int) -> int {
    if exact < 0 {
        -(rounded((-exact) as nat, 1) as int)
    } else {
        rounded(exact as nat, 1) as int
    }
}

/// A larger amount never rounds to a smaller number.
pub proof fn lemma_rounded_rank_is_monotone(low: int, high: int)
    requires
        low <= high,
    ensures
        rounded_rank(low) <= rounded_rank(high),
        -INFINITE_INDEX <= rounded_rank(low),
        rounded_rank(high) <= INFINITE_INDEX,
{
    if low < 0 {
        lemma_rounding_exists((-low) as nat, 1);
    } else {
        lemma_rounding_exists(low as nat, 1);
    }
    if high < 0 {
        lemma_rounding_exists((-high) as nat, 1);
        lemma_rounding_is_monotone((-high) as nat, (-low) as nat, 1);
    } else {
        lemma_rounding_exists(high as nat, 1);
        if low >= 0 {
            lemma_rounding_is_monotone(low as nat, high as nat, 1);
        }
    }
}

/// A finite number rounds to itself.
pub proof fn lemma_number_rounds_to_itself(x: Binary32)
    requires
        x.is_finite(),
    ensures
        rounded_rank(x.value()) == x.rank(),
{
    lemma_magnitude_rounds(x.index());
    lemma_units_positive(x);
    lemma_magnitude_rounds(0);
}

/// The opposite of a finite number.
pub proof fn lemma_negation(x: Binary32)
    ensures
        (-x).index() == x.index(),
        (-x).is_nan() == x.is_nan(),
        (-x).is_finite() == x.is_finite(),
        (-x).value() == -x.value(),
        (-x).rank() == -x.rank(),
        -(-x) == x,
{
}

/// The place of a sum of finite numbers.
pub proof fn lemma_sum(a: Binary32, b: Binary32)
    requires
        a.is_finite(),
        b.is_finite(),
    ensures
        !(a + b).is_nan(),
        (a + b).rank() == rounded_rank(a.value() + b.value()),
{
    let exact = a.value() + b.value();
    lemma_magnitude_rounds(0);
    if exact < 0 {
        lemma_rounding_exists((-exact) as nat, 1);
    } else {
        lemma_rounding_exists(exact as nat, 1);
    }
}

/// Sums of finite numbers grow with their terms.
pub proof fn lemma_sum_is_monotone(a: Binary32, b: Binary32, c: Binary32, d: Binary32)
    requires
        a.is_finite(),
        b.is_finite(),
        c.is_finite(),
        d.is_finite(),
        a <= c,
        b <= d,
    ensures
        a + b <= c + d,
{
    lemma_sum(a, b);
    lemma_sum(c, d);
    lemma_order_is_by_value(a, c);
    lemma_order_is_by_value(b, d);
    lemma_rounded_rank_is_monotone(a.value() + b.value(), c.value() + d.value());
}

/// Adding nothing changes nothing.
pub proof fn lemma_adding_zero(a: Binary32, b: Binary32)
    requires
        a.is_finite(),
        b.is_zero(),
    ensures
        (a + b).same_value(a),
        (b + a).same_value(a),
        (a - b).same_value(a),
        !a.is_zero() ==> a + b == a,
        (a + b).is_finite(),
{
    lemma_sum(a, b);
    lemma_sum(b, a);
    lemma_negation(b);
    lemma_sum(a, -b);
    lemma_number_rounds_to_itself(a);
}

/// A finite number less itself is zero.
pub proof fn lemma_difference_with_itself(a: Binary32)
    requires
        a.is_finite(),
    ensures
        a - a == zero(),
{
    lemma_negation(a);
}

/// Equal finite numbers differ by zero.
pub proof fn lemma_difference_of_equals(a: Binary32, b: Binary32)
    requires
        a.is_finite(),
        b.is_finite(),
        a.same_value(b),
        !(a.is_zero() && a.negative() && !b.negative()),
    ensures
        a - b == zero(),
{
    lemma_negation(b);
}

/// Nothing of a finite number is nothing.
pub proof fn lemma_zero_product(a: Binary32, b: Binary32)
    requires
        a.is_finite(),
        b.is_zero(),
    ensures
        (a * b).is_zero(),
        (b * a).is_zero(),
{
    let w = pow2(UNIT_SCALE as nat);
    lemma_pow2_pos(UNIT_SCALE as nat);
    lemma_exact_amount_rounds(0, w);
    assert(magnitude(0) * w == 0) by (nonlinear_arith)
        requires
            magnitude(0) == 0,
    ;
    assert(a.units() * b.units() == 0 && b.units() * a.units() == 0) by (nonlinear_arith)
        requires
            b.units() == 0,
    ;
}

/// Two numbers whose sum rounds to a number between two finite bounds.
pub proof fn lemma_sum_within(a: Binary32, b: Binary32, low: Binary32, high: Binary32)
    requires
        a.is_finite(),
        b.is_finite(),
        low.is_finite(),
        high.is_finite(),
        low.value() <= a.value() + b.value() <= high.value(),
    ensures
        low <= a + b,
        a + b <= high,
        (a + b).is_finite(),
{
    lemma_sum(a, b);
    lemma_number_rounds_to_itself(low);
    lemma_number_rounds_to_itself(high);
    lemma_rounded_rank_is_monotone(low.value(), a.value() + b.value());
    lemma_rounded_rank_is_monotone(a.value() + b.value(), high.value());
}

/// A zero divided by anything is a zero or not a number.
pub proof fn lemma_zero_quotient(a: Binary32, b: Binary32)
    requires
        a.is_zero(),
    ensures
        (a / b).is_zero() || (a / b).is_nan(),
{
    if b.is_finite() && !b.is_zero() {
        lemma_units_positive(b);
        lemma_exact_amount_rounds(0, b.units());
        assert(magnitude(0) * b.units() == 0) by (nonlinear_arith)
            requires
                magnitude(0) == 0,
        ;
        assert(a.units() * pow2(UNIT_SCALE as nat) == 0) by (nonlinear_arith)
            requires
                a.units() == 0,
        ;
    }
}

/// Nothing rounds a difference away: a larger number less a smaller one is positive.
pub proof fn lemma_larger_minus_smaller(a: Binary32, b: Binary32)
    requires
        a.is_finite(),
        b.is_finite(),
        b < a,
    ensures
        a - b > zero(),
{
    lemma_order_is_by_value(b, a);
    lemma_negation(b);
    lemma_sum(a, -b);
    lemma_magnitude_rounds(1);
    assert(rounded_rank(1) == 1);
    lemma_rounded_rank_is_monotone(1, a.value() - b.value());
}

/// Products of finite numbers that are not below zero grow with their factors.
pub proof fn lemma_product_grows(a: Binary32, b: Binary32, c: Binary32, d: Binary32)
    requires
        at_least_zero(a),
        at_least_zero(b),
        c.is_finite(),
        d.is_finite(),
        a <= c,
        b <= d,
    ensures
        at_least_zero(a * b),
        a * b <= c * d,
{
    let w = pow2(UNIT_SCALE as nat);
    lemma_pow2_pos(UNIT_SCALE as nat);
    lemma_magnitude_order(a.index(), c.index());
    lemma_magnitude_order(b.index(), d.index());
    let n1 = a.units() * b.units();
    let n2 = c.units() * d.units();
    assert(n1 <= n2) by (nonlinear_arith)
        requires
            n1 == a.units() * b.units(),
            n2 == c.units() * d.units(),
            a.units() <= c.units(),
            b.units() <= d.units(),
    ;
    lemma_rounding_is_monotone(n1, n2, w);
    lemma_signed_product(a, b);
    lemma_signed_product(c, d);
}

/// Quotients by a positive finite number grow with the dividend.
pub proof fn lemma_quotient_grows(a: Binary32, c: Binary32, d: Binary32)
    requires
        at_least_zero(a),
        c.is_finite(),
        a <= c,
        d > zero(),
        d.is_finite(),
    ensures
        at_least_zero(a / d),
        a / d <= c / d,
{
    let w = pow2(UNIT_SCALE as nat);
    lemma_units_positive(d);
    lemma_magnitude_order(a.index(), c.index());
    let n1 = a.units() * w;
    let n2 = c.units() * w;
    assert(n1 <= n2) by (nonlinear_arith)
        requires
            n1 == a.units() * w,
            n2 == c.units() * w,
            a.units() <= c.units(),
    ;
    lemma_rounding_exists(n1, d.units());
    lemma_rounding_exists(n2, d.units());
    lemma_rounding_is_monotone(n1, n2, d.units());
    if a.is_zero() {
        lemma_zero_quotient(a, d);
    }
    if c.is_zero() {
        lemma_zero_quotient(c, d);
    }
}

/// The number with index `k` is the whole number `n`, where `k` holds it as `n` shifted by `shift`.
pub proof fn lemma_whole_number(k: nat, n: nat, shift: nat)
    requires
        BINADE <= k < INFINITE_INDEX,
        shift <= 23,
        k / (BINADE as nat) + shift == UNIT_SCALE + 1,
        (BINADE + k % (BINADE as nat)) as nat == n * pow2(shift),
    ensures
        magnitude(k) == n * pow2(UNIT_SCALE as nat),
{
    let e = (k / (BINADE as nat) - 1) as nat;
    lemma_pow2_adds(shift, e);
    assert((n * pow2(shift)) * pow2(e) == n * (pow2(shift) * pow2(e))) by (nonlinear_arith);
}

/// A product of whole numbers that is a number itself is exact.
pub proof fn lemma_whole_product(a: Binary32, b: Binary32, m: nat, n: nat, k: nat)
    requires
        a.is_finite(),
        b.is_finite(),
        !a.negative(),
        !b.negative(),
        a.units() == m * pow2(UNIT_SCALE as nat),
        b.units() == n * pow2(UNIT_SCALE as nat),
        k < INFINITE_INDEX,
        magnitude(k) == (m * n) * pow2(UNIT_SCALE as nat),
    ensures
        a * b == pattern(false, k),
{
    let w = pow2(UNIT_SCALE as nat);
    lemma_pow2_pos(UNIT_SCALE as nat);
    assert((m * w) * (n * w) == ((m * n) * w) * w) by (nonlinear_arith);
    lemma_exact_amount_rounds(k, w);
}

/// A number from zero to one and its rounded complement add up to one at most.
pub proof fn lemma_complement(z: Binary32)
    requires
        in_unit_range(z),
    ensures
        (one() - z).is_finite(),
        at_least_zero(one() - z),
        z + (one() - z) <= one(),
{
    let w = pow2(UNIT_SCALE as nat);
    lemma_units_of_one();
    lemma_unit_range_units(z);
    lemma_negation(z);
    lemma_sum(one(), -z);
    lemma_magnitude_rounds(0);
    lemma_magnitude_rounds(ONE_BITS as nat);
    let n = (w - z.value()) as nat;
    assert(z.value() == z.units());
    lemma_rounding_exists(n, 1);
    let k = rounded(n, 1);
    lemma_rounding_is_monotone(n, w, 1);
    assert(k <= ONE_BITS);
    let rest = one() - z;
    assert(rest.rank() == k);
    lemma_order_is_by_value(zero(), rest);
    assert(rest.value() == magnitude(k));
    lemma_sum(z, rest);
    let e = (z.value() + rest.value()) as nat;
    lemma_rounding_exists(e, 1);
    let j = rounded(e, 1);
    if k > 0 {
        lemma_step_below_one(k);
        if j > ONE_BITS {
            lemma_step_at_one();
            lemma_magnitude_order(ONE_BITS as nat, (j - 1) as nat);
            lemma_magnitude_order((ONE_BITS + 1) as nat, j);
            lemma_pow2_unfold(126);
            lemma_pow2_pos(125);
        }
    } else {
        lemma_number_rounds_to_itself(z);
        lemma_magnitude_order(j, ONE_BITS as nat);
    }
}

/// Neighbours up to one are at most a 2^24th apart.
proof fn lemma_step_below_one(k: nat)
    requires
        0 < k <= ONE_BITS,
    ensures
        magnitude(k) <= magnitude((k - 1) as nat) + pow2(125),
{
    let b = BINADE as nat;
    lemma_magnitude_step((k - 1) as nat);
    lemma_pow2_pos(125);
    if k - 1 >= b {
        let e = ((k - 1) as nat / b - 1) as nat;
        assert(e <= 125) by (nonlinear_arith)
            requires
                b == 0x80_0000,
                k - 1 < 0x3f80_0000,
                k >= 1,
                e == (k - 1) / (b as int) - 1,
        ;
        if e < 125 {
            vstd::arithmetic::power2::lemma_pow2_strictly_increases(e, 125);
        }
    }
}

/// The neighbour above one is a 2^23rd away.
proof fn lemma_step_at_one()
    ensures
        magnitude((ONE_BITS + 1) as nat) == magnitude(ONE_BITS as nat) + pow2(126),
{
    lemma_magnitude_step(ONE_BITS as nat);
    assert(ONE_BITS as nat / (BINADE as nat) - 1 == 126) by (nonlinear_arith);
}

/// The sign of a factor is the sign of the product.
pub proof fn lemma_opposite_product(a: Binary32, b: Binary32)
    requires
        a.is_finite(),
        b.is_finite(),
    ensures
        (-a) * b == -(a * b),
{
    lemma_negation(a);
    lemma_pow2_pos(UNIT_SCALE as nat);
    lemma_rounding_exists(a.units() * b.units(), pow2(UNIT_SCALE as nat));
}

proof fn lemma_root_exists_below(n: nat, k: nat)
    requires
        k <= INFINITE_INDEX,
        k < INFINITE_INDEX ==> {
            let twice_mid = magnitude(k) + magnitude(k + 1);
            4 * n < twice_mid * twice_mid || (4 * n == twice_mid * twice_mid && k % 2 == 0)
        },
    ensures
        exists|i: nat| root_rounds_to(n, i),
    decreases k,
{
    if k == 0 {
        assert(root_rounds_to(n, 0));
    } else {
        let twice_mid = magnitude((k - 1) as nat) + magnitude(k);
        let square = twice_mid * twice_mid;
        if square < 4 * n || (square == 4 * n && k % 2 == 0) {
            assert(root_rounds_to(n, k));
        } else {
            lemma_root_exists_below(n, (k - 1) as nat);
        }
    }
}

/// Every amount has a root that rounds to some index.
pub proof fn lemma_root_exists(n: nat)
    ensures
        root_rounds_to(n, rounded_root(n)),
{
    lemma_root_exists_below(n, INFINITE_INDEX as nat);
}

/// The root of a number above one is one or more.
pub proof fn lemma_root_above_one(x: Binary32)
    requires
        x > one(),
    ensures
        x.root() >= one(),
{
    if x.is_finite() {
        let w = pow2(UNIT_SCALE as nat);
        let n = x.units() * w;
        lemma_units_of_one();
        lemma_magnitude_order(ONE_BITS as nat, x.index());
        lemma_root_exists(n);
        let k = rounded_root(n);
        if k < ONE_BITS {
            let mid = magnitude(k) + magnitude(k + 1);
            lemma_magnitude_order(k, (ONE_BITS - 1) as nat);
            lemma_magnitude_order(k + 1, ONE_BITS as nat);
            lemma_magnitude_increases((ONE_BITS - 1) as nat, ONE_BITS as nat);
            assert(mid * mid < 4 * n) by (nonlinear_arith)
                requires
                    mid < 2 * w,
                    n == x.units() * w,
                    x.units() >= w,
            ;
        }
    }
}

/// A number that is not below zero, divided by one that is at least as large, is one at most.
pub proof fn lemma_share(a: Binary32, b: Binary32)
    requires
        at_least_zero(a),
        a <= b,
        a.is_finite(),
        b > zero(),
    ensures
        in_unit_range(a / b),
{
    if b.is_finite() {
        let w = pow2(UNIT_SCALE as nat);
        let n = a.units() * w;
        lemma_units_positive(b);
        lemma_units_of_one();
        lemma_pow2_pos(UNIT_SCALE as nat);
        lemma_magnitude_order(a.index(), b.index());
        assert(n <= w * b.units()) by (nonlinear_arith)
            requires
                n == a.units() * w,
                a.units() <= b.units(),
        ;
        lemma_rounding_is_monotone(n, w * b.units(), b.units());
        lemma_exact_amount_rounds(ONE_BITS as nat, b.units());
        if a.is_zero() {
            lemma_zero_quotient(a, b);
        }
    }
}

/// Scaling a finite number by a number from zero to one does not lengthen it.
pub proof fn lemma_scaling_never_lengthens(x: Binary32, s: Binary32)
    requires
        x.is_finite(),
        in_unit_range(s),
    ensures
        (x * s).is_finite(),
        (x * s).absolute() <= x.absolute(),
{
    lemma_unit_range_units(s);
    let size = x.absolute();
    lemma_scaled_down(size, s, size, s);
    if x.negative() {
        lemma_negation(x);
        lemma_opposite_product(size, s);
        assert(x == -size);
        lemma_negation(size * s);
    } else {
        assert(x == size);
    }
}

/// The opposites of two finite numbers add up to the opposite of their sum.
pub proof fn lemma_opposite_sum(a: Binary32, b: Binary32)
    requires
        a.is_finite(),
        b.is_finite(),
    ensures
        ((-a) + (-b)).same_value(-(a + b)),
{
    lemma_negation(a);
    lemma_negation(b);
    lemma_sum(a, b);
    lemma_sum(-a, -b);
    lemma_negation(a + b);
    lemma_magnitude_rounds(0);
}

/// Scaling by a finite number that is not below zero keeps the order.
pub proof fn lemma_scaling_keeps_order(c: Binary32, a: Binary32, b: Binary32)
    requires
        at_least_zero(c),
        c.is_finite(),
        a.is_finite(),
        b.is_finite(),
        a <= b,
    ensures
        c * a <= c * b,
{
    lemma_negation(a);
    lemma_negation(b);
    if at_least_zero(a) {
        lemma_product_grows(c, a, c, b);
    } else if at_least_zero(b) {
        lemma_product_grows(c, b, c, b);
        lemma_product_grows(-a, c, -a, c);
        lemma_opposite_product(-a, c);
        lemma_negation((-a) * c);
        lemma_product_commutes(a, c);
    } else {
        lemma_product_grows(-b, c, -a, c);
        lemma_opposite_product(-a, c);
        lemma_opposite_product(-b, c);
        lemma_negation((-a) * c);
        lemma_negation((-b) * c);
        lemma_product_commutes(a, c);
        lemma_product_commutes(b, c);
    }
}

/// The order of the factors does not matter.
pub proof fn lemma_product_commutes(a: Binary32, b: Binary32)
    requires
        a.is_finite(),
        b.is_finite(),
    ensures
        a * b == b * a,
{
    assert(a.units() * b.units() == b.units() * a.units()) by (nonlinear_arith);
}

/// The order of the terms does not matter.
pub proof fn lemma_sum_commutes(a: Binary32, b: Binary32)
    requires
        a.is_finite(),
        b.is_finite(),
    ensures
        a + b == b + a,
{
}

/// The root of one is one, and so is one divided by one.
pub proof fn lemma_root_of_one()
    ensures
        one().root() == one(),
        one() / one() == one(),
{
    let w = pow2(UNIT_SCALE as nat);
    let k = ONE_BITS as nat;
    lemma_units_of_one();
    lemma_pow2_pos(UNIT_SCALE as nat);
    lemma_exact_amount_rounds(k, w);
    lemma_magnitude_increases((k - 1) as nat, k);
    lemma_magnitude_increases(k, k + 1);
    let below = magnitude((k - 1) as nat) + w;
    let above = w + magnitude(k + 1);
    assert(below * below < 4 * (w * w)) by (nonlinear_arith)
        requires
            below < 2 * w,
    ;
    assert(4 * (w * w) < above * above) by (nonlinear_arith)
        requires
            2 * w < above,
    ;
    lemma_rounded_root(w * w, k);
}

/// The smaller and the larger of two numbers are those two numbers in order; a NaN gives way.
pub proof fn law_smaller_and_larger(a: Binary32, b: Binary32)
    ensures
        !a.is_nan() && !b.is_nan() ==> {
            &&& a.smaller(b) <= a
            &&& a.smaller(b) <= b
            &&& a <= a.larger(b)
            &&& b <= a.larger(b)
            &&& a.smaller(b) == a && a.larger(b).same_value(b) || a.smaller(b) == b && a.larger(
                b,
            ).same_value(a)
        },
        a.is_nan() ==> a.smaller(b) == b && a.larger(b) == b,
        b.is_nan() && !a.is_nan() ==> a.smaller(b) == a && a.larger(b) == a,
{
}

/// A number held between two bounds is itself where it lies between them, and the nearer bound where
/// it does not.
pub proof fn law_clamped_is_the_nearest(x: Binary32, low: Binary32, high: Binary32)
    requires
        low <= high,
    ensures
        x < low ==> x.clamped(low, high) == low,
        x > high ==> x.clamped(low, high) == high,
        low <= x && x <= high ==> x.clamped(low, high) == x,
        !x.is_nan() ==> low <= x.clamped(low, high) && x.clamped(low, high) <= high,
{
}

/// A number without its sign is not below zero and is the number or its opposite; the sign says which.
pub proof fn law_sign_and_size(x: Binary32)
    requires
        !x.is_nan(),
    ensures
        x.absolute() >= zero(),
        x >= zero() ==> x.absolute().same_value(x),
        x <= zero() ==> x.absolute().same_value(-x),
        (-x).absolute() == x.absolute(),
        x > zero() ==> x.sign() == one(),
        x < zero() ==> x.sign() == -one(),
        x.is_finite() ==> x.sign() * x.absolute() == x,
{
    lemma_negation(x);
    lemma_negation(one());
    if x.is_finite() {
        let size = x.absolute();
        lemma_one_is_neutral(size);
        lemma_opposite_product(one(), size);
        if x.negative() {
            assert(x.sign() == -one());
            assert(-size == x);
        } else {
            assert(x.sign() == one());
        }
    }
}

/// The nearest whole number lies no more than a half away, and on the same side of zero.
pub proof fn law_nearest_whole_is_near(x: Binary32)
    requires
        x.is_finite(),
    ensures
        ({
            let w = pow2(UNIT_SCALE as nat) as int;
            let n = x.nearest_whole();
            &&& !x.negative() ==> n >= 0 && (2 * n - 1) * w <= 2 * x.units() < (2 * n + 1) * w
            &&& x.negative() ==> n <= 0 && (-2 * n - 1) * w <= 2 * x.units() < (-2 * n + 1) * w
        }),
{
    let w = pow2(UNIT_SCALE as nat);
    lemma_pow2_unfold((UNIT_SCALE + 1) as nat);
    lemma_pow2_pos(UNIT_SCALE as nat);
    let top = 2 * x.units() + w;
    let whole = top / (2 * w);
    vstd::arithmetic::div_mod::lemma_fundamental_div_mod(top as int, (2 * w) as int);
    vstd::arithmetic::div_mod::lemma_mod_bound(top as int, (2 * w) as int);
    assert((2 * whole - 1) * w <= 2 * x.units() < (2 * whole + 1) * w) by (nonlinear_arith)
        requires
            top == 2 * x.units() + w,
            top == (2 * w) * whole + top % (2 * w),
            0 <= top % (2 * w) < 2 * w,
    ;
}

/// A remainder moved up is the remainder where that is not below zero, and one divisor more where it
/// is.
pub proof fn law_euclidean_remainder_is_not_negative(a: Binary32, b: Binary32)
    requires
        a.is_finite(),
        b.is_finite(),
        !b.is_zero(),
    ensures
        a.euclidean_remainder(b) >= zero(),
        a.euclidean_remainder(b) <= b.absolute(),
        a >= zero() ==> a.euclidean_remainder(b).units() == a.units() % b.units(),
{
    let r = a % b;
    lemma_remainder(a, b);
    lemma_units_positive(r);
    lemma_units_positive(b);
    lemma_units_positive(zero());
    lemma_order_is_by_value(r, zero());
    lemma_order_is_by_value(zero(), r);
    lemma_order_is_by_value(r, b.absolute());
    lemma_order_is_by_value(zero(), a);
    vstd::arithmetic::div_mod::lemma_small_mod(0, b.units());
    if r < zero() {
        lemma_sum_within(r, b.absolute(), zero(), b.absolute());
    }
}

/// A NaN goes through every operation.
pub proof fn law_nan_goes_through(a: Binary32, b: Binary32)
    requires
        a.is_nan(),
    ensures
        (a + b).is_nan() && (b + a).is_nan(),
        (a - b).is_nan() && (b - a).is_nan(),
        (a * b).is_nan() && (b * a).is_nan(),
        (a / b).is_nan() && (b / a).is_nan(),
        a.root().is_nan(),
{
    lemma_negation(a);
}

/// An infinite number swallows a finite one, and two that point apart have no sum; an infinite number
/// times zero is none either.
pub proof fn law_infinite_numbers(a: Binary32, b: Binary32)
    requires
        a.is_infinite(),
    ensures
        b.is_finite() ==> a + b == a && b + a == a,
        b.is_infinite() && a.negative() == b.negative() ==> a + b == a,
        b.is_infinite() && a.negative() != b.negative() ==> (a + b).is_nan(),
        b.is_zero() ==> (a * b).is_nan() && (b * a).is_nan(),
        b.is_finite() && !b.is_zero() ==> (a * b).is_infinite() && (b * a).is_infinite(),
        b.is_finite() ==> (b / a).is_zero() && (a / b).is_infinite(),
        b.is_infinite() ==> (a / b).is_nan(),
{
}

/// A finite number over zero is infinite, unless it is zero itself; a number below zero has no root.
pub proof fn law_division_by_zero(a: Binary32, b: Binary32)
    requires
        a.is_finite(),
        b.is_zero(),
    ensures
        !a.is_zero() ==> (a / b).is_infinite(),
        a.is_zero() ==> (a / b).is_nan(),
        a < zero() ==> a.root().is_nan(),
        a.is_zero() ==> a.root() == a,
{
}

/// A product or a quotient is negative where exactly one of the two is.
pub proof fn law_signs_multiply(a: Binary32, b: Binary32)
    requires
        a.is_finite(),
        b.is_finite(),
    ensures
        (a * b).negative() == (a.negative() != b.negative()),
        !b.is_zero() ==> (a / b).negative() == (a.negative() != b.negative()),
{
    lemma_pow2_pos(UNIT_SCALE as nat);
    lemma_rounding_exists(a.units() * b.units(), pow2(UNIT_SCALE as nat));
    if !b.is_zero() {
        lemma_rounding_exists(a.units() * pow2(UNIT_SCALE as nat), b.units());
    }
}

/// A number is held to the whole numbers of 32 bits: the nearest one where it is one of them, the
/// nearer end where it is not, and zero for a NaN.
pub proof fn law_whole_numbers_saturate(x: Binary32)
    ensures
        x.is_nan() ==> x.saturated_whole() == 0,
        x.is_infinite() && x.negative() ==> x.saturated_whole() == i32::MIN,
        x.is_infinite() && !x.negative() ==> x.saturated_whole() == i32::MAX,
        x.is_finite() && i32::MIN <= x.nearest_whole() <= i32::MAX ==> x.saturated_whole()
            == x.nearest_whole(),
        x.is_finite() && x.nearest_whole() > i32::MAX ==> x.saturated_whole() == i32::MAX,
        x.is_finite() && x.nearest_whole() < i32::MIN ==> x.saturated_whole() == i32::MIN,
{
}

} // verus!
