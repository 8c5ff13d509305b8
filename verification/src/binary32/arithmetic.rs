//! The arithmetic operations, each the exact result rounded once.

use crate::binary32::encoding::{
    lemma_magnitude_increases, magnitude, nan, pattern, Binary32, BINADE, INFINITE_INDEX, NAN_BITS,
    SIGN_WEIGHT,
};
use crate::binary32::rounding::{
    between_midpoints, lemma_pow2_128, lemma_pow2_increases, lemma_rounded, power_of_two,
    round_scaled, rounded, rounds_to, MAX_SIGNIFICAND,
};
use vstd::arithmetic::power2::{lemma_pow2_adds, lemma_pow2_pos, pow2};
use vstd::prelude::*;

verus! {

/// The exponent of the unit: one is `2^UNIT_SCALE` units.
pub const UNIT_SCALE: u32 = 149;

/// The index nearest to `numerator / denominator` units, from a scaled approximation from below.
pub proof fn lemma_rounding_of(
    m: nat,
    u: nat,
    base: nat,
    inexact: bool,
    k: nat,
    numerator: nat,
    denominator: nat,
)
    requires
        denominator > 0,
        if inexact {
            &&& m * pow2(u) * denominator < numerator * pow2(base)
            &&& numerator * pow2(base) < (m + 1) * pow2(u) * denominator
        } else {
            m * pow2(u) * denominator == numerator * pow2(base)
        },
        k <= INFINITE_INDEX,
        k < INFINITE_INDEX ==> between_midpoints(m, u, base, inexact, k),
        k == INFINITE_INDEX ==> {
            let twice_mid = (magnitude((k - 1) as nat) + magnitude(k)) * pow2(base);
            twice_mid <= 2 * m * pow2(u)
        },
    ensures
        rounded(numerator, denominator) == k,
{
    let c = pow2(base);
    let v = pow2(u);
    let x = m * v * denominator;
    let y = numerator * c;
    lemma_pow2_pos(base);
    if k > 0 {
        let mid = magnitude((k - 1) as nat) + magnitude(k);
        assert(mid * c <= 2 * m * v);
        assert(mid * c * denominator <= 2 * x) by (nonlinear_arith)
            requires
                mid * c <= 2 * m * v,
                x == m * v * denominator,
        ;
        assert(mid * denominator * c == mid * c * denominator) by (nonlinear_arith);
        assert(2 * numerator * c == 2 * y) by (nonlinear_arith)
            requires
                y == numerator * c,
        ;
        assert(mid * denominator <= 2 * numerator) by (nonlinear_arith)
            requires
                mid * denominator * c <= 2 * numerator * c,
                c > 0,
        ;
        if mid * denominator == 2 * numerator {
            assert(mid * c * denominator == 2 * x);
            assert(mid * c == 2 * m * v) by (nonlinear_arith)
                requires
                    mid * c * denominator == 2 * x,
                    x == m * v * denominator,
                    denominator > 0,
            ;
            assert(!inexact);
        }
    }
    if k < INFINITE_INDEX {
        let mid = magnitude(k) + magnitude(k + 1);
        let top = if inexact {
            2 * (m + 1) * v
        } else {
            2 * m * v
        };
        assert(top <= mid * c);
        assert(2 * y <= top * denominator) by (nonlinear_arith)
            requires
                inexact ==> y < (m + 1) * v * denominator && top == 2 * (m + 1) * v,
                !inexact ==> y == m * v * denominator && top == 2 * m * v,
        ;
        assert(top * denominator <= mid * c * denominator) by (nonlinear_arith)
            requires
                top <= mid * c,
        ;
        assert(mid * denominator * c == mid * c * denominator) by (nonlinear_arith);
        assert(2 * numerator * c == 2 * y) by (nonlinear_arith)
            requires
                y == numerator * c,
        ;
        assert(2 * numerator <= mid * denominator) by (nonlinear_arith)
            requires
                2 * numerator * c <= mid * denominator * c,
                c > 0,
        ;
        if 2 * numerator == mid * denominator {
            assert(2 * y == mid * c * denominator);
            if inexact {
                assert(2 * y < top * denominator) by (nonlinear_arith)
                    requires
                        y < (m + 1) * v * denominator,
                        top == 2 * (m + 1) * v,
                ;
            } else {
                assert(top == mid * c) by (nonlinear_arith)
                    requires
                        top * denominator == mid * c * denominator,
                        denominator > 0,
                ;
            }
        }
    }
    assert(rounds_to(numerator, denominator, k));
    lemma_rounded(numerator, denominator, k);
}

impl Binary32 {
    pub fn from_bits(bits: u32) -> (r: Binary32)
        ensures
            r.bits == bits,
    {
        Binary32 { bits }
    }

    pub fn to_bits(self) -> (r: u32)
        ensures
            r == self.bits,
    {
        self.bits
    }

    /// The significand and exponent of the magnitude.
    pub(crate) fn parts(self) -> (r: (u32, u32))
        requires
            self.is_finite(),
        ensures
            self.units() == r.0 * pow2(r.1 as nat),
            r.0 < 2 * BINADE,
            r.1 <= 253,
            r.1 > 0 ==> r.0 >= BINADE,
            r.0 == 0 <==> self.is_zero(),
    {
        let k: u32 = self.bits % SIGN_WEIGHT;
        if k < BINADE {
            proof {
                vstd::arithmetic::power2::lemma2_to64();
            }
            (k, 0)
        } else {
            (BINADE + k % BINADE, k / BINADE - 1)
        }
    }

    /// The number with the given sign and index.
    pub(crate) fn with_sign(negative: bool, k: u32) -> (r: Binary32)
        requires
            k < SIGN_WEIGHT,
        ensures
            r == pattern(negative, k as nat),
            r.negative() == negative,
            r.index() == k,
    {
        if negative {
            Binary32 { bits: k + SIGN_WEIGHT }
        } else {
            Binary32 { bits: k }
        }
    }

    /// The opposite number.
    pub open spec fn spec_neg(self) -> Binary32 {
        pattern(!self.negative(), self.index())
    }

    pub fn negated(self) -> (r: Binary32)
        ensures
            r == -self,
    {
        if self.bits >= SIGN_WEIGHT {
            Binary32 { bits: self.bits - SIGN_WEIGHT }
        } else {
            Binary32 { bits: self.bits + SIGN_WEIGHT }
        }
    }

    /// The exact sum, rounded. A sum of zero is negative only where both terms are.
    pub open spec fn spec_add(self, rhs: Binary32) -> Binary32 {
        if self.is_nan() || rhs.is_nan() {
            nan()
        } else if self.is_infinite() && rhs.is_infinite() {
            if self.negative() == rhs.negative() {
                self
            } else {
                nan()
            }
        } else if self.is_infinite() {
            self
        } else if rhs.is_infinite() {
            rhs
        } else {
            let exact = self.value() + rhs.value();
            if exact == 0 {
                pattern(self.negative() && rhs.negative(), 0)
            } else if exact < 0 {
                pattern(true, rounded((-exact) as nat, 1))
            } else {
                pattern(false, rounded(exact as nat, 1))
            }
        }
    }

    /// The exact difference, rounded.
    pub open spec fn spec_sub(self, rhs: Binary32) -> Binary32 {
        self.spec_add(rhs.spec_neg())
    }

    /// The exact product, rounded.
    pub open spec fn spec_mul(self, rhs: Binary32) -> Binary32 {
        let negative = self.negative() != rhs.negative();
        if self.is_nan() || rhs.is_nan() {
            nan()
        } else if self.is_infinite() || rhs.is_infinite() {
            if self.is_zero() || rhs.is_zero() {
                nan()
            } else {
                pattern(negative, INFINITE_INDEX as nat)
            }
        } else {
            pattern(negative, rounded(self.units() * rhs.units(), pow2(UNIT_SCALE as nat)))
        }
    }
}

impl core::ops::Mul for Binary32 {
    type Output = Binary32;

    fn mul(self, rhs: Binary32) -> (r: Binary32) {
        let a: u32 = self.bits % SIGN_WEIGHT;
        let b: u32 = rhs.bits % SIGN_WEIGHT;
        let negative: bool = (self.bits >= SIGN_WEIGHT) != (rhs.bits >= SIGN_WEIGHT);
        if a > INFINITE_INDEX || b > INFINITE_INDEX {
            return Binary32 { bits: NAN_BITS };
        }
        if a == INFINITE_INDEX || b == INFINITE_INDEX {
            if a == 0 || b == 0 {
                return Binary32 { bits: NAN_BITS };
            }
            return Binary32::with_sign(negative, INFINITE_INDEX);
        }
        let (ma, ea) = self.parts();
        let (mb, eb) = rhs.parts();
        assert(ma * mb < 0x1_0000_0000_0000) by (nonlinear_arith)
            requires
                ma < 0x100_0000,
                mb < 0x100_0000,
        ;
        let m: u128 = (ma as u128) * (mb as u128);
        let k: u32 = round_scaled(m, ea + eb, UNIT_SCALE, false);
        proof {
            let numerator = self.units() * rhs.units();
            let denominator = pow2(UNIT_SCALE as nat);
            lemma_pow2_pos(UNIT_SCALE as nat);
            lemma_pow2_adds(ea as nat, eb as nat);
            assert(m as nat * pow2((ea + eb) as nat) == numerator) by (nonlinear_arith)
                requires
                    m == ma * mb,
                    numerator == (ma * pow2(ea as nat)) * (mb * pow2(eb as nat)),
                    pow2((ea + eb) as nat) == pow2(ea as nat) * pow2(eb as nat),
            ;
            lemma_rounding_of(
                m as nat,
                (ea + eb) as nat,
                UNIT_SCALE as nat,
                false,
                k as nat,
                numerator,
                denominator,
            );
        }
        Binary32::with_sign(negative, k)
    }
}

impl vstd::std_specs::ops::MulSpecImpl for Binary32 {
    open spec fn obeys_mul_spec() -> bool {
        true
    }

    open spec fn mul_req(self, rhs: Binary32) -> bool {
        true
    }

    open spec fn mul_spec(self, rhs: Binary32) -> Binary32 {
        self.spec_mul(rhs)
    }
}

/// The scaled significand of the sum of two magnitudes with exponents far apart, or of their
/// difference: what the smaller one contributes lies strictly below the last digit.
proof fn lemma_far_apart(mh: nat, eh: nat, ml: nat, el: nat)
    requires
        eh > el + 64,
        ml < 2 * BINADE,
        mh >= BINADE,
    ensures
        ({
            let v = pow2((eh - 40) as nat);
            let m = mh * pow2(40);
            &&& mh * pow2(eh) == m * v
            &&& ml * pow2(el) < v
            &&& ml > 0 ==> ml * pow2(el) > 0
            &&& ml * pow2(el) < mh * pow2(eh)
        }),
{
    let v = pow2((eh - 40) as nat);
    lemma_pow2_128();
    lemma_pow2_adds((eh - 40) as nat, 40);
    lemma_pow2_adds(24, el);
    lemma_pow2_increases(24 + el, (eh - 40) as nat);
    lemma_pow2_pos(el);
    lemma_pow2_pos((eh - 40) as nat);
    assert(mh * pow2(eh) == mh * pow2(40) * v) by (nonlinear_arith)
        requires
            pow2(eh) == v * pow2(40),
    ;
    assert(ml * pow2(el) < v) by (nonlinear_arith)
        requires
            ml < pow2(24),
            pow2(24 + el) == pow2(24) * pow2(el),
            pow2(24 + el) <= v,
            pow2(el) > 0,
    ;
    if ml > 0 {
        assert(ml * pow2(el) > 0) by (nonlinear_arith)
            requires
                ml > 0,
                pow2(el) > 0,
        ;
    }
    assert(v <= mh * pow2(40) * v) by (nonlinear_arith)
        requires
            mh >= 1,
            pow2(40) >= 1,
    ;
}

/// The index of the sum of two magnitudes (`same`), or of the difference of the first and the
/// second, which lies so far below the first that only the rounding can feel it.
fn far_sum(mh: u32, eh: u32, ml: u32, el: u32, same: bool) -> (k: u32)
    requires
        eh > el + 64,
        eh <= 253,
        ml < 2 * BINADE,
        BINADE <= mh < 2 * BINADE,
    ensures
        k <= INFINITE_INDEX,
        ({
            let high = mh * pow2(eh as nat);
            let low = ml * pow2(el as nat);
            &&& low < high
            &&& k == rounded((if same { high + low } else { high - low }) as nat, 1)
        }),
{
    proof {
        lemma_far_apart(mh as nat, eh as nat, ml as nat, el as nat);
        lemma_pow2_128();
        vstd::arithmetic::power2::lemma2_to64();
    }
    let wide: u128 = (mh as u128) * 0x100_0000_0000;
    let inexact: bool = ml > 0;
    let m: u128 = if same || ml == 0 {
        wide
    } else {
        wide - 1
    };
    let k: u32 = round_scaled(m, eh - 40, 0, inexact);
    proof {
        let high = mh * pow2(eh as nat);
        let low = ml * pow2(el as nat);
        let v = pow2((eh - 40) as nat);
        let numerator = (if same { high + low } else { high - low }) as nat;
        assert(ml == 0 ==> low == 0);
        assert((m + 1) * v == m * v + v) by (nonlinear_arith);
        assert(wide * v == high);
        if !same && ml > 0 {
            assert(m * v == wide * v - v) by (nonlinear_arith)
                requires
                    m == wide - 1,
            ;
        }
        assert(m as nat * v * 1 == m as nat * v);
        assert((m as nat + 1) * v * 1 == (m as nat + 1) * v);
        assert(numerator * pow2(0) == numerator);
        lemma_rounding_of(m as nat, (eh - 40) as nat, 0, inexact, k as nat, numerator, 1);
    }
    k
}

/// A whole number of units as wide as a significand, scaled by a power of two, rounded.
pub(crate) fn round_units(m: u128, e: u32) -> (k: u32)
    requires
        m < MAX_SIGNIFICAND,
        e <= 253,
    ensures
        k <= INFINITE_INDEX,
        k == rounded(m as nat * pow2(e as nat), 1),
{
    let k: u32 = round_scaled(m, e, 0, false);
    proof {
        vstd::arithmetic::power2::lemma2_to64();
        let numerator = m as nat * pow2(e as nat);
        assert(numerator * 1 == numerator * pow2(0));
        lemma_rounding_of(m as nat, e as nat, 0, false, k as nat, numerator, 1);
    }
    k
}

/// The sum of two finite numbers, the first with the larger exponent.
fn finite_sum(a: Binary32, b: Binary32, ma: u32, ea: u32, mb: u32, eb: u32) -> (r: Binary32)
    requires
        a.is_finite(),
        b.is_finite(),
        a.units() == ma * pow2(ea as nat),
        b.units() == mb * pow2(eb as nat),
        ma < 2 * BINADE,
        mb < 2 * BINADE,
        ea > 0 ==> ma >= BINADE,
        eb <= ea <= 253,
    ensures
        r == a + b,
        r == b + a,
{
    let na: bool = a.bits >= SIGN_WEIGHT;
    let nb: bool = b.bits >= SIGN_WEIGHT;
    let d: u32 = ea - eb;
    let ghost high = ma * pow2(ea as nat);
    let ghost low = mb * pow2(eb as nat);
    if d > 64 {
        let k: u32 = far_sum(ma, ea, mb, eb, na == nb);
        return Binary32::with_sign(na, k);
    }
    let w: u128 = power_of_two(d);
    proof {
        lemma_pow2_128();
        lemma_pow2_increases(d as nat, 64);
        assert(ma as nat * w as nat <= 0x100_0000 * 0x1_0000_0000_0000_0000) by (nonlinear_arith)
            requires
                ma <= 0x100_0000,
                w <= 0x1_0000_0000_0000_0000,
        ;
    }
    let wide: u128 = (ma as u128) * w;
    let narrow: u128 = mb as u128;
    let ghost c = pow2(eb as nat);
    proof {
        lemma_pow2_adds(d as nat, eb as nat);
        lemma_pow2_pos(eb as nat);
        assert(wide * c == high) by (nonlinear_arith)
            requires
                wide == ma * w,
                high == ma * pow2(ea as nat),
                pow2(ea as nat) == w * c,
        ;
    }
    if na == nb {
        let m: u128 = wide + narrow;
        let k: u32 = round_units(m, eb);
        proof {
            assert(m * c == high + low) by (nonlinear_arith)
                requires
                    m == wide + narrow,
                    wide * c == high,
                    low == narrow * c,
            ;
            if m == 0 {
                assert(m as nat * c == 0);
                lemma_zero_rounds();
            } else {
                assert(m * c > 0) by (nonlinear_arith)
                    requires
                        m > 0,
                        c > 0,
                ;
            }
        }
        Binary32::with_sign(na, k)
    } else if wide > narrow {
        let m: u128 = wide - narrow;
        let k: u32 = round_units(m, eb);
        proof {
            assert(m * c == high - low && m * c > 0) by (nonlinear_arith)
                requires
                    m == wide - narrow,
                    m > 0,
                    c > 0,
                    wide * c == high,
                    low == narrow * c,
            ;
        }
        Binary32::with_sign(na, k)
    } else if narrow > wide {
        let m: u128 = narrow - wide;
        let k: u32 = round_units(m, eb);
        proof {
            assert(m * c == low - high && m * c > 0) by (nonlinear_arith)
                requires
                    m == narrow - wide,
                    m > 0,
                    c > 0,
                    wide * c == high,
                    low == narrow * c,
            ;
        }
        Binary32::with_sign(nb, k)
    } else {
        Binary32::with_sign(false, 0)
    }
}

/// Nothing rounds to zero.
pub proof fn lemma_zero_rounds()
    ensures
        rounded(0, 1) == 0,
{
    lemma_magnitude_increases(0, 1);
    assert(rounds_to(0, 1, 0));
    lemma_rounded(0, 1, 0);
}

impl core::ops::Add for Binary32 {
    type Output = Binary32;

    fn add(self, rhs: Binary32) -> (r: Binary32) {
        let a: u32 = self.bits % SIGN_WEIGHT;
        let b: u32 = rhs.bits % SIGN_WEIGHT;
        if a > INFINITE_INDEX || b > INFINITE_INDEX {
            return Binary32 { bits: NAN_BITS };
        }
        if a == INFINITE_INDEX {
            if b == INFINITE_INDEX && (self.bits >= SIGN_WEIGHT) != (rhs.bits >= SIGN_WEIGHT) {
                return Binary32 { bits: NAN_BITS };
            }
            return self;
        }
        if b == INFINITE_INDEX {
            return rhs;
        }
        let (ma, ea) = self.parts();
        let (mb, eb) = rhs.parts();
        if ea >= eb {
            finite_sum(self, rhs, ma, ea, mb, eb)
        } else {
            finite_sum(rhs, self, mb, eb, ma, ea)
        }
    }
}

impl vstd::std_specs::ops::AddSpecImpl for Binary32 {
    open spec fn obeys_add_spec() -> bool {
        true
    }

    open spec fn add_req(self, rhs: Binary32) -> bool {
        true
    }

    open spec fn add_spec(self, rhs: Binary32) -> Binary32 {
        self.spec_add(rhs)
    }
}

impl core::ops::Sub for Binary32 {
    type Output = Binary32;

    fn sub(self, rhs: Binary32) -> (r: Binary32) {
        self + rhs.negated()
    }
}

impl vstd::std_specs::ops::SubSpecImpl for Binary32 {
    open spec fn obeys_sub_spec() -> bool {
        true
    }

    open spec fn sub_req(self, rhs: Binary32) -> bool {
        true
    }

    open spec fn sub_spec(self, rhs: Binary32) -> Binary32 {
        self.spec_sub(rhs)
    }
}

} // verus!
