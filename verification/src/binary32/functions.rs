//! Functions of one and two numbers, and the constants that the formulas share.

use crate::binary32::arithmetic::UNIT_SCALE;
use crate::binary32::encoding::{pattern, Binary32, INFINITE_INDEX, SIGN_WEIGHT};
use crate::binary32::rounding::{lemma_pow2_increases, power_of_two};
use vstd::arithmetic::div_mod::{
    lemma_basic_div, lemma_fundamental_div_mod, lemma_fundamental_div_mod_converse, lemma_mod_bound,
};
use vstd::arithmetic::power2::{
    lemma2_to64, lemma_pow2_adds, lemma_pow2_pos, lemma_pow2_unfold, pow2,
};
use vstd::prelude::*;

verus! {

/// One.
pub const ONE_BITS: u32 = 0x3f80_0000;

/// Two.
pub const TWO_BITS: u32 = 0x4000_0000;

/// Half a turn in radians.
pub const PI_BITS: u32 = 0x4049_0fdb;

/// A full turn in radians.
pub const TAU_BITS: u32 = 0x40c9_0fdb;

/// Half a turn divided by 180.
pub const RADIANS_PER_DEGREE_BITS: u32 = 0x3c8e_fa35;

/// The number with the given pattern. Constants of the formulas are written as their patterns.
#[verifier::allow_in_spec]
pub fn number(bits: u32) -> (r: Binary32)
    returns
        (Binary32 { bits }),
{
    Binary32 { bits }
}

#[verifier::allow_in_spec]
pub fn zero() -> (r: Binary32)
    returns
        (Binary32 { bits: 0 }),
{
    Binary32 { bits: 0 }
}

#[verifier::allow_in_spec]
pub fn one() -> (r: Binary32)
    returns
        (Binary32 { bits: ONE_BITS }),
{
    Binary32 { bits: ONE_BITS }
}

impl Binary32 {
    /// Whether the number is neither infinite nor a NaN.
    pub fn finite(self) -> (r: bool)
        ensures
            r == self.is_finite(),
    {
        self.bits % SIGN_WEIGHT < INFINITE_INDEX
    }

    /// The number without its sign.
    pub open spec fn absolute(self) -> Binary32 {
        pattern(false, self.index())
    }

    pub fn abs(self) -> (r: Binary32)
        ensures
            r == self.absolute(),
    {
        Binary32 { bits: self.bits % SIGN_WEIGHT }
    }

    /// The smaller of two numbers. One that is not a number gives way to the other; of two equal
    /// numbers the first is taken.
    pub open spec fn smaller(self, other: Binary32) -> Binary32 {
        if self.is_nan() || other < self {
            other
        } else {
            self
        }
    }

    pub fn min(self, other: Binary32) -> (r: Binary32)
        ensures
            r == self.smaller(other),
    {
        if self.bits % SIGN_WEIGHT > INFINITE_INDEX || other < self {
            other
        } else {
            self
        }
    }

    /// The larger of two numbers. One that is not a number gives way to the other; of two equal
    /// numbers the first is taken.
    pub open spec fn larger(self, other: Binary32) -> Binary32 {
        if self.is_nan() || self < other {
            other
        } else {
            self
        }
    }

    pub fn max(self, other: Binary32) -> (r: Binary32)
        ensures
            r == self.larger(other),
    {
        if self.bits % SIGN_WEIGHT > INFINITE_INDEX || self < other {
            other
        } else {
            self
        }
    }

    /// The number held between two bounds. A NaN stays what it is.
    pub open spec fn clamped(self, low: Binary32, high: Binary32) -> Binary32 {
        if self < low {
            low
        } else if self > high {
            high
        } else {
            self
        }
    }

    pub fn clamp(self, low: Binary32, high: Binary32) -> (r: Binary32)
        requires
            low <= high,
        ensures
            r == self.clamped(low, high),
    {
        if self < low {
            low
        } else if self > high {
            high
        } else {
            self
        }
    }

    /// One with the sign of the number, also for the zeros.
    pub open spec fn sign(self) -> Binary32 {
        if self.is_nan() {
            self
        } else {
            pattern(self.negative(), ONE_BITS as nat)
        }
    }

    pub fn signum(self) -> (r: Binary32)
        ensures
            r == self.sign(),
    {
        if self.bits % SIGN_WEIGHT > INFINITE_INDEX {
            self
        } else if self.bits >= SIGN_WEIGHT {
            Binary32 { bits: ONE_BITS + SIGN_WEIGHT }
        } else {
            Binary32 { bits: ONE_BITS }
        }
    }

    /// One divided by the number.
    pub open spec fn reciprocal(self) -> Binary32 {
        one() / self
    }

    pub fn recip(self) -> (r: Binary32)
        ensures
            r == self.reciprocal(),
    {
        one() / self
    }

    /// The remainder moved up by one divisor where it is negative.
    pub open spec fn euclidean_remainder(self, rhs: Binary32) -> Binary32 {
        let r = self % rhs;
        if r < zero() {
            r + rhs.absolute()
        } else {
            r
        }
    }

    pub fn rem_euclid(self, rhs: Binary32) -> (r: Binary32)
        ensures
            r == self.euclidean_remainder(rhs),
    {
        let r = self % rhs;
        if r < zero() {
            r + rhs.abs()
        } else {
            r
        }
    }

    /// An angle in degrees, in radians.
    pub open spec fn radians(self) -> Binary32 {
        self * number(RADIANS_PER_DEGREE_BITS)
    }

    pub fn to_radians(self) -> (r: Binary32)
        ensures
            r == self.radians(),
    {
        self * number(RADIANS_PER_DEGREE_BITS)
    }

    /// The nearest whole number, a half away from zero, where the number is finite.
    pub open spec fn nearest_whole(self) -> int {
        let whole = (2 * self.units() + pow2(UNIT_SCALE as nat)) / pow2((UNIT_SCALE + 1) as nat);
        if self.negative() {
            -(whole as int)
        } else {
            whole as int
        }
    }

    /// The nearest whole number that an `i32` holds; zero for a NaN.
    pub open spec fn saturated_whole(self) -> int {
        if self.is_nan() {
            0
        } else if self.is_infinite() {
            if self.negative() {
                i32::MIN as int
            } else {
                i32::MAX as int
            }
        } else if self.nearest_whole() < i32::MIN {
            i32::MIN as int
        } else if self.nearest_whole() > i32::MAX {
            i32::MAX as int
        } else {
            self.nearest_whole()
        }
    }

    pub fn round_to_i32(self) -> (r: i32)
        ensures
            r == self.saturated_whole(),
    {
        let a: u32 = self.bits % SIGN_WEIGHT;
        let negative: bool = self.bits >= SIGN_WEIGHT;
        if a > INFINITE_INDEX {
            return 0;
        }
        if a == INFINITE_INDEX {
            return if negative { i32::MIN } else { i32::MAX };
        }
        let whole: u64 = self.whole_magnitude();
        if negative {
            if whole > 0x8000_0000 {
                i32::MIN
            } else {
                (-(whole as i64)) as i32
            }
        } else if whole > 0x7fff_ffff {
            i32::MAX
        } else {
            whole as i32
        }
    }

    /// The magnitude rounded to a whole number, or a number past every `i32` where it is larger.
    fn whole_magnitude(self) -> (whole: u64)
        requires
            self.is_finite(),
        ensures
            ({
                let exact = (2 * self.units() + pow2(UNIT_SCALE as nat)) / pow2(
                    (UNIT_SCALE + 1) as nat,
                );
                whole == exact || (whole > 0x8000_0000 && exact > 0x8000_0000)
            }),
    {
        let (m, e) = self.parts();
        let ghost one = pow2(UNIT_SCALE as nat);
        let ghost two = pow2((UNIT_SCALE + 1) as nat);
        proof {
            lemma_pow2_pos(UNIT_SCALE as nat);
            lemma_pow2_unfold((UNIT_SCALE + 1) as nat);
            lemma2_to64();
        }
        if e >= UNIT_SCALE {
            let s: u32 = e - UNIT_SCALE;
            let w: u128 = if s < 32 {
                power_of_two(s)
            } else {
                0x1_0000_0000
            };
            proof {
                if s < 32 {
                    lemma_pow2_increases(s as nat, 32);
                } else {
                    lemma_pow2_increases(32, s as nat);
                }
                lemma_pow2_adds(UNIT_SCALE as nat, s as nat);
                let scaled = m as nat * pow2(s as nat);
                assert(self.units() == one * scaled) by (nonlinear_arith)
                    requires
                        self.units() == m * pow2(e as nat),
                        pow2(e as nat) == one * pow2(s as nat),
                        scaled == m as nat * pow2(s as nat),
                ;
                assert(2 * self.units() + one == two * scaled + one) by (nonlinear_arith)
                    requires
                        self.units() == one * scaled,
                        two == 2 * one,
                ;
                lemma_fundamental_div_mod_converse(
                    (2 * self.units() + one) as int,
                    two as int,
                    scaled as int,
                    one as int,
                );
                assert(m * w < 0x100_0000_0000_0000) by (nonlinear_arith)
                    requires
                        m < 0x100_0000,
                        w <= 0x1_0000_0000,
                ;
                assert(m as nat * w as nat <= scaled) by (nonlinear_arith)
                    requires
                        w <= pow2(s as nat),
                        scaled == m as nat * pow2(s as nat),
                ;
                if s >= 32 {
                    assert(m * w >= 0x80_0000_0000_0000) by (nonlinear_arith)
                        requires
                            m >= 0x80_0000,
                            w == 0x1_0000_0000,
                    ;
                }
            }
            ((m as u128) * w) as u64
        } else {
            let s: u32 = UNIT_SCALE - e;
            let ghost c = pow2(e as nat);
            let ghost p = pow2(s as nat);
            proof {
                lemma_pow2_adds(e as nat, s as nat);
                lemma_pow2_pos(e as nat);
                lemma_pow2_pos(s as nat);
                assert(2 * self.units() + one == c * (2 * m + p)) by (nonlinear_arith)
                    requires
                        self.units() == m * c,
                        one == c * p,
                ;
                assert(two == c * (2 * p)) by (nonlinear_arith)
                    requires
                        two == 2 * one,
                        one == c * p,
                ;
                lemma_scaled_quotient((2 * m + p) as nat, 2 * p, c);
            }
            if s >= 32 {
                proof {
                    lemma_pow2_increases(32, s as nat);
                    lemma_basic_div((2 * m + p) as int, (2 * p) as int);
                }
                0
            } else {
                let w: u64 = power_of_two(s) as u64;
                proof {
                    lemma_pow2_increases(s as nat, 32);
                }
                (2 * (m as u64) + w) / (2 * w)
            }
        }
    }
}

/// A common factor does not change a quotient.
proof fn lemma_scaled_quotient(a: nat, b: nat, c: nat)
    requires
        b > 0,
        c > 0,
    ensures
        (c * a) / (c * b) == a / b,
{
    let q = a / b;
    let r = a % b;
    lemma_fundamental_div_mod(a as int, b as int);
    lemma_mod_bound(a as int, b as int);
    assert(c * a == q * (c * b) + c * r && 0 <= c * r < c * b) by (nonlinear_arith)
        requires
            a == b * q + r,
            0 <= r < b,
            c > 0,
    ;
    lemma_fundamental_div_mod_converse(
        (c * a) as int,
        (c * b) as int,
        q as int,
        (c * r) as int,
    );
}

} // verus!
