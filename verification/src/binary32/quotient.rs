//! Division and the remainder of division.

use crate::binary32::arithmetic::{lemma_rounding_of, round_units, UNIT_SCALE};
use crate::binary32::encoding::{
    lemma_magnitude_increases, magnitude, nan, pattern, Binary32, BINADE, INFINITE_INDEX, NAN_BITS,
    SIGN_WEIGHT,
};
use crate::binary32::rounding::{
    lemma_pow2_128, lemma_pow2_increases, lemma_rounded, round_scaled, rounded, rounds_to,
};
use vstd::arithmetic::div_mod::{lemma_fundamental_div_mod, lemma_mod_bound};
use vstd::arithmetic::power2::{lemma_pow2_adds, lemma_pow2_pos, lemma_pow2_unfold, pow2};
use vstd::prelude::*;

verus! {

/// The index of the finite magnitude of `n` units.
pub open spec fn index_of(n: nat) -> nat {
    choose|k: nat| k < INFINITE_INDEX && magnitude(k) == n
}

impl Binary32 {
    /// The exact quotient, rounded; the meaning of `/` in contracts.
    pub open spec fn spec_euclidean_or_real_div(self, rhs: Binary32) -> Binary32 {
        let negative = self.negative() != rhs.negative();
        if self.is_nan() || rhs.is_nan() {
            nan()
        } else if self.is_infinite() {
            if rhs.is_infinite() {
                nan()
            } else {
                pattern(negative, INFINITE_INDEX as nat)
            }
        } else if rhs.is_infinite() {
            pattern(negative, 0)
        } else if rhs.is_zero() {
            if self.is_zero() {
                nan()
            } else {
                pattern(negative, INFINITE_INDEX as nat)
            }
        } else {
            pattern(negative, rounded(self.units() * pow2(UNIT_SCALE as nat), rhs.units()))
        }
    }

    /// What is left of the number after taking the divisor away as often as it goes in; the meaning
    /// of `%` in contracts. It is exact and has the sign of the number.
    pub open spec fn spec_euclidean_mod(self, rhs: Binary32) -> Binary32 {
        if self.is_nan() || rhs.is_nan() || self.is_infinite() || rhs.is_zero() {
            nan()
        } else if rhs.is_infinite() {
            self
        } else {
            pattern(self.negative(), index_of((self.units() % rhs.units()) as nat))
        }
    }
}

/// Magnitudes are positive except at zero.
pub proof fn lemma_units_positive(x: Binary32)
    ensures
        x.units() > 0 <==> !x.is_zero(),
{
    if !x.is_zero() {
        lemma_magnitude_increases(0, x.index());
    }
}

impl core::ops::Div for Binary32 {
    type Output = Binary32;

    fn div(self, rhs: Binary32) -> (r: Binary32) {
        let a: u32 = self.bits % SIGN_WEIGHT;
        let b: u32 = rhs.bits % SIGN_WEIGHT;
        let negative: bool = (self.bits >= SIGN_WEIGHT) != (rhs.bits >= SIGN_WEIGHT);
        if a > INFINITE_INDEX || b > INFINITE_INDEX {
            return Binary32 { bits: NAN_BITS };
        }
        if a == INFINITE_INDEX {
            if b == INFINITE_INDEX {
                return Binary32 { bits: NAN_BITS };
            }
            return Binary32::with_sign(negative, INFINITE_INDEX);
        }
        if b == INFINITE_INDEX {
            return Binary32::with_sign(negative, 0);
        }
        if b == 0 {
            if a == 0 {
                return Binary32 { bits: NAN_BITS };
            }
            return Binary32::with_sign(negative, INFINITE_INDEX);
        }
        let (ma, ea) = self.parts();
        let (mb, eb) = rhs.parts();
        let wide: u128 = (ma as u128) * 0x1_0000_0000_0000_0000;
        let divisor: u128 = mb as u128;
        let m: u128 = wide / divisor;
        let inexact: bool = wide % divisor != 0;
        let u: u32 = ea + 338 - eb;
        proof {
            lemma_fundamental_div_mod(wide as int, divisor as int);
            lemma_mod_bound(wide as int, divisor as int);
            if inexact {
                assert(m >= 0x200_0000) by (nonlinear_arith)
                    requires
                        wide >= 0x1_0000_0000_0000_0000,
                        0 < divisor < 0x100_0000,
                        m == wide / divisor,
                ;
            }
            assert(m <= wide) by (nonlinear_arith)
                requires
                    m == wide / divisor,
                    divisor > 0,
            ;
        }
        let k: u32 = round_scaled(m, u, 253, inexact);
        proof {
            let numerator = self.units() * pow2(UNIT_SCALE as nat);
            let denominator = rhs.units();
            let v = pow2(u as nat);
            let c = pow2(253);
            let pa = pow2(ea as nat);
            let pb = pow2(eb as nat);
            lemma_units_positive(rhs);
            lemma_pow2_128();
            lemma_pow2_adds(u as nat, eb as nat);
            lemma_pow2_adds((u + eb) as nat, 64);
            lemma_pow2_adds(ea as nat, 149);
            lemma_pow2_adds((ea + 149) as nat, 253);
            lemma_pow2_pos(u as nat);
            lemma_pow2_pos(eb as nat);
            let g = v * pb;
            assert(pow2((u + eb) as nat) == g);
            assert(numerator * c == wide * g) by (nonlinear_arith)
                requires
                    numerator == (ma * pa) * pow2(149),
                    wide == ma * pow2(64),
                    pow2((ea + 149) as nat) == pa * pow2(149),
                    pow2((ea + 149 + 253) as nat) == pow2((ea + 149) as nat) * c,
                    pow2((u + eb + 64) as nat) == g * pow2(64),
                    ea + 149 + 253 == u + eb + 64,
            ;
            assert(m as nat * v * denominator == (divisor * m) * g) by (nonlinear_arith)
                requires
                    denominator == mb * pb,
                    divisor == mb,
                    g == v * pb,
            ;
            assert((m as nat + 1) * v * denominator == (divisor * m + divisor) * g)
                by (nonlinear_arith)
                requires
                    denominator == mb * pb,
                    divisor == mb,
                    g == v * pb,
            ;
            assert(g > 0) by (nonlinear_arith)
                requires
                    g == v * pb,
                    v > 0,
                    pb > 0,
            ;
            if inexact {
                assert((divisor * m) * g < wide * g) by (nonlinear_arith)
                    requires
                        divisor * m < wide,
                        g > 0,
                ;
                assert(wide * g < (divisor * m + divisor) * g) by (nonlinear_arith)
                    requires
                        wide < divisor * m + divisor,
                        g > 0,
                ;
            }
            lemma_rounding_of(m as nat, u as nat, 253, inexact, k as nat, numerator, denominator);
        }
        Binary32::with_sign(negative, k)
    }
}

impl vstd::std_specs::ops::DivSpecImpl for Binary32 {
    open spec fn obeys_div_spec() -> bool {
        true
    }

    open spec fn div_req(self, rhs: Binary32) -> bool {
        true
    }

    open spec fn div_spec(self, rhs: Binary32) -> Binary32 {
        self.spec_euclidean_or_real_div(rhs)
    }
}

/// The index of a finite magnitude is unique.
pub proof fn lemma_index_of(k: nat)
    requires
        k < INFINITE_INDEX,
    ensures
        index_of(magnitude(k)) == k,
{
    let i = index_of(magnitude(k));
    if i < k {
        lemma_magnitude_increases(i, k);
    } else if k < i {
        lemma_magnitude_increases(k, i);
    }
}

/// A magnitude rounds to itself.
pub proof fn lemma_magnitude_rounds(k: nat)
    requires
        k < INFINITE_INDEX,
    ensures
        rounded(magnitude(k), 1) == k,
{
    if k > 0 {
        lemma_magnitude_increases((k - 1) as nat, k);
    }
    lemma_magnitude_increases(k, k + 1);
    assert(rounds_to(magnitude(k), 1, k));
    lemma_rounded(magnitude(k), 1, k);
}

/// A narrow significand at the exponent of a finite number is a finite magnitude.
proof fn lemma_narrow_is_magnitude(m: nat, e: nat) -> (k: nat)
    requires
        m < 2 * BINADE,
        e <= 253,
    ensures
        k < INFINITE_INDEX,
        magnitude(k) == m * pow2(e),
    decreases e,
{
    let b = BINADE as nat;
    vstd::arithmetic::power2::lemma2_to64();
    if m >= b {
        let k = (e + 1) * b + (m - b) as nat;
        assert(k / b == e + 1 && k % b == m - b) by (nonlinear_arith)
            requires
                b == 0x80_0000,
                k == (e + 1) * b + (m - b),
                b <= m < 2 * b,
        ;
        assert(k < INFINITE_INDEX) by (nonlinear_arith)
            requires
                b == 0x80_0000,
                k == (e + 1) * b + (m - b),
                m < 2 * b,
                e <= 253,
        ;
        k
    } else if e == 0 {
        m
    } else {
        lemma_pow2_unfold(e);
        assert(m * pow2(e) == (2 * m) * pow2((e - 1) as nat)) by (nonlinear_arith)
            requires
                pow2(e) == 2 * pow2((e - 1) as nat),
        ;
        lemma_narrow_is_magnitude(2 * m, (e - 1) as nat)
    }
}

/// `m * 2^d` reduced modulo `divisor`, one binary digit at a time.
fn scaled_remainder(m: u32, d: u32, divisor: u32) -> (r: u32)
    requires
        0 < divisor < 2 * BINADE,
        d <= 253,
    ensures
        r < divisor,
        r == (m as nat * pow2(d as nat)) % (divisor as nat),
{
    let mut r: u32 = m % divisor;
    let mut i: u32 = 0;
    proof {
        vstd::arithmetic::power2::lemma2_to64();
        assert(m as nat * pow2(0) == m);
    }
    while i < d
        invariant
            0 < divisor < 2 * BINADE,
            i <= d <= 253,
            r < divisor,
            r == (m as nat * pow2(i as nat)) % (divisor as nat),
        decreases d - i,
    {
        proof {
            let x = m as nat * pow2(i as nat);
            lemma_pow2_unfold((i + 1) as nat);
            assert(m as nat * pow2((i + 1) as nat) == 2 * x) by (nonlinear_arith)
                requires
                    pow2((i + 1) as nat) == 2 * pow2(i as nat),
                    x == m as nat * pow2(i as nat),
            ;
            vstd::arithmetic::div_mod::lemma_mul_mod_noop_right(2, x as int, divisor as int);
        }
        r = (2 * r) % divisor;
        i = i + 1;
    }
    r
}

impl core::ops::Rem for Binary32 {
    type Output = Binary32;

    fn rem(self, rhs: Binary32) -> (r: Binary32) {
        let a: u32 = self.bits % SIGN_WEIGHT;
        let b: u32 = rhs.bits % SIGN_WEIGHT;
        if a >= INFINITE_INDEX || b > INFINITE_INDEX || b == 0 {
            return Binary32 { bits: NAN_BITS };
        }
        if b == INFINITE_INDEX {
            return self;
        }
        let (ma, ea) = self.parts();
        let (mb, eb) = rhs.parts();
        let ghost i = lemma_remainder_is_magnitude(ma as nat, ea as nat, mb as nat, eb as nat);
        proof {
            lemma_units_positive(rhs);
            lemma_index_of(i);
        }
        if ea < eb {
            proof {
                lemma_index_of(self.index());
            }
            return self;
        }
        let m: u32 = scaled_remainder(ma, ea - eb, mb);
        let k: u32 = round_units(m as u128, eb);
        proof {
            lemma_magnitude_rounds(i);
        }
        Binary32::with_sign(self.bits >= SIGN_WEIGHT, k)
    }
}

/// The remainder of two magnitudes is a magnitude.
proof fn lemma_remainder_is_magnitude(ma: nat, ea: nat, mb: nat, eb: nat) -> (k: nat)
    requires
        ma < 2 * BINADE,
        ea <= 253,
        0 < mb < 2 * BINADE,
        eb <= 253,
        eb > 0 ==> mb >= BINADE,
    ensures
        k < INFINITE_INDEX,
        magnitude(k) == (ma * pow2(ea)) % (mb * pow2(eb)),
        ea < eb ==> magnitude(k) == ma * pow2(ea),
        ea >= eb ==> magnitude(k) == (ma * pow2((ea - eb) as nat)) % mb * pow2(eb),
{
    let pa = pow2(ea);
    let pb = pow2(eb);
    lemma_pow2_pos(ea);
    lemma_pow2_pos(eb);
    if ea < eb {
        lemma_pow2_unfold(ea + 1);
        lemma_pow2_increases(ea + 1, eb);
        assert(ma * pa < mb * pb) by (nonlinear_arith)
            requires
                ma < 0x100_0000,
                mb >= 0x80_0000,
                2 * pa <= pb,
                pa > 0,
        ;
        vstd::arithmetic::div_mod::lemma_small_mod(ma * pa, mb * pb);
        lemma_narrow_is_magnitude(ma, ea)
    } else {
        let wide = ma * pow2((ea - eb) as nat);
        let m = wide % mb;
        lemma_pow2_adds((ea - eb) as nat, eb);
        assert(ma * pa == pb * wide) by (nonlinear_arith)
            requires
                pa == pow2((ea - eb) as nat) * pb,
                wide == ma * pow2((ea - eb) as nat),
        ;
        assert(mb * pb == pb * mb) by (nonlinear_arith);
        vstd::arithmetic::div_mod::lemma_truncate_middle(wide as int, pb as int, mb as int);
        assert(m * pb == pb * m) by (nonlinear_arith);
        lemma_narrow_is_magnitude(m, eb)
    }
}

/// The significand and exponent of a magnitude.
proof fn lemma_parts(k: nat) -> (r: (nat, nat))
    requires
        k < INFINITE_INDEX,
    ensures
        magnitude(k) == r.0 * pow2(r.1),
        r.0 < 2 * BINADE,
        r.1 <= 253,
        r.1 > 0 ==> r.0 >= BINADE,
        k > 0 ==> r.0 > 0,
{
    let b = BINADE as nat;
    if k < b {
        vstd::arithmetic::power2::lemma2_to64();
        (k, 0)
    } else {
        (b + k % b, (k / b - 1) as nat)
    }
}

/// The remainder of finite numbers is finite, keeps the sign of the dividend, and is exact.
pub proof fn lemma_remainder(a: Binary32, b: Binary32)
    requires
        a.is_finite(),
        b.is_finite(),
        !b.is_zero(),
    ensures
        (a % b).is_finite(),
        (a % b).negative() == a.negative(),
        (a % b).units() == a.units() % b.units(),
        (a % b).units() < b.units(),
{
    let (ma, ea) = lemma_parts(a.index());
    let (mb, eb) = lemma_parts(b.index());
    let k = lemma_remainder_is_magnitude(ma, ea, mb, eb);
    lemma_index_of(k);
    lemma_units_positive(b);
}

impl vstd::std_specs::ops::RemSpecImpl for Binary32 {
    open spec fn obeys_rem_spec() -> bool {
        true
    }

    open spec fn rem_req(self, rhs: Binary32) -> bool {
        true
    }

    open spec fn rem_spec(self, rhs: Binary32) -> Binary32 {
        self.spec_euclidean_mod(rhs)
    }
}

} // verus!
