//! The square root.

use crate::binary32::arithmetic::UNIT_SCALE;
use crate::binary32::encoding::{
    lemma_magnitude_increases, magnitude, nan, pattern, Binary32, INFINITE_INDEX, NAN_BITS,
    SIGN_WEIGHT,
};
use crate::binary32::rounding::{between_midpoints, power_of_two, round_scaled};
use vstd::arithmetic::power2::{lemma_pow2_adds, lemma_pow2_pos, pow2};
use vstd::prelude::*;

verus! {

/// `k` is the index that the square root of `n` units rounds to: the squares of the midpoints around
/// it, compared with `n`, say so.
pub open spec fn root_rounds_to(n: nat, k: nat) -> bool {
    &&& k <= INFINITE_INDEX
    &&& k > 0 ==> {
        let twice_mid = magnitude((k - 1) as nat) + magnitude(k);
        twice_mid * twice_mid < 4 * n || (twice_mid * twice_mid == 4 * n && k % 2 == 0)
    }
    &&& k < INFINITE_INDEX ==> {
        let twice_mid = magnitude(k) + magnitude(k + 1);
        4 * n < twice_mid * twice_mid || (4 * n == twice_mid * twice_mid && k % 2 == 0)
    }
}

/// The index that the square root of `n` units rounds to.
pub open spec fn rounded_root(n: nat) -> nat {
    choose|k: nat| root_rounds_to(n, k)
}

proof fn lemma_root_order(n: nat, i: nat, j: nat)
    requires
        root_rounds_to(n, i),
        root_rounds_to(n, j),
    ensures
        i >= j,
{
    let above = magnitude(i) + magnitude(i + 1);
    let below = magnitude((j - 1) as nat) + magnitude(j);
    if i + 1 < j {
        lemma_magnitude_increases(i, (j - 1) as nat);
        lemma_magnitude_increases(i + 1, j);
        assert(above * above < below * below) by (nonlinear_arith)
            requires
                above < below,
        ;
    } else if i + 1 == j {
        assert(i % 2 == 0 && j % 2 == 0);
    }
}

/// There is at most one index that a root rounds to.
pub proof fn lemma_rounded_root(n: nat, k: nat)
    requires
        root_rounds_to(n, k),
    ensures
        rounded_root(n) == k,
{
    lemma_root_order(n, k, rounded_root(n));
    lemma_root_order(n, rounded_root(n), k);
}

/// The largest whole number whose square is at most `n`.
fn integer_root(n: u128) -> (r: u128)
    requires
        n < 0x40_0000_0000_0000_0000_0000,
    ensures
        r * r <= n < (r + 1) * (r + 1),
        r < 0x800_0000_0000,
{
    let mut low: u128 = 0;
    let mut high: u128 = 0x800_0000_0000;
    while high - low > 1
        invariant
            low < high <= 0x800_0000_0000,
            low * low <= n < high * high,
        decreases high - low,
    {
        let mid: u128 = low + (high - low) / 2;
        assert(mid * mid <= 0x800_0000_0000 * 0x800_0000_0000) by (nonlinear_arith)
            requires
                mid <= 0x800_0000_0000,
        ;
        if mid * mid <= n {
            low = mid;
        } else {
            high = mid;
        }
    }
    low
}

proof fn lemma_root_from(r: nat, h: nat, inexact: bool, k: nat, n: nat)
    requires
        ({
            let x = r * pow2(h);
            let y = (r + 1) * pow2(h);
            if inexact {
                x * x < n < y * y
            } else {
                x * x == n
            }
        }),
        k <= INFINITE_INDEX,
        k < INFINITE_INDEX ==> between_midpoints(r, h, 0, inexact, k),
        k == INFINITE_INDEX ==> {
            let twice_mid = (magnitude((k - 1) as nat) + magnitude(k)) * pow2(0);
            twice_mid <= 2 * r * pow2(h)
        },
    ensures
        rounded_root(n) == k,
{
    vstd::arithmetic::power2::lemma2_to64();
    let v = pow2(h);
    let x = r * v;
    let y = (r + 1) * v;
    assert(2 * r * v == 2 * x) by (nonlinear_arith)
        requires
            x == r * v,
    ;
    assert(2 * (r + 1) * v == 2 * y) by (nonlinear_arith)
        requires
            y == (r + 1) * v,
    ;
    assert((2 * x) * (2 * x) == 4 * (x * x)) by (nonlinear_arith);
    assert((2 * y) * (2 * y) == 4 * (y * y)) by (nonlinear_arith);
    if k > 0 {
        let mid = magnitude((k - 1) as nat) + magnitude(k);
        assert(mid * 1 == mid);
        assert(mid <= 2 * x);
        assert(mid * mid <= (2 * x) * (2 * x)) by (nonlinear_arith)
            requires
                mid <= 2 * x,
        ;
        if mid < 2 * x {
            assert(mid * mid < (2 * x) * (2 * x)) by (nonlinear_arith)
                requires
                    mid < 2 * x,
            ;
        }
    }
    if k < INFINITE_INDEX {
        let mid = magnitude(k) + magnitude(k + 1);
        assert(mid * 1 == mid);
        if inexact {
            assert((2 * y) * (2 * y) <= mid * mid) by (nonlinear_arith)
                requires
                    2 * y <= mid,
            ;
        } else if 2 * x < mid {
            assert((2 * x) * (2 * x) < mid * mid) by (nonlinear_arith)
                requires
                    2 * x < mid,
            ;
        }
    }
    assert(root_rounds_to(n, k));
    lemma_rounded_root(n, k);
}

impl Binary32 {
    /// The exact square root, rounded.
    pub open spec fn root(self) -> Binary32 {
        if self.is_nan() || (self.negative() && !self.is_zero()) {
            nan()
        } else if self.is_zero() || self.is_infinite() {
            self
        } else {
            pattern(false, rounded_root(self.units() * pow2(UNIT_SCALE as nat)))
        }
    }

    pub fn sqrt(self) -> (r: Binary32)
        ensures
            r == self.root(),
    {
        let a: u32 = self.bits % SIGN_WEIGHT;
        if a > INFINITE_INDEX {
            return Binary32 { bits: NAN_BITS };
        }
        if a == 0 {
            return self;
        }
        if self.bits >= SIGN_WEIGHT {
            return Binary32 { bits: NAN_BITS };
        }
        if a == INFINITE_INDEX {
            return self;
        }
        let (m, e) = self.parts();
        let s: u32 = if e % 2 == 1 {
            60
        } else {
            61
        };
        let h: u32 = (e + UNIT_SCALE - s) / 2;
        let w: u128 = power_of_two(s);
        proof {
            vstd::arithmetic::power2::lemma2_to64_rest();
            assert(m * w < 0x40_0000_0000_0000_0000_0000) by (nonlinear_arith)
                requires
                    m < 0x100_0000,
                    w <= 0x2000_0000_0000_0000,
            ;
        }
        let wide: u128 = (m as u128) * w;
        let r: u128 = integer_root(wide);
        assert(r * r <= 0x800_0000_0000 * 0x800_0000_0000) by (nonlinear_arith)
            requires
                r <= 0x800_0000_0000,
        ;
        let inexact: bool = r * r != wide;
        proof {
            assert(wide >= 0x1000_0000_0000_0000) by (nonlinear_arith)
                requires
                    wide == m * w,
                    m >= 1,
                    w >= 0x1000_0000_0000_0000,
            ;
            assert(r >= 0x200_0000) by (nonlinear_arith)
                requires
                    wide < (r + 1) * (r + 1),
                    wide >= 0x1000_0000_0000_0000,
            ;
        }
        let k: u32 = round_scaled(r, h, 0, inexact);
        proof {
            let n = self.units() * pow2(UNIT_SCALE as nat);
            let v = pow2(h as nat);
            let x = r as nat * v;
            let y = (r as nat + 1) * v;
            lemma_pow2_adds(h as nat, h as nat);
            lemma_pow2_adds((h + h) as nat, s as nat);
            lemma_pow2_adds(e as nat, UNIT_SCALE as nat);
            lemma_pow2_pos(h as nat);
            assert(n == wide * (v * v)) by (nonlinear_arith)
                requires
                    n == (m * pow2(e as nat)) * pow2(149),
                    wide == m * w,
                    w == pow2(s as nat),
                    pow2((e + 149) as nat) == pow2(e as nat) * pow2(149),
                    pow2((h + h + s) as nat) == pow2((h + h) as nat) * pow2(s as nat),
                    pow2((h + h) as nat) == v * v,
                    e + 149 == h + h + s,
            ;
            assert(x * x == (r * r) * (v * v)) by (nonlinear_arith)
                requires
                    x == r as nat * v,
            ;
            assert(y * y == ((r + 1) * (r + 1)) * (v * v)) by (nonlinear_arith)
                requires
                    y == (r as nat + 1) * v,
            ;
            assert(v * v > 0) by (nonlinear_arith)
                requires
                    v > 0,
            ;
            if inexact {
                assert((r * r) * (v * v) < wide * (v * v)) by (nonlinear_arith)
                    requires
                        r * r < wide,
                        v * v > 0,
                ;
                assert(wide * (v * v) < ((r + 1) * (r + 1)) * (v * v)) by (nonlinear_arith)
                    requires
                        wide < (r + 1) * (r + 1),
                        v * v > 0,
                ;
            }
            lemma_root_from(r as nat, h as nat, inexact, k as nat, n);
        }
        Binary32::with_sign(false, k)
    }
}

} // verus!
