//! Rounding to nearest, ties to even.

use crate::binary32::encoding::{
    lemma_magnitude_increases, lemma_magnitude_step, magnitude, BINADE, INFINITE_INDEX,
};
use vstd::arithmetic::power2::{lemma_pow2_adds, lemma_pow2_pos, lemma_pow2_unfold, pow2};
use vstd::prelude::*;

verus! {

/// `k` is the index that `numerator / denominator` units round to: neither midpoint between `k` and
/// its neighbours lies strictly on the far side, and a midpoint itself goes to the even index. An
/// amount past the midpoint above the last finite magnitude goes to infinity.
pub open spec fn rounds_to(numerator: nat, denominator: nat, k: nat) -> bool {
    &&& k <= INFINITE_INDEX
    &&& k > 0 ==> {
        let twice_mid = (magnitude((k - 1) as nat) + magnitude(k)) * denominator;
        twice_mid < 2 * numerator || (twice_mid == 2 * numerator && k % 2 == 0)
    }
    &&& k < INFINITE_INDEX ==> {
        let twice_mid = (magnitude(k) + magnitude(k + 1)) * denominator;
        2 * numerator < twice_mid || (2 * numerator == twice_mid && k % 2 == 0)
    }
}

/// The index that `numerator / denominator` units round to.
pub open spec fn rounded(numerator: nat, denominator: nat) -> nat {
    choose|k: nat| rounds_to(numerator, denominator, k)
}

/// There is at most one index to round to.
pub proof fn lemma_rounding_is_unique(numerator: nat, denominator: nat, i: nat, j: nat)
    requires
        denominator > 0,
        rounds_to(numerator, denominator, i),
        rounds_to(numerator, denominator, j),
    ensures
        i == j,
{
    lemma_rounding_order(numerator, denominator, i, j);
    lemma_rounding_order(numerator, denominator, j, i);
}

proof fn lemma_rounding_order(numerator: nat, denominator: nat, i: nat, j: nat)
    requires
        denominator > 0,
        rounds_to(numerator, denominator, i),
        rounds_to(numerator, denominator, j),
    ensures
        i >= j,
{
    let above = magnitude(i) + magnitude(i + 1);
    let below = magnitude((j - 1) as nat) + magnitude(j);
    if i + 1 < j {
        lemma_magnitude_increases(i, (j - 1) as nat);
        lemma_magnitude_increases(i + 1, j);
        assert(above * denominator < below * denominator) by (nonlinear_arith)
            requires
                above < below,
                denominator > 0,
        ;
    } else if i + 1 == j {
        assert(i % 2 == 0 && j % 2 == 0);
    }
}

/// `rounded` is the index that `rounds_to` admits.
pub proof fn lemma_rounded(numerator: nat, denominator: nat, k: nat)
    requires
        denominator > 0,
        rounds_to(numerator, denominator, k),
    ensures
        rounded(numerator, denominator) == k,
{
    lemma_rounding_is_unique(numerator, denominator, k, rounded(numerator, denominator));
}

/// The amount `(m + t) * 2^u / 2^base` units lies between the midpoints around `k`, where `t` is zero
/// if `inexact` is false and anything strictly between zero and one if it is true.
pub open spec fn between_midpoints(m: nat, u: nat, base: nat, inexact: bool, k: nat) -> bool {
    let twice = 2 * m * pow2(u);
    &&& k > 0 ==> {
        let twice_mid = (magnitude((k - 1) as nat) + magnitude(k)) * pow2(base);
        twice_mid < twice || (twice_mid == twice && (inexact || k % 2 == 0))
    }
    &&& {
        let twice_mid = (magnitude(k) + magnitude(k + 1)) * pow2(base);
        if inexact {
            2 * (m + 1) * pow2(u) <= twice_mid
        } else {
            twice < twice_mid || (twice == twice_mid && k % 2 == 0)
        }
    }
}

/// The magnitude of the index that is `d` binades and `q` steps from zero.
proof fn lemma_magnitude_at(d: nat, q: nat)
    requires
        q <= 2 * BINADE,
        d == 0 || q >= BINADE,
    ensures
        magnitude(d * BINADE as nat + q) == q * pow2(d),
{
    let b = BINADE as nat;
    let k = d * b + q;
    assert(pow2(0) == 1) by {
        vstd::arithmetic::power2::lemma2_to64();
    }
    if q < b {
        assert(d * b == 0) by (nonlinear_arith)
            requires
                d == 0,
        ;
        assert(q * 1 == q);
    } else if q < 2 * b {
        assert(k / b == d + 1 && k % b == q - b) by (nonlinear_arith)
            requires
                b == 0x80_0000,
                k == d * b + q,
                b <= q < 2 * b,
        ;
    } else {
        assert(k / b == d + 2 && k % b == 0) by (nonlinear_arith)
            requires
                b == 0x80_0000,
                k == d * b + q,
                q == 2 * b,
        ;
        lemma_pow2_unfold(d + 1);
        assert(b * (2 * pow2(d)) == 2 * b * pow2(d)) by (nonlinear_arith);
    }
}

/// The magnitudes around the index that is `d` binades and `q` steps from zero, twice the midpoints
/// scaled by `2^base`.
proof fn lemma_midpoints_at(d: nat, q: nat, base: nat)
    requires
        q <= 2 * BINADE,
        d == 0 || q >= BINADE,
    ensures
        ({
            let k = d * BINADE as nat + q;
            let g = pow2(base + d);
            &&& k % 2 == q % 2
            &&& k > 0 ==> {
                let low = (magnitude((k - 1) as nat) + magnitude(k)) * pow2(base);
                &&& low < 2 * q * g
                &&& d == 0 || q > BINADE ==> low == 2 * q * g - g
            }
            &&& {
                let high = (magnitude(k) + magnitude(k + 1)) * pow2(base);
                &&& high > 2 * q * g
                &&& q < 2 * BINADE ==> high == 2 * q * g + g
            }
        }),
{
    let b = BINADE as nat;
    let k = d * b + q;
    let c = pow2(base);
    let w = pow2(d);
    let g = pow2(base + d);
    lemma_pow2_adds(base, d);
    lemma_pow2_pos(base);
    lemma_pow2_pos(d);
    lemma_magnitude_at(d, q);
    assert(k % 2 == q % 2) by (nonlinear_arith)
        requires
            b == 0x80_0000,
            k == d * b + q,
    ;
    if k > 0 {
        let low = (magnitude((k - 1) as nat) + magnitude(k)) * c;
        lemma_magnitude_step((k - 1) as nat);
        assert(low < 2 * q * g) by (nonlinear_arith)
            requires
                low == (magnitude((k - 1) as nat) + magnitude(k)) * c,
                magnitude((k - 1) as nat) < magnitude(k),
                magnitude(k) == q * w,
                g == c * w,
                c > 0,
        ;
        if d == 0 || q > b {
            assert(d == 0 ==> d * b == 0) by (nonlinear_arith);
            lemma_magnitude_at(d, (q - 1) as nat);
            assert(low == 2 * q * g - g) by (nonlinear_arith)
                requires
                    low == ((q - 1) * w + q * w) * c,
                    g == c * w,
            ;
        }
    }
    let high = (magnitude(k) + magnitude(k + 1)) * c;
    lemma_magnitude_step(k);
    assert(high > 2 * q * g) by (nonlinear_arith)
        requires
            high == (magnitude(k) + magnitude(k + 1)) * c,
            magnitude(k) < magnitude(k + 1),
            magnitude(k) == q * w,
            g == c * w,
            c > 0,
    ;
    if q < 2 * b {
        lemma_magnitude_at(d, q + 1);
        assert(high == 2 * q * g + g) by (nonlinear_arith)
            requires
                high == (q * w + (q + 1) * w) * c,
                g == c * w,
        ;
    }
}

/// Rounding `m` at the bit of weight `2^s`: the quotient goes up past the half, and at the half if
/// the amount is inexact or the quotient odd.
proof fn lemma_between_at(m: nat, u: nat, base: nat, inexact: bool, d: nat, s: nat, q: nat, up: bool)
    requires
        s >= 1,
        base + d == u + s,
        q == m / pow2(s),
        q < 2 * BINADE,
        d == 0 || q >= BINADE,
        ({
            let r = m % pow2(s);
            let half = pow2((s - 1) as nat);
            up == (r > half || (r == half && (inexact || q % 2 == 1)))
        }),
    ensures
        between_midpoints(m, u, base, inexact, d * BINADE as nat + q + if up { 1nat } else { 0 }),
{
    let p = pow2(s);
    let r = m % p;
    let half = pow2((s - 1) as nat);
    let v = pow2(u);
    let g = pow2(base + d);
    lemma_pow2_pos(s);
    lemma_pow2_pos(u);
    lemma_pow2_unfold(s);
    lemma_pow2_adds(u, s);
    vstd::arithmetic::div_mod::lemma_fundamental_div_mod(m as int, p as int);
    vstd::arithmetic::div_mod::lemma_mod_bound(m as int, p as int);
    assert(p * q == q * p) by (nonlinear_arith);
    let twice = 2 * m * v;
    assert(twice == 2 * q * g + 2 * (r * v)) by (nonlinear_arith)
        requires
            twice == 2 * m * v,
            m == q * p + r,
            g == v * p,
    ;
    assert(g == 2 * (half * v)) by (nonlinear_arith)
        requires
            g == v * p,
            p == 2 * half,
    ;
    assert(2 * (m + 1) * v == twice + 2 * v) by (nonlinear_arith)
        requires
            twice == 2 * m * v,
    ;
    let q2 = if up { q + 1 } else { q };
    lemma_midpoints_at(d, q2, base);
    if up {
        assert(2 * q2 * g == 2 * q * g + 2 * g) by (nonlinear_arith)
            requires
                q2 == q + 1,
        ;
        assert(r * v >= half * v) by (nonlinear_arith)
            requires
                r >= half,
        ;
        assert(r * v + v <= g) by (nonlinear_arith)
            requires
                r + 1 <= p,
                g == v * p,
        ;
        if r > half {
            assert(r * v > half * v) by (nonlinear_arith)
                requires
                    r > half,
                    v > 0,
            ;
        }
    } else {
        assert(r * v <= half * v) by (nonlinear_arith)
            requires
                r <= half,
        ;
        if r < half {
            assert(r * v + v <= half * v) by (nonlinear_arith)
                requires
                    r + 1 <= half,
            ;
        }
        assert(r * v >= 0);
    }
}

/// An index past the last one is capped at infinity.
proof fn lemma_between_capped(m: nat, u: nat, base: nat, inexact: bool, k: nat)
    requires
        between_midpoints(m, u, base, inexact, k),
        k > INFINITE_INDEX,
    ensures
        ({
            let top = INFINITE_INDEX as nat;
            (magnitude((top - 1) as nat) + magnitude(top)) * pow2(base) < 2 * m * pow2(u)
        }),
{
    let top = INFINITE_INDEX as nat;
    lemma_magnitude_increases((top - 1) as nat, (k - 1) as nat);
    lemma_magnitude_increases(top, k);
    lemma_pow2_pos(base);
    let a = magnitude((top - 1) as nat) + magnitude(top);
    let b = magnitude((k - 1) as nat) + magnitude(k);
    let c = pow2(base);
    assert(a * c < b * c) by (nonlinear_arith)
        requires
            a < b,
            c > 0,
    ;
}

/// The widest significand that the operations form.
pub const MAX_SIGNIFICAND: u128 = 0x4000_0000_0000_0000_0000_0000_0000_0000;

/// The widest scale exponent that the operations form.
pub const MAX_SCALE: u32 = 2000;

pub proof fn lemma_pow2_128()
    ensures
        pow2(24) == 0x100_0000,
        pow2(25) == 0x200_0000,
        pow2(40) == 0x100_0000_0000,
        pow2(64) == 0x1_0000_0000_0000_0000,
        pow2(126) == MAX_SIGNIFICAND,
        pow2(127) == 0x8000_0000_0000_0000_0000_0000_0000_0000,
{
    vstd::arithmetic::power2::lemma2_to64();
    vstd::arithmetic::power2::lemma2_to64_rest();
    lemma_pow2_adds(63, 63);
    lemma_pow2_adds(126, 1);
}

pub proof fn lemma_pow2_increases(i: nat, j: nat)
    requires
        i <= j,
    ensures
        pow2(i) <= pow2(j),
{
    if i < j {
        vstd::arithmetic::power2::lemma_pow2_strictly_increases(i, j);
    }
}

/// Two to the power `s`.
pub fn power_of_two(s: u32) -> (p: u128)
    requires
        s < 128,
    ensures
        p == pow2(s as nat),
{
    let mut p: u128 = 1;
    let mut i: u32 = 0;
    proof {
        lemma_pow2_128();
        vstd::arithmetic::power2::lemma2_to64();
    }
    while i < s
        invariant
            i <= s < 128,
            p == pow2(i as nat),
        decreases s - i,
    {
        proof {
            lemma_pow2_128();
            lemma_pow2_increases(i as nat, 126);
            lemma_pow2_unfold((i + 1) as nat);
        }
        p = p * 2;
        i = i + 1;
    }
    p
}

/// The number of binary digits of `m`.
fn bit_length(m: u128) -> (l: u32)
    requires
        m < MAX_SIGNIFICAND,
    ensures
        l <= 126,
        m < pow2(l as nat),
        m > 0 ==> l > 0 && pow2((l - 1) as nat) <= m,
        m == 0 ==> l == 0,
{
    let mut t: u128 = m;
    let mut l: u32 = 0;
    proof {
        lemma_pow2_128();
        vstd::arithmetic::power2::lemma2_to64();
        assert(m as nat == t as nat * pow2(0));
    }
    while t > 0
        invariant
            m < MAX_SIGNIFICAND,
            l <= 126,
            t as nat * pow2(l as nat) <= m < (t as nat + 1) * pow2(l as nat),
            t == 0 && m > 0 ==> l > 0 && pow2((l - 1) as nat) <= m,
            m == 0 ==> l == 0 && t == 0,
        decreases t,
    {
        let half: u128 = t / 2;
        proof {
            let c = pow2(l as nat);
            lemma_pow2_128();
            lemma_pow2_pos(l as nat);
            lemma_pow2_unfold((l + 1) as nat);
            assert(c <= m) by (nonlinear_arith)
                requires
                    t as nat * c <= m,
                    t >= 1,
            ;
            if l >= 126 {
                lemma_pow2_increases(126, l as nat);
            }
            assert(half as nat * (2 * c) <= m < (half as nat + 1) * (2 * c)) by (nonlinear_arith)
                requires
                    t as nat * c <= m < (t as nat + 1) * c,
                    half == t / 2,
            ;
        }
        t = half;
        l = l + 1;
    }
    assert((t as nat + 1) * pow2(l as nat) == pow2(l as nat)) by (nonlinear_arith)
        requires
            t == 0,
    ;
    l
}

/// Rounds `(m + t) * 2^u / 2^base` units, where `t` is zero if `inexact` is false and anything
/// strictly between zero and one if it is true.
pub fn round_scaled(m: u128, u: u32, base: u32, inexact: bool) -> (k: u32)
    requires
        m < MAX_SIGNIFICAND,
        u <= MAX_SCALE,
        base <= MAX_SCALE,
        inexact ==> m >= 0x200_0000,
    ensures
        k <= INFINITE_INDEX,
        k < INFINITE_INDEX ==> between_midpoints(m as nat, u as nat, base as nat, inexact, k as nat),
        k == INFINITE_INDEX ==> {
            let twice_mid = (magnitude((k - 1) as nat) + magnitude(k as nat)) * pow2(base as nat);
            twice_mid <= 2 * m * pow2(u as nat)
        },
{
    if m == 0 {
        proof {
            lemma_pow2_pos(base as nat);
            lemma_magnitude_step(0);
            assert(2 * 0 * pow2(u as nat) == 0);
            assert(1 * pow2(base as nat) > 0);
        }
        return 0;
    }
    let l: u32 = bit_length(m);
    proof {
        lemma_pow2_128();
        if inexact && l < 26 {
            lemma_pow2_increases(l as nat, 25);
        }
    }
    let grid: u32 = if u + l > base + 24 {
        u + l - 24
    } else {
        base
    };
    let d: u32 = grid - base;
    let mut steps: u128 = 0;
    if grid <= u {
        let w: u128 = power_of_two(u - grid);
        proof {
            let ghost s = (u - grid) as nat;
            lemma_pow2_adds(l as nat, s);
            lemma_pow2_increases(l as nat + s, 24);
            lemma_pow2_pos(s);
            assert((m as nat) * (w as nat) < pow2(24)) by (nonlinear_arith)
                requires
                    m < pow2(l as nat),
                    w == pow2(s),
                    pow2(l as nat + s) == pow2(l as nat) * pow2(s),
                    pow2(l as nat + s) <= pow2(24),
                    pow2(s) > 0,
            ;
            if d > 0 {
                assert(l as nat + s == 24);
                lemma_pow2_unfold(l as nat);
                assert((m as nat) * (w as nat) * 2 >= pow2(24)) by (nonlinear_arith)
                    requires
                        m * 2 >= pow2(l as nat),
                        w == pow2(s),
                        pow2(24) == pow2(l as nat) * pow2(s),
                ;
            }
        }
        steps = m * w;
        proof {
            let q = steps as nat;
            let v = pow2(u as nat);
            let g = pow2(grid as nat);
            lemma_pow2_adds(grid as nat, (u - grid) as nat);
            lemma_midpoints_at(d as nat, q, base as nat);
            assert(2 * m * v == 2 * q * g) by (nonlinear_arith)
                requires
                    q == m as nat * w as nat,
                    v == g * w,
            ;
            lemma_pow2_pos(grid as nat);
            assert(between_midpoints(
                m as nat,
                u as nat,
                base as nat,
                inexact,
                (d as nat) * BINADE as nat + q,
            ));
        }
    } else {
        let s: u32 = grid - u;
        if s < 128 {
            let p: u128 = power_of_two(s);
            proof {
                lemma_pow2_unfold(s as nat);
                lemma_pow2_pos((s - 1) as nat);
            }
            let q: u128 = m / p;
            let r: u128 = m % p;
            let half: u128 = p / 2;
            let up: bool = r > half || (r == half && (inexact || q % 2 == 1));
            proof {
                assert(m < pow2(24) * pow2(s as nat)) by {
                    lemma_pow2_adds(24, s as nat);
                    lemma_pow2_increases(l as nat, 24 + s as nat);
                }
                assert(q < pow2(24)) by (nonlinear_arith)
                    requires
                        m < pow2(24) * pow2(s as nat),
                        p == pow2(s as nat),
                        q == m / p,
                        p > 0,
                ;
                if d > 0 {
                    assert(l == 24 + s);
                    lemma_pow2_adds(23, s as nat);
                    vstd::arithmetic::power2::lemma2_to64();
                    assert(q >= pow2(23)) by (nonlinear_arith)
                        requires
                            m >= pow2(23) * pow2(s as nat),
                            p == pow2(s as nat),
                            q == m / p,
                            p > 0,
                    ;
                }
                lemma_between_at(
                    m as nat,
                    u as nat,
                    base as nat,
                    inexact,
                    d as nat,
                    s as nat,
                    q as nat,
                    up,
                );
            }
            steps = if up {
                q + 1
            } else {
                q
            };
        } else {
            proof {
                lemma_pow2_increases(127, (s - 1) as nat);
                lemma_pow2_unfold(s as nat);
                vstd::arithmetic::div_mod::lemma_small_mod(m as nat, pow2(s as nat));
                vstd::arithmetic::div_mod::lemma_basic_div(m as int, pow2(s as nat) as int);
                lemma_between_at(
                    m as nat,
                    u as nat,
                    base as nat,
                    inexact,
                    d as nat,
                    s as nat,
                    0,
                    false,
                );
            }
        }
    }
    let k: u64 = (d as u64) * (BINADE as u64) + (steps as u64);
    if k <= INFINITE_INDEX as u64 {
        k as u32
    } else {
        proof {
            lemma_between_capped(m as nat, u as nat, base as nat, inexact, k as nat);
        }
        INFINITE_INDEX
    }
}

} // verus!
