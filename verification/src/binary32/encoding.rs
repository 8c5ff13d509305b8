//! The binary32 format: what a bit pattern stands for.

use vstd::arithmetic::power2::{lemma_pow2_pos, lemma_pow2_unfold, pow2};
use vstd::prelude::*;

verus! {

/// The pattern index of infinity: the first index that stands for no finite magnitude.
pub const INFINITE_INDEX: u32 = 0x7f80_0000;

/// The weight of the sign bit.
pub const SIGN_WEIGHT: u32 = 0x8000_0000;

/// The number of fractions in one binade, and the weight of the lowest exponent bit.
pub const BINADE: u32 = 0x80_0000;

/// The quiet pattern that every invalid operation returns.
pub const NAN_BITS: u32 = 0x7fc0_0000;

/// A binary32 number, held by its bit pattern.
///
/// In contracts `==` compares patterns; the executable `==` and the order follow IEEE 754 (the two
/// zeros are equal, and a NaN is equal to nothing and unordered).
#[derive(Clone, Copy, Debug)]
pub struct Binary32 {
    pub bits: u32,
}

/// The magnitude of the pattern with index `k`, in units of the least subnormal (2 to the -149).
/// Every finite binary32 number is a whole number of these units. Index `INFINITE_INDEX` gets the
/// magnitude that the next binade would start with.
pub open spec fn magnitude(k: nat) -> nat {
    if k < BINADE {
        k
    } else {
        (BINADE + k % (BINADE as nat)) as nat * pow2((k / (BINADE as nat) - 1) as nat)
    }
}

/// The number with the given sign and pattern index.
pub open spec fn pattern(negative: bool, k: nat) -> Binary32 {
    Binary32 { bits: (k + if negative { SIGN_WEIGHT as nat } else { 0 }) as u32 }
}

pub open spec fn nan() -> Binary32 {
    Binary32 { bits: NAN_BITS }
}

impl Binary32 {
    pub open spec fn negative(self) -> bool {
        self.bits >= SIGN_WEIGHT
    }

    /// The pattern without its sign. Magnitudes grow with it.
    pub open spec fn index(self) -> nat {
        (self.bits % SIGN_WEIGHT) as nat
    }

    pub open spec fn is_nan(self) -> bool {
        self.index() > INFINITE_INDEX
    }

    pub open spec fn is_infinite(self) -> bool {
        self.index() == INFINITE_INDEX
    }

    pub open spec fn is_finite(self) -> bool {
        self.index() < INFINITE_INDEX
    }

    pub open spec fn is_zero(self) -> bool {
        self.index() == 0
    }

    /// The magnitude in units of the least subnormal, where the number is finite.
    pub open spec fn units(self) -> nat {
        magnitude(self.index())
    }

    /// The number itself in units of the least subnormal, where it is finite.
    pub open spec fn value(self) -> int {
        if self.negative() {
            -(self.units() as int)
        } else {
            self.units() as int
        }
    }

    /// The place in the order of the numbers that are not NaN: the two zeros share one.
    pub open spec fn rank(self) -> int {
        if self.negative() {
            -(self.index() as int)
        } else {
            self.index() as int
        }
    }
}

/// Consecutive indices: the gap is one unit below the second binade, then doubles in each.
pub proof fn lemma_magnitude_step(k: nat)
    ensures
        magnitude(k) < magnitude(k + 1),
        k + 1 < 2 * BINADE ==> magnitude(k) == k && magnitude(k + 1) == k + 1,
        k >= BINADE ==> magnitude(k + 1) == magnitude(k) + pow2((k / (BINADE as nat) - 1) as nat),
{
    let b = BINADE as nat;
    reveal(vstd::arithmetic::power::pow);
    assert(pow2(0) == 1) by {
        vstd::arithmetic::power2::lemma2_to64();
    }
    if k >= BINADE {
        let e = (k / b - 1) as nat;
        let f = k % b;
        lemma_pow2_pos(e);
        if f + 1 < b {
            assert((k + 1) / b == k / b && (k + 1) % b == f + 1) by (nonlinear_arith)
                requires
                    b == 0x80_0000,
                    f == k % b,
                    f + 1 < b,
            ;
            assert((b + f + 1) * pow2(e) == (b + f) * pow2(e) + pow2(e)) by (nonlinear_arith);
        } else {
            assert((k + 1) / b == k / b + 1 && (k + 1) % b == 0) by (nonlinear_arith)
                requires
                    b == 0x80_0000,
                    f == k % b,
                    f + 1 >= b,
            ;
            lemma_pow2_unfold(e + 1);
            assert(b * (2 * pow2(e)) == (b + (b - 1)) * pow2(e) + pow2(e)) by (nonlinear_arith);
        }
    } else if k + 1 == b {
        assert((k + 1) / b == 1 && (k + 1) % b == 0);
    }
}

/// Magnitudes are strictly increasing in the index.
pub proof fn lemma_magnitude_increases(i: nat, j: nat)
    requires
        i < j,
    ensures
        magnitude(i) < magnitude(j),
    decreases j - i,
{
    lemma_magnitude_step(i);
    if i + 1 < j {
        lemma_magnitude_increases(i + 1, j);
    }
}

} // verus!
