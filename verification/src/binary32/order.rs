//! Comparison: numbers are ordered by value, the two zeros are equal, and a NaN compares with nothing.

use crate::binary32::encoding::{Binary32, INFINITE_INDEX, SIGN_WEIGHT};
use core::cmp::Ordering;
use vstd::prelude::*;

verus! {

impl Binary32 {
    /// The order of the numbers that are not NaN; the meaning of `<` in contracts.
    pub open spec fn spec_lt(self, rhs: Binary32) -> bool {
        !self.is_nan() && !rhs.is_nan() && self.rank() < rhs.rank()
    }

    pub open spec fn spec_gt(self, rhs: Binary32) -> bool {
        rhs.spec_lt(self)
    }

    pub open spec fn spec_le(self, rhs: Binary32) -> bool {
        !self.is_nan() && !rhs.is_nan() && self.rank() <= rhs.rank()
    }

    pub open spec fn spec_ge(self, rhs: Binary32) -> bool {
        rhs.spec_le(self)
    }

    /// Equality of value: what the executable `==` decides.
    pub open spec fn same_value(self, rhs: Binary32) -> bool {
        !self.is_nan() && !rhs.is_nan() && self.rank() == rhs.rank()
    }
}

/// The place of a number in the order.
fn signed_index(x: Binary32) -> (r: i64)
    ensures
        r == x.rank(),
{
    let k: i64 = (x.bits % SIGN_WEIGHT) as i64;
    if x.bits >= SIGN_WEIGHT {
        -k
    } else {
        k
    }
}

impl PartialEq for Binary32 {
    fn eq(&self, other: &Binary32) -> (r: bool) {
        self.bits % SIGN_WEIGHT <= INFINITE_INDEX && other.bits % SIGN_WEIGHT <= INFINITE_INDEX
            && signed_index(*self) == signed_index(*other)
    }
}

impl vstd::std_specs::cmp::PartialEqSpecImpl for Binary32 {
    open spec fn obeys_eq_spec() -> bool {
        true
    }

    open spec fn eq_spec(&self, other: &Binary32) -> bool {
        self.same_value(*other)
    }
}

impl PartialOrd for Binary32 {
    fn partial_cmp(&self, other: &Binary32) -> (r: Option<Ordering>) {
        if self.bits % SIGN_WEIGHT > INFINITE_INDEX || other.bits % SIGN_WEIGHT > INFINITE_INDEX {
            return None;
        }
        let a: i64 = signed_index(*self);
        let b: i64 = signed_index(*other);
        if a < b {
            Some(Ordering::Less)
        } else if a > b {
            Some(Ordering::Greater)
        } else {
            Some(Ordering::Equal)
        }
    }
}

impl vstd::std_specs::cmp::PartialOrdSpecImpl for Binary32 {
    open spec fn obeys_partial_cmp_spec() -> bool {
        true
    }

    open spec fn partial_cmp_spec(&self, other: &Binary32) -> Option<Ordering> {
        if self.is_nan() || other.is_nan() {
            None
        } else if self.rank() < other.rank() {
            Some(Ordering::Less)
        } else if self.rank() > other.rank() {
            Some(Ordering::Greater)
        } else {
            Some(Ordering::Equal)
        }
    }
}

} // verus!
