//! Vectors of three numbers. Each operation works component by component, in a fixed order.

use crate::binary32::encoding::Binary32;
use crate::binary32::functions::{one, zero};
use crate::binary32::laws::{
    lemma_adding_zero, lemma_difference_with_itself, lemma_negation, lemma_one_is_neutral,
    lemma_product_commutes, lemma_root_of_one, lemma_sum, lemma_sum_commutes, lemma_zero_product,
};
use vstd::prelude::*;

verus! {

#[derive(Clone, Copy, Debug, PartialEq)]
pub struct Vector3 {
    pub x: Binary32,
    pub y: Binary32,
    pub z: Binary32,
}

#[verifier::allow_in_spec]
pub fn vector(x: Binary32, y: Binary32, z: Binary32) -> (r: Vector3)
    returns
        (Vector3 { x, y, z }),
{
    Vector3 { x, y, z }
}

/// The vector of zeros.
#[verifier::allow_in_spec]
pub fn origin() -> (r: Vector3)
    returns
        vector(zero(), zero(), zero()),
{
    vector(zero(), zero(), zero())
}

#[verifier::allow_in_spec]
pub fn axis_x() -> (r: Vector3)
    returns
        vector(one(), zero(), zero()),
{
    vector(one(), zero(), zero())
}

#[verifier::allow_in_spec]
pub fn axis_y() -> (r: Vector3)
    returns
        vector(zero(), one(), zero()),
{
    vector(zero(), one(), zero())
}

#[verifier::allow_in_spec]
pub fn axis_z() -> (r: Vector3)
    returns
        vector(zero(), zero(), one()),
{
    vector(zero(), zero(), one())
}

impl Vector3 {
    #[verifier::allow_in_spec]
    pub fn plus(self, other: Vector3) -> (r: Vector3)
        returns
            vector(self.x + other.x, self.y + other.y, self.z + other.z),
    {
        vector(self.x + other.x, self.y + other.y, self.z + other.z)
    }

    #[verifier::allow_in_spec]
    pub fn minus(self, other: Vector3) -> (r: Vector3)
        returns
            vector(self.x - other.x, self.y - other.y, self.z - other.z),
    {
        vector(self.x - other.x, self.y - other.y, self.z - other.z)
    }

    #[verifier::allow_in_spec]
    pub fn scaled(self, factor: Binary32) -> (r: Vector3)
        returns
            vector(self.x * factor, self.y * factor, self.z * factor),
    {
        vector(self.x * factor, self.y * factor, self.z * factor)
    }

    /// The vector pointing the other way.
    pub open spec fn reverse(self) -> Vector3 {
        vector(-self.x, -self.y, -self.z)
    }

    pub fn reversed(self) -> (r: Vector3)
        ensures
            r == self.reverse(),
    {
        vector(self.x.negated(), self.y.negated(), self.z.negated())
    }

    #[verifier::allow_in_spec]
    pub fn dot(self, other: Vector3) -> (r: Binary32)
        returns
            self.x * other.x + self.y * other.y + self.z * other.z,
    {
        self.x * other.x + self.y * other.y + self.z * other.z
    }

    pub open spec fn same_value(self, other: Vector3) -> bool {
        self.x.same_value(other.x) && self.y.same_value(other.y) && self.z.same_value(other.z)
    }

    /// Whether two vectors are equal by value in each component.
    pub fn same(self, other: Vector3) -> (r: bool)
        ensures
            r == self.same_value(other),
    {
        self.x == other.x && self.y == other.y && self.z == other.z
    }

    pub open spec fn is_finite(self) -> bool {
        self.x.is_finite() && self.y.is_finite() && self.z.is_finite()
    }

    pub open spec fn is_zero(self) -> bool {
        self.x.is_zero() && self.y.is_zero() && self.z.is_zero()
    }

    /// One over the length.
    pub open spec fn length_reciprocal(self) -> Binary32 {
        self.dot(self).root().reciprocal()
    }

    /// The vector scaled to length one.
    pub open spec fn unit(self) -> Vector3 {
        self.scaled(self.length_reciprocal())
    }

    pub fn normalize(self) -> (r: Vector3)
        ensures
            r == self.unit(),
    {
        self.scaled(self.dot(self).sqrt().recip())
    }

    /// The vector scaled to length one, or zero where it has no direction: where one over its length
    /// is not a positive finite number.
    pub open spec fn unit_or_zero(self) -> Vector3 {
        let r = self.length_reciprocal();
        if r.is_finite() && r > zero() {
            self.scaled(r)
        } else {
            origin()
        }
    }

    pub fn normalize_or_zero(self) -> (r: Vector3)
        ensures
            r == self.unit_or_zero(),
    {
        let reciprocal = self.dot(self).sqrt().recip();
        if reciprocal.finite() && reciprocal > zero() {
            self.scaled(reciprocal)
        } else {
            origin()
        }
    }
}

/// A zero vector has no part along any finite one.
pub proof fn lemma_zero_dot(a: Vector3, b: Vector3)
    requires
        a.is_zero(),
        b.is_finite(),
    ensures
        a.dot(b).is_zero(),
{
    lemma_zero_product(b.x, a.x);
    lemma_zero_product(b.y, a.y);
    lemma_zero_product(b.z, a.z);
    lemma_adding_zero(a.x * b.x, a.y * b.y);
    lemma_adding_zero(a.x * b.x + a.y * b.y, a.z * b.z);
}

/// A finite vector less itself is zero.
pub proof fn lemma_minus_itself(a: Vector3)
    requires
        a.is_finite(),
    ensures
        a.minus(a) == origin(),
{
    lemma_difference_with_itself(a.x);
    lemma_difference_with_itself(a.y);
    lemma_difference_with_itself(a.z);
}

/// Finite vectors scaled by zeros add up to zero.
pub proof fn lemma_scaled_to_zero(a: Vector3, b: Vector3, s: Binary32, t: Binary32)
    requires
        a.is_finite(),
        b.is_finite(),
        s.is_zero(),
        t.is_zero(),
    ensures
        a.scaled(s).plus(b.scaled(t)).is_zero(),
{
    lemma_zero_product(a.x, s);
    lemma_zero_product(a.y, s);
    lemma_zero_product(a.z, s);
    lemma_zero_product(b.x, t);
    lemma_zero_product(b.y, t);
    lemma_zero_product(b.z, t);
    lemma_adding_zero(a.x * s, b.x * t);
    lemma_adding_zero(a.y * s, b.y * t);
    lemma_adding_zero(a.z * s, b.z * t);
}

/// A vector against the axes gives its components.
pub proof fn law_axes_read_the_components(v: Vector3)
    requires
        v.is_finite(),
    ensures
        v.dot(axis_x()).same_value(v.x),
        v.dot(axis_y()).same_value(v.y),
        v.dot(axis_z()).same_value(v.z),
{
    lemma_one_is_neutral(v.x);
    lemma_one_is_neutral(v.y);
    lemma_one_is_neutral(v.z);
    lemma_zero_product(v.x, zero());
    lemma_zero_product(v.y, zero());
    lemma_zero_product(v.z, zero());
    lemma_adding_zero(v.x, v.y * zero());
    lemma_adding_zero(v.x + v.y * zero(), v.z * zero());
    lemma_adding_zero(v.y, v.x * zero());
    lemma_adding_zero(v.x * zero() + v.y, v.z * zero());
    lemma_adding_zero(v.x * zero(), v.y * zero());
    lemma_adding_zero(v.z, v.x * zero() + v.y * zero());
    lemma_sum(v.x * zero(), v.y);
    lemma_sum(v.x * zero() + v.y * zero(), v.z);
    lemma_sum_commutes(v.y, v.x * zero());
}

/// The order does not matter in a sum or in a dot product, and taking away is adding the reverse.
pub proof fn law_vector_algebra(a: Vector3, b: Vector3)
    requires
        a.is_finite(),
        b.is_finite(),
    ensures
        a.plus(b) == b.plus(a),
        a.dot(b) == b.dot(a),
        a.minus(b) == a.plus(b.reverse()),
        a.reverse().reverse() == a,
        a.minus(a) == origin(),
        a.scaled(one()) == a,
{
    lemma_sum_commutes(a.x, b.x);
    lemma_sum_commutes(a.y, b.y);
    lemma_sum_commutes(a.z, b.z);
    lemma_product_commutes(a.x, b.x);
    lemma_product_commutes(a.y, b.y);
    lemma_product_commutes(a.z, b.z);
    lemma_negation(a.x);
    lemma_negation(a.y);
    lemma_negation(a.z);
    lemma_minus_itself(a);
    lemma_one_is_neutral(a.x);
    lemma_one_is_neutral(a.y);
    lemma_one_is_neutral(a.z);
}

/// Each operation works on each component alone.
pub proof fn law_components_stay_apart(a: Vector3, b: Vector3, s: Binary32)
    ensures
        a.plus(b).x == a.x + b.x && a.plus(b).y == a.y + b.y && a.plus(b).z == a.z + b.z,
        a.minus(b).x == a.x - b.x && a.minus(b).y == a.y - b.y && a.minus(b).z == a.z - b.z,
        a.scaled(s).x == a.x * s && a.scaled(s).y == a.y * s && a.scaled(s).z == a.z * s,
        a.reverse().x == -a.x && a.reverse().y == -a.y && a.reverse().z == -a.z,
        a.dot(b) == a.x * b.x + a.y * b.y + a.z * b.z,
        a.same_value(b) <==> a.x.same_value(b.x) && a.y.same_value(b.y) && a.z.same_value(b.z),
        origin().x == zero() && origin().y == zero() && origin().z == zero(),
{
}

/// A vector of length one is its own direction, and zero has none.
pub proof fn law_unit_vector_is_its_own_direction(v: Vector3)
    requires
        v.is_finite(),
    ensures
        v.x * v.x + v.y * v.y + v.z * v.z == one() ==> v.unit() == v && v.unit_or_zero() == v,
        v.is_zero() ==> v.unit_or_zero() == origin(),
{
    lemma_root_of_one();
    lemma_one_is_neutral(v.x);
    lemma_one_is_neutral(v.y);
    lemma_one_is_neutral(v.z);
    if v.is_zero() {
        lemma_zero_dot(v, v);
    }
}

} // verus!
