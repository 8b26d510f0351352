//! Triples of scalars: points, directions and colours as the kernel carries
//! them.
use crate::scalar::Scalar;
use vstd::prelude::*;

verus! {

/// Three scalars. The kernel reads single components and flips signs; every
/// other operation on vectors belongs to the numeric code around it.
#[derive(Clone, Copy, Debug, PartialEq, Eq, Structural)]
pub struct Vec3 {
    pub x: Scalar,
    pub y: Scalar,
    pub z: Scalar,
}

impl Vec3 {
    /// The component on an axis: `x` for 0, `y` for 1, `z` for every other.
    pub open spec fn at(self, i: int) -> Scalar {
        if i == 0 {
            self.x
        } else if i == 1 {
            self.y
        } else {
            self.z
        }
    }

    /// Whether no component is a NaN.
    pub open spec fn is_number(self) -> bool {
        self.x.is_number() && self.y.is_number() && self.z.is_number()
    }

    /// Every component with its sign flipped.
    pub open spec fn negated(self) -> Vec3 {
        Vec3 { x: self.x.negated(), y: self.y.negated(), z: self.z.negated() }
    }

    /// The normal set against a ray, from the product `along` of the normal
    /// with the ray's direction: the normal itself where the product is below
    /// zero, and its opposite where it is not.
    pub open spec fn set_against(self, along: Scalar) -> Vec3 {
        if along.less(Scalar { bits: 0 }) {
            self
        } else {
            self.negated()
        }
    }

    /// The vector with NaN components replaced by zero.
    pub open spec fn without_nan(self) -> Vec3 {
        Vec3 {
            x: if self.x.nan() { Scalar { bits: 0 } } else { self.x },
            y: if self.y.nan() { Scalar { bits: 0 } } else { self.y },
            z: if self.z.nan() { Scalar { bits: 0 } } else { self.z },
        }
    }

    pub fn new(x: Scalar, y: Scalar, z: Scalar) -> (v: Vec3)
        ensures
            v.x == x,
            v.y == y,
            v.z == z,
    {
        Vec3 { x, y, z }
    }

    /// The vector of three zeros: the origin, and the colour black.
    pub fn zero() -> (v: Vec3)
        ensures
            v.x.bits == 0,
            v.y.bits == 0,
            v.z.bits == 0,
    {
        Vec3 { x: Scalar::zero(), y: Scalar::zero(), z: Scalar::zero() }
    }

    /// The vector of three ones: the colour white.
    pub fn _ones() -> (v: Vec3)
        ensures
            v.x.bits == crate::scalar::ONE_BITS,
            v.y.bits == crate::scalar::ONE_BITS,
            v.z.bits == crate::scalar::ONE_BITS,
    {
        Vec3 { x: Scalar::one(), y: Scalar::one(), z: Scalar::one() }
    }

    /// The component on axis `i`.
    pub fn get(self, i: u32) -> (c: Scalar)
        ensures
            c == self.at(i as int),
    {
        if i == 0 {
            self.x
        } else if i == 1 {
            self.y
        } else {
            self.z
        }
    }

    /// The opposite vector. Exact for every bit pattern.
    pub fn neg(self) -> (v: Vec3)
        ensures
            v == self.negated(),
    {
        Vec3 { x: self.x.neg(), y: self.y.neg(), z: self.z.neg() }
    }

    /// Sets a normal against a ray. `along` is the product of the normal
    /// with the ray's direction.
    pub fn against(self, along: Scalar) -> (v: Vec3)
        ensures
            v == self.set_against(along),
    {
        if along.lt(Scalar::zero()) {
            self
        } else {
            self.neg()
        }
    }

    /// Replaces each NaN component by zero, so that one degenerate sample
    /// cannot spoil a sum of colours.
    pub fn nan_to_zero(self) -> (v: Vec3)
        ensures
            v == self.without_nan(),
            v.is_number(),
    {
        Vec3 {
            x: if self.x.is_nan() { Scalar::zero() } else { self.x },
            y: if self.y.is_nan() { Scalar::zero() } else { self.y },
            z: if self.z.is_nan() { Scalar::zero() } else { self.z },
        }
    }
}

} // verus!
