//! Triples of scalars: points, directions and colours.

use vstd::prelude::*;

use crate::math::scalar::Scalar;

verus! {

/// Three scalars, one for each axis.
#[derive(Clone, Copy, Debug)]
pub struct Vec3 {
    pub x: Scalar,
    pub y: Scalar,
    pub z: Scalar,
}

impl Vec3 {
    /// The origin.
    #[verifier::allow_in_spec]
    pub fn zero() -> Vec3
        returns
            (Vec3 { x: Scalar::zero(), y: Scalar::zero(), z: Scalar::zero() }),
    {
        Vec3 { x: Scalar::zero(), y: Scalar::zero(), z: Scalar::zero() }
    }

    /// One along every axis.
    #[verifier::allow_in_spec]
    pub fn one() -> Vec3
        returns
            (Vec3 { x: Scalar::one(), y: Scalar::one(), z: Scalar::one() }),
    {
        Vec3 { x: Scalar::one(), y: Scalar::one(), z: Scalar::one() }
    }

    #[verifier::allow_in_spec]
    pub fn new(x: Scalar, y: Scalar, z: Scalar) -> Vec3
        returns
            (Vec3 { x, y, z }),
    {
        Vec3 { x, y, z }
    }

    /// The same scalar along every axis.
    #[verifier::allow_in_spec]
    pub fn splat(v: Scalar) -> Vec3
        returns
            (Vec3 { x: v, y: v, z: v }),
    {
        Vec3 { x: v, y: v, z: v }
    }

    /// The opposite vector.
    #[verifier::allow_in_spec]
    pub fn neg(self) -> Vec3
        returns
            (Vec3 { x: self.x.neg(), y: self.y.neg(), z: self.z.neg() }),
    {
        Vec3 { x: self.x.neg(), y: self.y.neg(), z: self.z.neg() }
    }

    /// Equality as numbers, component by component.
    pub open spec fn eq_number(self, other: Vec3) -> bool {
        self.x.eq_number(other.x) && self.y.eq_number(other.y) && self.z.eq_number(other.z)
    }

    /// No component is a NaN.
    pub open spec fn is_numeric(&self) -> bool {
        !self.x.is_nan() && !self.y.is_nan() && !self.z.is_nan()
    }
}

#[verifier::allow_in_spec]
pub fn vec3(x: Scalar, y: Scalar, z: Scalar) -> Vec3
    returns
        (Vec3 { x, y, z }),
{
    Vec3 { x, y, z }
}

impl PartialEq for Vec3 {
    /// Equality as numbers, component by component.
    fn eq(&self, other: &Vec3) -> (r: bool) {
        self.x == other.x && self.y == other.y && self.z == other.z
    }
}

impl vstd::std_specs::cmp::PartialEqSpecImpl for Vec3 {
    open spec fn obeys_eq_spec() -> bool {
        true
    }

    open spec fn eq_spec(&self, other: &Vec3) -> bool {
        self.eq_number(*other)
    }
}

} // verus!
