//! Linear RGB colours.

use vstd::prelude::*;

use crate::math::scalar::Scalar;
use crate::math::vec3::Vec3;

verus! {

/// A colour: its red, green and blue parts along the three axes of a vector.
#[derive(Clone, Copy, Debug)]
pub struct Color(pub Vec3);

impl Color {
    #[verifier::allow_in_spec]
    pub fn white() -> Color
        returns
            (Color(Vec3 { x: Scalar::one(), y: Scalar::one(), z: Scalar::one() })),
    {
        Color(Vec3 { x: Scalar::one(), y: Scalar::one(), z: Scalar::one() })
    }

    #[verifier::allow_in_spec]
    pub fn black() -> Color
        returns
            (Color(Vec3 { x: Scalar::zero(), y: Scalar::zero(), z: Scalar::zero() })),
    {
        Color(Vec3 { x: Scalar::zero(), y: Scalar::zero(), z: Scalar::zero() })
    }

    #[verifier::allow_in_spec]
    pub fn red() -> Color
        returns
            (Color(Vec3 { x: Scalar::one(), y: Scalar::zero(), z: Scalar::zero() })),
    {
        Color(Vec3 { x: Scalar::one(), y: Scalar::zero(), z: Scalar::zero() })
    }

    #[verifier::allow_in_spec]
    pub fn green() -> Color
        returns
            (Color(Vec3 { x: Scalar::zero(), y: Scalar::one(), z: Scalar::zero() })),
    {
        Color(Vec3 { x: Scalar::zero(), y: Scalar::one(), z: Scalar::zero() })
    }

    #[verifier::allow_in_spec]
    pub fn blue() -> Color
        returns
            (Color(Vec3 { x: Scalar::zero(), y: Scalar::zero(), z: Scalar::one() })),
    {
        Color(Vec3 { x: Scalar::zero(), y: Scalar::zero(), z: Scalar::one() })
    }

    #[verifier::allow_in_spec]
    pub fn new(r: Scalar, g: Scalar, b: Scalar) -> Color
        returns
            (Color(Vec3 { x: r, y: g, z: b })),
    {
        Color(Vec3 { x: r, y: g, z: b })
    }

    #[verifier::allow_in_spec]
    pub fn r(&self) -> Scalar
        returns
            self.0.x,
    {
        self.0.x
    }

    #[verifier::allow_in_spec]
    pub fn g(&self) -> Scalar
        returns
            self.0.y,
    {
        self.0.y
    }

    #[verifier::allow_in_spec]
    pub fn b(&self) -> Scalar
        returns
            self.0.z,
    {
        self.0.z
    }

    /// Every part lies between zero and one.
    pub open spec fn is_unit(&self) -> bool {
        &&& Scalar::zero().le(self.0.x) && self.0.x.le(Scalar::one())
        &&& Scalar::zero().le(self.0.y) && self.0.y.le(Scalar::one())
        &&& Scalar::zero().le(self.0.z) && self.0.z.le(Scalar::one())
    }
}

impl PartialEq for Color {
    /// Equality as numbers, part by part.
    fn eq(&self, other: &Color) -> (r: bool) {
        self.0 == other.0
    }
}

impl vstd::std_specs::cmp::PartialEqSpecImpl for Color {
    open spec fn obeys_eq_spec() -> bool {
        true
    }

    open spec fn eq_spec(&self, other: &Color) -> bool {
        self.0.eq_number(other.0)
    }
}

} // verus!
