//! Single-precision binary floating-point values, held as their bit patterns
//! and only ever compared, selected and negated: the operations that are exact
//! in every implementation of the format.

use vstd::prelude::*;

verus! {

/// The sign bit.
pub const SIGN_BIT: u32 = 0x8000_0000;

/// Magnitude of the infinities; every greater magnitude is a NaN.
pub const INFINITE_MAGNITUDE: u32 = 0x7f80_0000;

/// How far the NaNs are moved to get them out of the way of the numbers when
/// the greater or the smaller of two values is picked.
pub const NAN_SHIFT: i64 = 0x2_0000_0000;

/// A binary32 value as its bit pattern: a sign bit, eight bits of exponent and
/// twenty-three bits of fraction.
#[derive(Clone, Copy, Debug)]
pub struct Scalar {
    pub bits: u32,
}

impl Scalar {
    /// Positive zero.
    #[verifier::allow_in_spec]
    pub fn zero() -> Scalar
        returns
            (Scalar { bits: 0 }),
    {
        Scalar { bits: 0 }
    }

    /// One.
    #[verifier::allow_in_spec]
    pub fn one() -> Scalar
        returns
            (Scalar { bits: 0x3f80_0000 }),
    {
        Scalar { bits: 0x3f80_0000 }
    }

    /// Positive infinity.
    #[verifier::allow_in_spec]
    pub fn infinity() -> Scalar
        returns
            (Scalar { bits: 0x7f80_0000 }),
    {
        Scalar { bits: 0x7f80_0000 }
    }

    /// Negative infinity.
    #[verifier::allow_in_spec]
    pub fn neg_infinity() -> Scalar
        returns
            (Scalar { bits: 0xff80_0000 }),
    {
        Scalar { bits: 0xff80_0000 }
    }

    #[verifier::allow_in_spec]
    pub fn from_bits(bits: u32) -> Scalar
        returns
            (Scalar { bits }),
    {
        Scalar { bits }
    }

    #[verifier::allow_in_spec]
    pub fn to_bits(self) -> u32
        returns
            self.bits,
    {
        self.bits
    }

    /// Whether the sign bit is set.
    pub open spec fn is_sign_negative(self) -> bool {
        self.bits >= SIGN_BIT
    }

    /// The bits without the sign bit.
    pub open spec fn magnitude(self) -> int {
        if self.bits >= SIGN_BIT {
            self.bits - SIGN_BIT
        } else {
            self.bits as int
        }
    }

    /// Place of a number on the real line, the two zeros in one place: of two
    /// numbers the smaller has the smaller rank.
    pub open spec fn rank(self) -> int {
        if self.is_sign_negative() {
            -self.magnitude()
        } else {
            self.magnitude()
        }
    }

    /// Place in the total order of all bit patterns: negative NaNs, negative
    /// infinity, the negative numbers, negative zero, positive zero, the
    /// positive numbers, positive infinity, positive NaNs.
    pub open spec fn total_rank(self) -> int {
        if self.is_sign_negative() {
            -1 - self.magnitude()
        } else {
            self.magnitude()
        }
    }

    /// The total order with every NaN moved below all other values.
    pub open spec fn max_rank(self) -> int {
        if self.is_nan() {
            self.total_rank() - NAN_SHIFT
        } else {
            self.total_rank()
        }
    }

    /// The total order with every NaN moved above all other values.
    pub open spec fn min_rank(self) -> int {
        if self.is_nan() {
            self.total_rank() + NAN_SHIFT
        } else {
            self.total_rank()
        }
    }

    /// `self == other` as numbers: the two zeros are equal, and a NaN is equal
    /// to nothing.
    pub open spec fn eq_number(self, other: Scalar) -> bool {
        !self.is_nan() && !other.is_nan() && self.rank() == other.rank()
    }

    /// The bits without the sign bit, as a machine integer.
    fn magnitude_bits(self) -> (m: u32)
        ensures
            m == self.magnitude(),
    {
        if self.bits >= SIGN_BIT {
            self.bits - SIGN_BIT
        } else {
            self.bits
        }
    }

    /// Whether the value is not a number.
    #[verifier::allow_in_spec]
    pub fn is_nan(self) -> bool
        returns
            self.magnitude() > INFINITE_MAGNITUDE,
    {
        self.magnitude_bits() > INFINITE_MAGNITUDE
    }

    /// The rank as a machine integer.
    pub fn rank_key(self) -> (k: i64)
        ensures
            k == self.rank(),
    {
        let m: i64 = self.magnitude_bits() as i64;
        if self.bits >= SIGN_BIT {
            -m
        } else {
            m
        }
    }

    /// The place in the total order as a machine integer.
    pub fn total_key(self) -> (k: i64)
        ensures
            k == self.total_rank(),
    {
        let m: i64 = self.magnitude_bits() as i64;
        if self.bits >= SIGN_BIT {
            -1 - m
        } else {
            m
        }
    }

    /// `self < other` as numbers; false when either is a NaN.
    #[verifier::allow_in_spec]
    pub fn lt(self, other: Scalar) -> bool
        returns
            !self.is_nan() && !other.is_nan() && self.rank() < other.rank(),
    {
        !self.is_nan() && !other.is_nan() && self.rank_key() < other.rank_key()
    }

    /// `self <= other` as numbers; false when either is a NaN.
    #[verifier::allow_in_spec]
    pub fn le(self, other: Scalar) -> bool
        returns
            !self.is_nan() && !other.is_nan() && self.rank() <= other.rank(),
    {
        !self.is_nan() && !other.is_nan() && self.rank_key() <= other.rank_key()
    }

    /// `self > other` as numbers; false when either is a NaN.
    #[verifier::allow_in_spec]
    pub fn gt(self, other: Scalar) -> bool
        returns
            other.lt(self),
    {
        other.lt(self)
    }

    /// `self >= other` as numbers; false when either is a NaN.
    #[verifier::allow_in_spec]
    pub fn ge(self, other: Scalar) -> bool
        returns
            other.le(self),
    {
        other.le(self)
    }

    /// The greater of two values. A NaN loses against everything else; the
    /// total order decides between values that are equal as numbers.
    #[verifier::allow_in_spec]
    pub fn max(self, other: Scalar) -> Scalar
        returns
            (if self.max_rank() >= other.max_rank() {
                self
            } else {
                other
            }),
    {
        let a: i64 = if self.is_nan() {
            self.total_key() - NAN_SHIFT
        } else {
            self.total_key()
        };
        let b: i64 = if other.is_nan() {
            other.total_key() - NAN_SHIFT
        } else {
            other.total_key()
        };
        if a >= b {
            self
        } else {
            other
        }
    }

    /// The smaller of two values. A NaN loses against everything else; the
    /// total order decides between values that are equal as numbers.
    #[verifier::allow_in_spec]
    pub fn min(self, other: Scalar) -> Scalar
        returns
            (if self.min_rank() <= other.min_rank() {
                self
            } else {
                other
            }),
    {
        let a: i64 = if self.is_nan() {
            self.total_key() + NAN_SHIFT
        } else {
            self.total_key()
        };
        let b: i64 = if other.is_nan() {
            other.total_key() + NAN_SHIFT
        } else {
            other.total_key()
        };
        if a <= b {
            self
        } else {
            other
        }
    }

    /// The value with the sign bit flipped.
    #[verifier::allow_in_spec]
    pub fn neg(self) -> Scalar
        returns
            (if self.bits >= SIGN_BIT {
                Scalar { bits: (self.bits - SIGN_BIT) as u32 }
            } else {
                Scalar { bits: (self.bits + SIGN_BIT) as u32 }
            }),
    {
        if self.bits >= SIGN_BIT {
            Scalar { bits: self.bits - SIGN_BIT }
        } else {
            Scalar { bits: self.bits + SIGN_BIT }
        }
    }

    /// The value with the sign bit cleared.
    #[verifier::allow_in_spec]
    pub fn abs(self) -> Scalar
        returns
            (Scalar { bits: self.magnitude() as u32 }),
    {
        Scalar { bits: self.magnitude_bits() }
    }
}

impl PartialEq for Scalar {
    /// Equality as numbers.
    fn eq(&self, other: &Scalar) -> (r: bool) {
        !self.is_nan() && !other.is_nan() && self.rank_key() == other.rank_key()
    }
}

impl vstd::std_specs::cmp::PartialEqSpecImpl for Scalar {
    open spec fn obeys_eq_spec() -> bool {
        true
    }

    open spec fn eq_spec(&self, other: &Scalar) -> bool {
        self.eq_number(*other)
    }
}

/// Two scalars with the same place in the total order are the same scalar.
pub proof fn lemma_total_rank_injective(a: Scalar, b: Scalar)
    ensures
        a.total_rank() == b.total_rank() <==> a == b,
        a.max_rank() == b.max_rank() <==> a == b,
        a.min_rank() == b.min_rank() <==> a == b,
{
}

/// The total order refines the order of the numbers: of two numbers the
/// smaller comes first in the total order, and what does not come later in
/// the total order is not the greater number.
pub proof fn lemma_total_order_refines(a: Scalar, b: Scalar)
    requires
        !a.is_nan(),
        !b.is_nan(),
    ensures
        a.lt(b) ==> a.total_rank() < b.total_rank(),
        a.total_rank() <= b.total_rank() ==> a.le(b),
        a.le(b) || b.le(a),
{
}

/// `max` and `min` are commutative.
pub proof fn lemma_max_min_commutative(a: Scalar, b: Scalar)
    ensures
        a.max(b) == b.max(a),
        a.min(b) == b.min(a),
{
    lemma_total_rank_injective(a, b);
}

/// `max` and `min` are associative.
pub proof fn lemma_max_min_associative(a: Scalar, b: Scalar, c: Scalar)
    ensures
        a.max(b).max(c) == a.max(b.max(c)),
        a.min(b).min(c) == a.min(b.min(c)),
{
    lemma_total_rank_injective(a, b);
    lemma_total_rank_injective(b, c);
    lemma_total_rank_injective(a, c);
}

/// Among numbers, `max` gives an upper bound and `min` a lower bound, each
/// one of the two.
pub proof fn lemma_max_min_bounds(a: Scalar, b: Scalar)
    requires
        !a.is_nan(),
        !b.is_nan(),
    ensures
        !a.max(b).is_nan(),
        !a.min(b).is_nan(),
        a.le(a.max(b)),
        b.le(a.max(b)),
        a.min(b).le(a),
        a.min(b).le(b),
        a.max(b) == a || a.max(b) == b,
        a.min(b) == a || a.min(b) == b,
{
}

} // verus!
