//! Closed ranges of scalars, as a lattice under intersection and enclosure.

use std::cmp::Ordering;
use vstd::prelude::*;

use crate::math::scalar::{
    lemma_max_min_associative, lemma_max_min_commutative, lemma_total_rank_injective, Scalar,
};

verus! {

/// The range of the scalars from `min` to `max`, both included. A range whose
/// `min` is not below its `max` holds at most one number and counts as empty.
#[derive(Clone, Copy, Debug)]
pub struct Interval {
    pub min: Scalar,
    pub max: Scalar,
}

impl Interval {
    /// The range without any number: from positive to negative infinity.
    #[verifier::allow_in_spec]
    pub fn empty() -> Interval
        returns
            (Interval { min: Scalar::infinity(), max: Scalar::neg_infinity() }),
    {
        Interval { min: Scalar::infinity(), max: Scalar::neg_infinity() }
    }

    /// The range of all numbers: from negative to positive infinity.
    #[verifier::allow_in_spec]
    pub fn full() -> Interval
        returns
            (Interval { min: Scalar::neg_infinity(), max: Scalar::infinity() }),
    {
        Interval { min: Scalar::neg_infinity(), max: Scalar::infinity() }
    }

    #[verifier::allow_in_spec]
    pub fn new(min: Scalar, max: Scalar) -> Interval
        returns
            (Interval { min, max }),
    {
        Interval { min, max }
    }

    /// The range between two numbers, whichever of them is the smaller.
    #[verifier::allow_in_spec]
    pub fn ordered(a: Scalar, b: Scalar) -> Interval
        returns
            (if a.lt(b) {
                Interval { min: a, max: b }
            } else {
                Interval { min: b, max: a }
            }),
    {
        if a.lt(b) {
            Interval { min: a, max: b }
        } else {
            Interval { min: b, max: a }
        }
    }

    /// Whether `min` is not below `max`.
    #[verifier::allow_in_spec]
    pub fn is_empty(&self) -> bool
        returns
            self.min.ge(self.max),
    {
        self.min.ge(self.max)
    }

    /// Whether `x` lies in the range, the ends included.
    #[verifier::allow_in_spec]
    pub fn contains(&self, x: Scalar) -> bool
        returns
            self.min.le(x) && x.le(self.max),
    {
        self.min.le(x) && x.le(self.max)
    }

    /// Whether `x` lies in the range, the ends excluded.
    #[verifier::allow_in_spec]
    pub fn surrounds(&self, x: Scalar) -> bool
        returns
            self.min.lt(x) && x.lt(self.max),
    {
        self.min.lt(x) && x.lt(self.max)
    }

    /// The meet of two ranges: what both hold.
    #[verifier::allow_in_spec]
    pub fn intersect(self, other: Interval) -> Interval
        returns
            (Interval { min: self.min.max(other.min), max: self.max.min(other.max) }),
    {
        Interval { min: self.min.max(other.min), max: self.max.min(other.max) }
    }

    /// The join of two ranges: the smallest range that holds both.
    #[verifier::allow_in_spec]
    pub fn enclose(self, other: Interval) -> Interval
        returns
            (Interval { min: self.min.min(other.min), max: self.max.max(other.max) }),
    {
        Interval { min: self.min.min(other.min), max: self.max.max(other.max) }
    }

    /// Compares the lower ends of two ranges in the total order of scalars.
    pub fn cmp_min(&self, other: &Interval) -> (o: Ordering)
        ensures
            o == Ordering::Less <==> self.min.total_rank() < other.min.total_rank(),
            o == Ordering::Equal <==> self.min.total_rank() == other.min.total_rank(),
            o == Ordering::Greater <==> self.min.total_rank() > other.min.total_rank(),
    {
        let a: i64 = self.min.total_key();
        let b: i64 = other.min.total_key();
        if a < b {
            Ordering::Less
        } else if a > b {
            Ordering::Greater
        } else {
            Ordering::Equal
        }
    }

    /// Neither end is a NaN.
    pub open spec fn is_numeric(&self) -> bool {
        !self.min.is_nan() && !self.max.is_nan()
    }
}

/// Intersection and enclosure do not depend on the order of the two ranges.
pub proof fn lemma_interval_commutative(a: Interval, b: Interval)
    ensures
        a.intersect(b) == b.intersect(a),
        a.enclose(b) == b.enclose(a),
{
    lemma_max_min_commutative(a.min, b.min);
    lemma_max_min_commutative(a.max, b.max);
}

/// Intersection and enclosure do not depend on how three ranges are grouped.
pub proof fn lemma_interval_associative(a: Interval, b: Interval, c: Interval)
    ensures
        a.intersect(b).intersect(c) == a.intersect(b.intersect(c)),
        a.enclose(b).enclose(c) == a.enclose(b.enclose(c)),
{
    lemma_max_min_associative(a.min, b.min, c.min);
    lemma_max_min_associative(a.max, b.max, c.max);
}

/// The empty range absorbs under intersection: what a range shares with it is
/// the empty range.
pub proof fn lemma_interval_empty_absorbs(a: Interval)
    ensures
        a.intersect(Interval::empty()) == Interval::empty(),
        Interval::empty().intersect(a) == Interval::empty(),
        Interval::empty().is_empty(),
{
    lemma_total_rank_injective(a.min, Scalar::infinity());
    lemma_total_rank_injective(a.max, Scalar::neg_infinity());
}

/// The empty range is the identity of enclosure, for every range whose ends
/// are numbers.
pub proof fn lemma_interval_empty_identity(a: Interval)
    requires
        a.is_numeric(),
    ensures
        a.enclose(Interval::empty()) == a,
        Interval::empty().enclose(a) == a,
{
    lemma_total_rank_injective(a.min, Scalar::infinity());
    lemma_total_rank_injective(a.max, Scalar::neg_infinity());
}

} // verus!
