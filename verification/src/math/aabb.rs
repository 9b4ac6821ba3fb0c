//! Axis-aligned boxes: one range along each axis.

use vstd::prelude::*;

use crate::math::interval::Interval;
use crate::math::scalar::{lemma_max_min_bounds, Scalar};
use crate::math::vec3::Vec3;

verus! {

/// One of the three axes.
#[derive(Clone, Copy, PartialEq, Eq, PartialOrd, Ord, Debug, Structural)]
pub enum Axis {
    X,
    Y,
    Z,
}

/// An axis-aligned box: the points whose coordinates lie in the three ranges.
#[derive(Clone, Copy, Debug)]
pub struct Aabb {
    pub x_axis: Interval,
    pub y_axis: Interval,
    pub z_axis: Interval,
}

impl Default for Aabb {
    fn default() -> (b: Aabb)
        ensures
            b == Aabb::empty(),
    {
        Aabb::empty()
    }
}

impl Aabb {
    /// The box without any point.
    #[verifier::allow_in_spec]
    pub fn empty() -> Aabb
        returns
            (Aabb { x_axis: Interval::empty(), y_axis: Interval::empty(), z_axis: Interval::empty() }),
    {
        Aabb { x_axis: Interval::empty(), y_axis: Interval::empty(), z_axis: Interval::empty() }
    }

    #[verifier::allow_in_spec]
    pub fn new(x_axis: Interval, y_axis: Interval, z_axis: Interval) -> Aabb
        returns
            (Aabb { x_axis, y_axis, z_axis }),
    {
        Aabb { x_axis, y_axis, z_axis }
    }

    /// The box between two opposite corners, whichever way round they are
    /// given.
    #[verifier::allow_in_spec]
    pub fn from_corners(a: Vec3, b: Vec3) -> Aabb
        returns
            (Aabb {
                x_axis: Interval::ordered(a.x, b.x),
                y_axis: Interval::ordered(a.y, b.y),
                z_axis: Interval::ordered(a.z, b.z),
            }),
    {
        Aabb {
            x_axis: Interval::ordered(a.x, b.x),
            y_axis: Interval::ordered(a.y, b.y),
            z_axis: Interval::ordered(a.z, b.z),
        }
    }

    /// The smallest box that holds both boxes.
    #[verifier::allow_in_spec]
    pub fn enclose(self, other: Aabb) -> Aabb
        returns
            (Aabb {
                x_axis: self.x_axis.enclose(other.x_axis),
                y_axis: self.y_axis.enclose(other.y_axis),
                z_axis: self.z_axis.enclose(other.z_axis),
            }),
    {
        Aabb {
            x_axis: self.x_axis.enclose(other.x_axis),
            y_axis: self.y_axis.enclose(other.y_axis),
            z_axis: self.z_axis.enclose(other.z_axis),
        }
    }

    /// The range of the box along one axis.
    #[verifier::allow_in_spec]
    pub fn axis(&self, axis: Axis) -> Interval
        returns
            (match axis {
                Axis::X => self.x_axis,
                Axis::Y => self.y_axis,
                Axis::Z => self.z_axis,
            }),
    {
        match axis {
            Axis::X => self.x_axis,
            Axis::Y => self.y_axis,
            Axis::Z => self.z_axis,
        }
    }

    /// The axis along which a box is longest, from its three lengths. A
    /// length has to exceed another to win against it, so ties go to the
    /// later axis: to Z before Y, and to Y before X.
    #[verifier::allow_in_spec]
    pub fn longest_axis(lengths: Vec3) -> Axis
        returns
            (if lengths.x.gt(lengths.y) {
                if lengths.x.gt(lengths.z) {
                    Axis::X
                } else {
                    Axis::Z
                }
            } else if lengths.y.gt(lengths.z) {
                Axis::Y
            } else {
                Axis::Z
            }),
    {
        if lengths.x.gt(lengths.y) {
            if lengths.x.gt(lengths.z) {
                Axis::X
            } else {
                Axis::Z
            }
        } else if lengths.y.gt(lengths.z) {
            Axis::Y
        } else {
            Axis::Z
        }
    }

    /// What is left of the range `ray_t` of a ray's parameter after clipping
    /// it to one slab of a box, which the ray enters and leaves at the
    /// parameters `crossing.0` and `crossing.1`, in either order.
    pub open spec fn clip(ray_t: Interval, crossing: (Scalar, Scalar)) -> Interval {
        ray_t.intersect(Interval::ordered(crossing.0, crossing.1))
    }

    /// The slab test. A ray crosses the two planes that bound the box along
    /// each axis at two parameters; the ray meets the box within `ray_t` when
    /// clipping `ray_t` to the three slabs in turn, X then Y then Z, never
    /// leaves an empty range.
    pub fn hit(ray_t: Interval, x: (Scalar, Scalar), y: (Scalar, Scalar), z: (Scalar, Scalar)) -> (r:
        bool)
        ensures
            r == {
                let after_x = Self::clip(ray_t, x);
                let after_y = Self::clip(after_x, y);
                let after_z = Self::clip(after_y, z);
                !after_x.is_empty() && !after_y.is_empty() && !after_z.is_empty()
            },
    {
        let crossings: [(Scalar, Scalar); 3] = [x, y, z];
        let mut intersection: Interval = ray_t;
        let mut i: usize = 0;
        while i < 3
            invariant
                i <= 3,
                crossings[0] == x,
                crossings[1] == y,
                crossings[2] == z,
                i == 0 ==> intersection == ray_t,
                i == 1 ==> intersection == Self::clip(ray_t, x) && !intersection.is_empty(),
                i == 2 ==> intersection == Self::clip(Self::clip(ray_t, x), y) && !Self::clip(
                    ray_t,
                    x,
                ).is_empty() && !intersection.is_empty(),
                i == 3 ==> intersection == Self::clip(Self::clip(Self::clip(ray_t, x), y), z)
                    && !Self::clip(ray_t, x).is_empty() && !Self::clip(
                    Self::clip(ray_t, x),
                    y,
                ).is_empty() && !intersection.is_empty(),
            decreases 3 - i,
        {
            let (t0, t1) = crossings[i];
            let axis_int: Interval = Interval::ordered(t0, t1);
            intersection = intersection.intersect(axis_int);
            if intersection.is_empty() {
                return false;
            }
            i = i + 1;
        }
        true
    }

    /// Whether the point lies in the box.
    #[verifier::allow_in_spec]
    pub fn contains(&self, p: Vec3) -> bool
        returns
            self.x_axis.contains(p.x) && self.y_axis.contains(p.y) && self.z_axis.contains(p.z),
    {
        self.x_axis.contains(p.x) && self.y_axis.contains(p.y) && self.z_axis.contains(p.z)
    }

    /// One of the eight corners: along each axis the lower end of the range
    /// where the flag is false, the upper end where it is true.
    pub open spec fn corner(&self, upper_x: bool, upper_y: bool, upper_z: bool) -> Vec3 {
        Vec3 {
            x: if upper_x {
                self.x_axis.max
            } else {
                self.x_axis.min
            },
            y: if upper_y {
                self.y_axis.max
            } else {
                self.y_axis.min
            },
            z: if upper_z {
                self.z_axis.max
            } else {
                self.z_axis.min
            },
        }
    }

    /// No end of any range is a NaN.
    pub open spec fn is_numeric(&self) -> bool {
        self.x_axis.is_numeric() && self.y_axis.is_numeric() && self.z_axis.is_numeric()
    }

    /// A box with corners: along each axis the lower end is a number not
    /// above the upper end.
    pub open spec fn is_ordered(&self) -> bool {
        &&& self.x_axis.min.le(self.x_axis.max)
        &&& self.y_axis.min.le(self.y_axis.max)
        &&& self.z_axis.min.le(self.z_axis.max)
    }

    /// Whether this box holds every corner of `other`.
    pub open spec fn holds_corners(&self, other: Aabb) -> bool {
        forall|ux: bool, uy: bool, uz: bool| self.contains(#[trigger] other.corner(ux, uy, uz))
    }

    /// Whether this box reaches as far as `other` along every axis and in
    /// both directions: its lower ends are not above, and its upper ends not
    /// below, those of `other`.
    pub open spec fn reaches(&self, other: Aabb) -> bool {
        &&& self.x_axis.min.le(other.x_axis.min) && other.x_axis.max.le(self.x_axis.max)
        &&& self.y_axis.min.le(other.y_axis.min) && other.y_axis.max.le(self.y_axis.max)
        &&& self.z_axis.min.le(other.z_axis.min) && other.z_axis.max.le(self.z_axis.max)
    }
}

/// To reach as far as a box with corners is to hold its corners.
pub proof fn lemma_reaches_is_holds_corners(outer: Aabb, inner: Aabb)
    requires
        inner.is_ordered(),
    ensures
        outer.reaches(inner) <==> outer.holds_corners(inner),
{
    if outer.holds_corners(inner) {
        assert(outer.contains(inner.corner(false, false, false)));
        assert(outer.contains(inner.corner(true, true, true)));
    }
}

/// Enclosure of any two boxes whose ends are numbers. The enclosing box
/// reaches as far as both, and every box that reaches as far as both reaches
/// as far as the enclosing box: it is the smallest such box.
pub proof fn lemma_enclose_reaches(a: Aabb, b: Aabb)
    requires
        a.is_numeric(),
        b.is_numeric(),
    ensures
        a.enclose(b).is_numeric(),
        a.enclose(b).reaches(a),
        a.enclose(b).reaches(b),
        forall|c: Aabb| c.reaches(a) && c.reaches(b) ==> #[trigger] c.reaches(a.enclose(b)),
{
    lemma_max_min_bounds(a.x_axis.min, b.x_axis.min);
    lemma_max_min_bounds(a.x_axis.max, b.x_axis.max);
    lemma_max_min_bounds(a.y_axis.min, b.y_axis.min);
    lemma_max_min_bounds(a.y_axis.max, b.y_axis.max);
    lemma_max_min_bounds(a.z_axis.min, b.z_axis.min);
    lemma_max_min_bounds(a.z_axis.max, b.z_axis.max);
}

/// Enclosure of boxes with corners. The box that encloses two boxes with
/// corners holds every corner of both, and every box that holds all those
/// corners holds every corner of the enclosing box too: it is the smallest
/// such box.
pub proof fn lemma_enclose_smallest(a: Aabb, b: Aabb)
    requires
        a.is_ordered(),
        b.is_ordered(),
    ensures
        a.enclose(b).is_ordered(),
        a.enclose(b).holds_corners(a),
        a.enclose(b).holds_corners(b),
        forall|c: Aabb|
            c.holds_corners(a) && c.holds_corners(b) ==> #[trigger] c.holds_corners(a.enclose(b)),
{
    let e = a.enclose(b);
    lemma_max_min_bounds(a.x_axis.min, b.x_axis.min);
    lemma_max_min_bounds(a.x_axis.max, b.x_axis.max);
    lemma_max_min_bounds(a.y_axis.min, b.y_axis.min);
    lemma_max_min_bounds(a.y_axis.max, b.y_axis.max);
    lemma_max_min_bounds(a.z_axis.min, b.z_axis.min);
    lemma_max_min_bounds(a.z_axis.max, b.z_axis.max);
    assert forall|c: Aabb| c.holds_corners(a) && c.holds_corners(b) implies #[trigger] c.holds_corners(
        e,
    ) by {
        assert(c.contains(a.corner(false, false, false)));
        assert(c.contains(a.corner(true, true, true)));
        assert(c.contains(b.corner(false, false, false)));
        assert(c.contains(b.corner(true, true, true)));
    }
}

} // verus!
