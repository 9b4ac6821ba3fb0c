//! Rays, the records of their hits, and the objects that they can hit.

use vstd::prelude::*;

pub mod bvh;
pub mod equivalence;

pub use bvh::{Bvh, BvhChild, BvhNode};

use crate::material::Material;
use crate::math::aabb::Aabb;
use crate::math::interval::Interval;
use crate::math::scalar::Scalar;
use crate::math::vec3::Vec3;

verus! {

/// A half-line: the points `origin + t * dir` for the parameters `t`.
#[derive(Clone, Copy, Debug)]
pub struct Ray {
    pub origin: Vec3,
    pub dir: Vec3,
}

impl Ray {
    #[verifier::allow_in_spec]
    pub fn new(origin: Vec3, dir: Vec3) -> Ray
        returns
            (Ray { origin, dir }),
    {
        Ray { origin, dir }
    }

    #[verifier::allow_in_spec]
    pub fn origin(&self) -> Vec3
        returns
            self.origin,
    {
        self.origin
    }

    #[verifier::allow_in_spec]
    pub fn direction(&self) -> Vec3
        returns
            self.dir,
    {
        self.dir
    }
}

/// Where and how a ray met a surface.
#[derive(Clone, Copy, Debug)]
pub struct HitRecord {
    pub point: Vec3,
    /// Unit normal of the surface at the point, on the side the ray came
    /// from.
    pub normal: Vec3,
    /// Parameter of the ray at the point.
    pub t: Scalar,
    /// Whether the ray met the surface from outside.
    pub is_front_face: bool,
    pub material: Material,
}

/// Something that a ray can hit.
///
/// An implementation owes what `hit` ensures: that a hit lies in the range
/// that was asked for. The library relies on it where it narrows a range.
pub trait Hittable {
    /// The nearest point at which the ray meets the object with a parameter
    /// inside `t_range`, if there is one.
    fn hit(&self, ray: &Ray, t_range: Interval) -> (r: Option<HitRecord>)
        ensures
            r matches Some(h) ==> t_range.contains(h.t),
    ;

    /// A box that holds the object.
    fn bounding_box(&self) -> Aabb;
}

impl Ray {
    /// Where this ray hits the object within `t_range`.
    pub fn hit<H: Hittable>(&self, object: &H, t_range: Interval) -> (r: Option<HitRecord>)
        ensures
            call_ensures(H::hit, (object, self, t_range), r),
            r matches Some(h) ==> t_range.contains(h.t),
    {
        object.hit(self, t_range)
    }
}

/// The nearer of two hits: `next` where it comes strictly before `best` in
/// the total order of parameters, `best` otherwise, so that of two equally
/// near hits the earlier one stays.
pub open spec fn nearer(best: Option<HitRecord>, next: Option<HitRecord>) -> Option<HitRecord> {
    match (best, next) {
        (_, None) => best,
        (None, Some(_)) => next,
        (Some(b), Some(n)) => if n.t.total_rank() < b.t.total_rank() {
            next
        } else {
            best
        },
    }
}

/// The nearest of a sequence of hits: the first among those with the least
/// parameter in the total order.
pub open spec fn nearest(hits: Seq<Option<HitRecord>>) -> Option<HitRecord>
    decreases hits.len(),
{
    if hits.len() == 0 {
        None
    } else {
        nearer(nearest(hits.drop_last()), hits.last())
    }
}

/// What `nearest` picks: nothing exactly where nothing was hit; else one of
/// the hits, with no hit before it in the total order of parameters, and none
/// as near earlier in the sequence.
pub proof fn lemma_nearest(hits: Seq<Option<HitRecord>>)
    ensures
        nearest(hits) is None <==> forall|i: int| 0 <= i < hits.len() ==> hits[i] is None,
        nearest(hits) matches Some(best) ==> exists|i: int|
            {
                &&& 0 <= i < hits.len()
                &&& #[trigger] hits[i] == Some(best)
                &&& forall|j: int|
                    0 <= j < hits.len() ==> (#[trigger] hits[j] matches Some(h)
                        ==> best.t.total_rank() <= h.t.total_rank())
                &&& forall|j: int|
                    0 <= j < i ==> (#[trigger] hits[j] matches Some(h) ==> best.t.total_rank()
                        < h.t.total_rank())
            },
    decreases hits.len(),
{
    if hits.len() > 0 {
        let front = hits.drop_last();
        lemma_nearest(front);
        assert forall|i: int| 0 <= i < front.len() implies front[i] == hits[i] by {}
        match nearest(hits) {
            Some(best) => {
                match nearest(front) {
                    Some(b) => {
                        let i0 = choose|i: int|
                            {
                                &&& 0 <= i < front.len()
                                &&& #[trigger] front[i] == Some(b)
                                &&& forall|j: int|
                                    0 <= j < front.len() ==> (#[trigger] front[j] matches Some(h)
                                        ==> b.t.total_rank() <= h.t.total_rank())
                                &&& forall|j: int|
                                    0 <= j < i ==> (#[trigger] front[j] matches Some(h)
                                        ==> b.t.total_rank() < h.t.total_rank())
                            };
                        if nearest(hits) == nearest(front) {
                            assert(hits[i0] == Some(best));
                            assert forall|j: int| 0 <= j < hits.len() implies (
                            #[trigger] hits[j] matches Some(h) ==> best.t.total_rank()
                                <= h.t.total_rank()) by {
                                if j < front.len() {
                                    assert(front[j] == hits[j]);
                                }
                            }
                            assert forall|j: int| 0 <= j < i0 implies (
                            #[trigger] hits[j] matches Some(h) ==> best.t.total_rank()
                                < h.t.total_rank()) by {
                                assert(front[j] == hits[j]);
                            }
                        } else {
                            let i1 = hits.len() - 1;
                            assert(hits[i1] == Some(best));
                            assert forall|j: int| 0 <= j < hits.len() implies (
                            #[trigger] hits[j] matches Some(h) ==> best.t.total_rank()
                                <= h.t.total_rank()) by {
                                if j < front.len() {
                                    assert(front[j] == hits[j]);
                                }
                            }
                            assert forall|j: int| 0 <= j < i1 implies (
                            #[trigger] hits[j] matches Some(h) ==> best.t.total_rank()
                                < h.t.total_rank()) by {
                                assert(front[j] == hits[j]);
                            }
                        }
                    },
                    None => {
                        let i1 = hits.len() - 1;
                        assert(hits[i1] == Some(best));
                        assert forall|j: int| 0 <= j < hits.len() implies (
                        #[trigger] hits[j] matches Some(h) ==> best.t.total_rank()
                            <= h.t.total_rank()) by {
                            if j < front.len() {
                                assert(front[j] == hits[j]);
                            }
                        }
                        assert forall|j: int| 0 <= j < i1 implies (#[trigger] hits[j] matches Some(h)
                            ==> best.t.total_rank() < h.t.total_rank()) by {
                            assert(front[j] == hits[j]);
                        }
                    },
                }
            },
            None => {
                assert forall|i: int| 0 <= i < hits.len() implies hits[i] is None by {
                    if i < front.len() {
                        assert(front[i] == hits[i]);
                    }
                }
            },
        }
        if forall|i: int| 0 <= i < hits.len() ==> hits[i] is None {
            assert forall|i: int| 0 <= i < front.len() implies front[i] is None by {
                assert(front[i] == hits[i]);
            }
        }
    }
}

/// Whether `hits` holds, object by object, what the objects answered to the
/// ray within `t_range`.
pub open spec fn answers<H: Hittable>(
    objects: Seq<H>,
    ray: Ray,
    t_range: Interval,
    hits: Seq<Option<HitRecord>>,
) -> bool {
    &&& hits.len() == objects.len()
    &&& forall|i: int|
        0 <= i < objects.len() ==> call_ensures(H::hit, (&objects[i], &ray, t_range), #[trigger] hits[i])
}

/// A scene as a flat list of objects, with the box that holds them all.
pub struct HittableList<H: Hittable> {
    objects: Vec<H>,
    boxes: Vec<Aabb>,
    bbox: Aabb,
}

/// The box that holds all the given boxes: the empty box enclosed with each
/// of them in turn.
pub open spec fn enclose_all(boxes: Seq<Aabb>) -> Aabb
    decreases boxes.len(),
{
    if boxes.len() == 0 {
        Aabb::empty()
    } else {
        enclose_all(boxes.drop_last()).enclose(boxes.last())
    }
}

impl<H: Hittable> HittableList<H> {
    /// The list holds one box for each object, the box that the object
    /// gave, and the box of the scene is the box that holds them all.
    pub closed spec fn wf(&self) -> bool {
        &&& self.boxes@.len() == self.objects@.len()
        &&& self.bbox == enclose_all(self.boxes@)
        &&& forall|i: int|
            0 <= i < self.objects@.len() ==> call_ensures(
                H::bounding_box,
                (&self.objects@[i],),
                #[trigger] self.boxes@[i],
            )
    }

    /// The objects, in the order in which they were added.
    pub closed spec fn objects(&self) -> Seq<H> {
        self.objects@
    }

    /// The bounding box that each object gave when it was added.
    pub closed spec fn boxes(&self) -> Seq<Aabb> {
        self.boxes@
    }

    /// An empty scene.
    pub fn new() -> (list: Self)
        ensures
            list.wf(),
            list.objects().len() == 0,
            list.boxes().len() == 0,
    {
        HittableList { objects: Vec::new(), boxes: Vec::new(), bbox: Aabb::empty() }
    }

    /// How many objects the scene holds.
    pub fn len(&self) -> (n: usize)
        ensures
            n == self.objects().len(),
    {
        self.objects.len()
    }

    /// In a well-formed list every object has its box, and each box is one
    /// that the object gives.
    pub proof fn lemma_boxes(&self)
        requires
            self.wf(),
        ensures
            self.boxes().len() == self.objects().len(),
            forall|i: int|
                0 <= i < self.objects().len() ==> call_ensures(
                    H::bounding_box,
                    (&self.objects()[i],),
                    #[trigger] self.boxes()[i],
                ),
    {
    }

    /// Adds an object to the scene, and its bounding box to the box of the
    /// scene.
    pub fn add(&mut self, object: H)
        requires
            old(self).wf(),
        ensures
            final(self).wf(),
            final(self).objects() == old(self).objects().push(object),
            final(self).boxes().len() == old(self).boxes().len() + 1,
            final(self).boxes().drop_last() == old(self).boxes(),
            call_ensures(H::bounding_box, (&object,), final(self).boxes().last()),
    {
        let b: Aabb = object.bounding_box();
        let ghost before = self.boxes@;
        self.bbox = self.bbox.enclose(b);
        self.boxes.push(b);
        self.objects.push(object);
        proof {
            assert(self.boxes@.drop_last() =~= before);
        }
    }
}

impl<H: Hittable> Default for HittableList<H> {
    fn default() -> (list: Self)
        ensures
            list.wf(),
            list.objects().len() == 0,
    {
        HittableList::new()
    }
}

impl<H: Hittable> Hittable for HittableList<H> {
    /// The nearest of the hits of the objects, by a scan of the whole list.
    fn hit(&self, ray: &Ray, t_range: Interval) -> (r: Option<HitRecord>)
        ensures
            exists|hits: Seq<Option<HitRecord>>|
                #[trigger] answers(self.objects(), *ray, t_range, hits) && r == nearest(hits),
    {
        let mut best: Option<HitRecord> = None;
        let ghost mut hits: Seq<Option<HitRecord>> = Seq::empty();
        let mut i: usize = 0;
        while i < self.objects.len()
            invariant
                i <= self.objects.len(),
                hits.len() == i,
                forall|k: int|
                    0 <= k < i ==> call_ensures(
                        H::hit,
                        (&self.objects@[k], ray, t_range),
                        #[trigger] hits[k],
                    ),
                best == nearest(hits),
                best matches Some(h) ==> t_range.contains(h.t),
            decreases self.objects.len() - i,
        {
            let next: Option<HitRecord> = self.objects[i].hit(ray, t_range);
            proof {
                let longer = hits.push(next);
                assert(longer.drop_last() =~= hits);
                hits = longer;
            }
            best = match (best, next) {
                (_, None) => best,
                (None, Some(_)) => next,
                (Some(b), Some(n)) => if n.t.total_key() < b.t.total_key() {
                    next
                } else {
                    best
                },
            };
            i = i + 1;
        }
        proof {
            assert(answers(self.objects(), *ray, t_range, hits));
        }
        best
    }

    /// The box that holds every object of the scene.
    fn bounding_box(&self) -> (b: Aabb)
        ensures
            self.wf() ==> b == enclose_all(self.boxes()),
    {
        self.bbox
    }
}

/// A sphere.
#[derive(Clone, Copy, Debug)]
pub struct Sphere {
    pub center: Vec3,
    pub radius: Scalar,
    pub material: Material,
}

impl Sphere {
    /// The parameter at which a ray hits the sphere within `t_range`, from
    /// the discriminant of the quadratic and its two roots, `near` being the
    /// smaller. A negative discriminant is a miss. Otherwise the hit is at
    /// the smaller root where that lies in the range, else at the larger
    /// where that does, else there is none.
    pub fn nearest_root(discriminant: Scalar, near: Scalar, far: Scalar, t_range: Interval) -> (t:
        Option<Scalar>)
        ensures
            t == if discriminant.lt(Scalar::zero()) {
                None
            } else if t_range.contains(near) {
                Some(near)
            } else if t_range.contains(far) {
                Some(far)
            } else {
                None
            },
            t matches Some(root) ==> t_range.contains(root),
    {
        if discriminant.lt(Scalar::zero()) {
            return None;
        }
        let mut t: Scalar = near;
        if !t_range.contains(t) {
            t = far;
            if !t_range.contains(t) {
                return None;
            }
        }
        Some(t)
    }

    /// The record of a hit of this sphere at parameter `t`, from the point
    /// of the hit, the outward unit normal there, and `facing`, the dot
    /// product of the direction of the ray with that normal. The ray meets
    /// the front face where `facing` is negative; the recorded normal is the
    /// outward one there, and its opposite otherwise, so that it always
    /// stands against the ray.
    pub fn record(&self, point: Vec3, out_normal: Vec3, t: Scalar, facing: Scalar) -> (h: HitRecord)
        ensures
            h.point == point,
            h.t == t,
            h.is_front_face == facing.lt(Scalar::zero()),
            h.normal == if facing.lt(Scalar::zero()) {
                out_normal
            } else {
                out_normal.neg()
            },
            h.material == self.material,
    {
        let is_front_face: bool = facing.lt(Scalar::zero());
        let normal: Vec3 = if is_front_face {
            out_normal
        } else {
            out_normal.neg()
        };
        HitRecord { point, normal, t, is_front_face, material: self.material }
    }
}

} // verus!
