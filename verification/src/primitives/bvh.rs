//! The bounding volume hierarchy: a binary tree of boxes over the objects of
//! a scene, built by median split, and its traversal by a ray.

use vstd::prelude::*;

use crate::math::aabb::{Aabb, Axis};
use crate::math::interval::Interval;
use crate::math::scalar::Scalar;
use crate::primitives::{enclose_all, HitRecord, Hittable, HittableList, Ray};

verus! {

/// A child of a node of the hierarchy: an object of the scene, by its place
/// in the list, or another node.
#[derive(Debug)]
pub enum BvhChild {
    Object(usize),
    Node(Box<BvhNode>),
}

/// A node of a bounding volume hierarchy: two children and the box that holds
/// whatever lies below them.
#[derive(Debug)]
pub struct BvhNode {
    pub left: BvhChild,
    pub right: BvhChild,
    pub bbox: Aabb,
}

/// The key by which boxes are sorted along an axis: the place of the lower
/// end of the box in the total order of scalars.
pub open spec fn sort_key(b: Aabb, axis: Axis) -> int {
    b.axis(axis).min.total_rank()
}

/// The boxes of the listed objects, in the order of the listing.
pub open spec fn boxes_of(boxes: Seq<Aabb>, items: Seq<usize>) -> Seq<Aabb> {
    Seq::new(items.len(), |k: int| boxes[items[k] as int])
}

/// Whether every listed object has a box.
pub open spec fn all_listed(boxes: Seq<Aabb>, items: Seq<usize>) -> bool {
    forall|k: int| 0 <= k < items.len() ==> #[trigger] items[k] < boxes.len()
}

/// Whether the listed objects stand in ascending order of their sort keys
/// along the axis.
pub open spec fn sorted_along(boxes: Seq<Aabb>, items: Seq<usize>, axis: Axis) -> bool {
    forall|i: int, j: int|
        0 <= i <= j < items.len() ==> sort_key(boxes[#[trigger] items[i] as int], axis) <= sort_key(
            boxes[#[trigger] items[j] as int],
            axis,
        )
}

/// The sort key of the box of object `i`, as a machine integer.
fn box_key(boxes: &Vec<Aabb>, axis: Axis, i: usize) -> (k: i64)
    requires
        i < boxes.len(),
    ensures
        k == sort_key(boxes[i as int], axis),
{
    boxes[i].axis(axis).min.total_key()
}

/// Sorts the listed objects by the sort keys of their boxes along the axis,
/// with `sort_unstable_by_key` of the standard library's slices. The contract
/// claims what the documentation of that function says: afterwards the list
/// holds the same objects as before, each as often as before, in ascending
/// order of their keys; objects with equal keys may come in any order.
#[verifier::external_body]
fn sort_by_box_min(items: &mut Vec<usize>, boxes: &Vec<Aabb>, axis: Axis)
    requires
        all_listed(boxes@, old(items)@),
    ensures
        final(items)@.to_multiset() == old(items)@.to_multiset(),
        sorted_along(boxes@, final(items)@, axis),
{
    items.sort_unstable_by_key(|i| box_key(boxes, axis, *i));
}

/// The range in which the right child of a node is asked, after the left
/// child gave `hit_left`: from the lower end of the range of the node up to
/// the hit, or to the upper end of the range where the left child was not
/// hit.
pub open spec fn right_range(t_range: Interval, hit_left: Option<HitRecord>) -> Interval {
    Interval {
        min: t_range.min,
        max: match hit_left {
            Some(h) => h.t,
            None => t_range.max,
        },
    }
}

/// What a node gives back for the hits of its children: the hit of the right
/// child where there is one, and that of the left child otherwise.
pub open spec fn right_before_left(
    hit_left: Option<HitRecord>,
    hit_right: Option<HitRecord>,
) -> Option<HitRecord> {
    if hit_right is Some {
        hit_right
    } else {
        hit_left
    }
}

impl BvhChild {
    /// Whether every object below is one of the first `n` of the scene.
    pub open spec fn in_scene(self, n: nat) -> bool
        decreases self,
    {
        match self {
            BvhChild::Object(i) => i < n,
            BvhChild::Node(node) => node.in_scene(n),
        }
    }

    /// Whether `r` is a result to which the traversal of this child can
    /// come: an answer of the object, or an outcome of the node.
    pub open spec fn hit_outcome<H: Hittable, F: Fn(&Aabb, &Ray, Interval) -> bool>(
        self,
        objects: Seq<H>,
        ray: Ray,
        t_range: Interval,
        box_test: F,
        r: Option<HitRecord>,
    ) -> bool
        decreases self,
    {
        match self {
            BvhChild::Object(i) => call_ensures(H::hit, (&objects[i as int], &ray, t_range), r),
            BvhChild::Node(node) => node.hit_outcome(objects, ray, t_range, box_test, r),
        }
    }

    /// Where the ray hits what lies below this child, within `t_range`.
    pub fn hit<H: Hittable, F: Fn(&Aabb, &Ray, Interval) -> bool>(
        &self,
        list: &HittableList<H>,
        ray: &Ray,
        t_range: Interval,
        box_test: &F,
    ) -> (r: Option<HitRecord>)
        requires
            self.in_scene(list.objects().len()),
            forall|b: Aabb, ray: Ray, t: Interval| call_requires(*box_test, (&b, &ray, t)),
        ensures
            self.hit_outcome(list.objects(), *ray, t_range, *box_test, r),
            r matches Some(h) ==> t_range.contains(h.t),
        decreases self,
    {
        match self {
            BvhChild::Object(i) => list.objects[*i].hit(ray, t_range),
            BvhChild::Node(node) => node.hit(list, ray, t_range, box_test),
        }
    }
}

impl BvhNode {
    /// Whether every object below is one of the first `n` of the scene.
    pub open spec fn in_scene(self, n: nat) -> bool
        decreases self,
    {
        self.left.in_scene(n) && self.right.in_scene(n)
    }

    /// Whether `r` is a result to which the traversal of this node can come.
    ///
    /// Where the box test rejects the box of the node, that is no hit.
    /// Where it accepts, the left child is asked within `t_range`, then the
    /// right child within what of `t_range` lies before the hit of the left
    /// child; the result is the hit of the right child where there is one,
    /// and that of the left child otherwise.
    pub open spec fn hit_outcome<H: Hittable, F: Fn(&Aabb, &Ray, Interval) -> bool>(
        self,
        objects: Seq<H>,
        ray: Ray,
        t_range: Interval,
        box_test: F,
        r: Option<HitRecord>,
    ) -> bool
        decreases self,
    {
        ||| call_ensures(box_test, (&self.bbox, &ray, t_range), false) && r is None
        ||| {
            &&& call_ensures(box_test, (&self.bbox, &ray, t_range), true)
            &&& exists|hit_left: Option<HitRecord>, hit_right: Option<HitRecord>|
                {
                    &&& self.left.hit_outcome(objects, ray, t_range, box_test, hit_left)
                    &&& self.right.hit_outcome(
                        objects,
                        ray,
                        right_range(t_range, hit_left),
                        box_test,
                        hit_right,
                    )
                    &&& r == #[trigger] right_before_left(hit_left, hit_right)
                }
        }
    }

    /// Where the ray hits the scene below this node, within `t_range`. A
    /// subtree whose box `box_test` rejects is passed over; a hit on the left
    /// narrows the range in which the right is asked, so that of two hits the
    /// one that is not farther comes back.
    pub fn hit<H: Hittable, F: Fn(&Aabb, &Ray, Interval) -> bool>(
        &self,
        list: &HittableList<H>,
        ray: &Ray,
        t_range: Interval,
        box_test: &F,
    ) -> (r: Option<HitRecord>)
        requires
            self.in_scene(list.objects().len()),
            forall|b: Aabb, ray: Ray, t: Interval| call_requires(*box_test, (&b, &ray, t)),
        ensures
            self.hit_outcome(list.objects(), *ray, t_range, *box_test, r),
            r matches Some(h) ==> t_range.contains(h.t),
        decreases self,
    {
        if !box_test(&self.bbox, ray, t_range) {
            return None;
        }
        let hit_left: Option<HitRecord> = self.left.hit(list, ray, t_range, box_test);
        let right_t_max: Scalar = match hit_left {
            Some(h) => h.t,
            None => t_range.max,
        };
        let hit_right: Option<HitRecord> = self.right.hit(
            list,
            ray,
            Interval::new(t_range.min, right_t_max),
            box_test,
        );
        proof {
            assert(Interval::new(t_range.min, right_t_max) == right_range(t_range, hit_left));
            let _ = right_before_left(hit_left, hit_right);
        }
        match hit_right {
            Some(h) => Some(h),
            None => hit_left,
        }
    }

    /// Whether the node is what the median split builds over the listed
    /// objects.
    ///
    /// The box of the node holds the boxes of all of them. A single object
    /// is both children of the node, and two objects are its two children as
    /// they stand. Three or more are sorted by the lower ends of their boxes
    /// along an axis that `choose_axis` gives for the box of the node, and
    /// divided in the middle: the first half, the smaller where the number is
    /// odd, is built into the left child, the rest into the right child.
    pub open spec fn built_over<F: Fn(&Aabb) -> Axis>(
        self,
        boxes: Seq<Aabb>,
        items: Seq<usize>,
        choose_axis: F,
    ) -> bool
        decreases self,
    {
        &&& items.len() >= 1
        &&& self.bbox == enclose_all(boxes_of(boxes, items))
        &&& if items.len() == 1 {
            self.left == BvhChild::Object(items[0]) && self.right == BvhChild::Object(items[0])
        } else if items.len() == 2 {
            self.left == BvhChild::Object(items[0]) && self.right == BvhChild::Object(items[1])
        } else {
            &&& self.left matches BvhChild::Node(l)
            &&& self.right matches BvhChild::Node(r)
            &&& exists|axis: Axis, sorted: Seq<usize>|
                {
                    &&& call_ensures(choose_axis, (&self.bbox,), axis)
                    &&& sorted.to_multiset() == items.to_multiset()
                    &&& #[trigger] sorted_along(boxes, sorted, axis)
                    &&& l.built_over(
                        boxes,
                        sorted.subrange(0, sorted.len() as int / 2),
                        choose_axis,
                    )
                    &&& r.built_over(
                        boxes,
                        sorted.subrange(sorted.len() as int / 2, sorted.len() as int),
                        choose_axis,
                    )
                }
        }
    }

    /// Builds the hierarchy over the listed objects by median split. The
    /// split axis of each node is the one that `choose_axis` gives for the
    /// box of the node.
    pub fn from_hittables<F: Fn(&Aabb) -> Axis>(
        boxes: &Vec<Aabb>,
        items: Vec<usize>,
        choose_axis: &F,
    ) -> (node: BvhNode)
        requires
            items.len() >= 1,
            all_listed(boxes@, items@),
            forall|b: Aabb| call_requires(*choose_axis, (&b,)),
        ensures
            node.built_over(boxes@, items@, *choose_axis),
            node.in_scene(boxes@.len()),
        decreases items.len(),
    {
        let n: usize = items.len();
        let mut bbox: Aabb = Aabb::empty();
        let mut k: usize = 0;
        while k < n
            invariant
                k <= n,
                n == items.len(),
                all_listed(boxes@, items@),
                bbox == enclose_all(boxes_of(boxes@, items@.subrange(0, k as int))),
            decreases n - k,
        {
            let i: usize = items[k];
            proof {
                let shorter = boxes_of(boxes@, items@.subrange(0, k as int));
                let longer = boxes_of(boxes@, items@.subrange(0, k as int + 1));
                assert(longer.drop_last() =~= shorter);
                assert(longer.last() == boxes@[i as int]);
            }
            bbox = bbox.enclose(boxes[i]);
            k = k + 1;
        }
        assert(items@.subrange(0, n as int) =~= items@);

        let axis: Axis = choose_axis(&bbox);
        if n == 1 {
            BvhNode { left: BvhChild::Object(items[0]), right: BvhChild::Object(items[0]), bbox }
        } else if n == 2 {
            BvhNode { left: BvhChild::Object(items[0]), right: BvhChild::Object(items[1]), bbox }
        } else {
            let mut sorted: Vec<usize> = items;
            sort_by_box_min(&mut sorted, boxes, axis);
            let ghost whole = sorted@;
            proof {
                lemma_same_objects(boxes@, items@, whole);
            }
            let mid: usize = n / 2;
            let upper: Vec<usize> = sorted.split_off(mid);
            let left: BvhNode = Self::from_hittables(boxes, sorted, choose_axis);
            let right: BvhNode = Self::from_hittables(boxes, upper, choose_axis);
            let node = BvhNode {
                left: BvhChild::Node(Box::new(left)),
                right: BvhChild::Node(Box::new(right)),
                bbox,
            };
            proof {
                assert(call_ensures(*choose_axis, (&node.bbox,), axis));
                assert(sorted_along(boxes@, whole, axis));
                assert(left.built_over(boxes@, whole.subrange(0, whole.len() as int / 2), *choose_axis));
                assert(right.built_over(
                    boxes@,
                    whole.subrange(whole.len() as int / 2, whole.len() as int),
                    *choose_axis,
                ));
            }
            node
        }
    }

    /// Builds the hierarchy over all objects of a scene.
    pub fn new<H: Hittable, F: Fn(&Aabb) -> Axis>(list: &HittableList<H>, choose_axis: F) -> (node:
        BvhNode)
        requires
            list.wf(),
            list.objects().len() >= 1,
            forall|b: Aabb| call_requires(choose_axis, (&b,)),
        ensures
            node.built_over(
                list.boxes(),
                Seq::new(list.objects().len(), |i: int| i as usize),
                choose_axis,
            ),
            node.in_scene(list.objects().len()),
            list.boxes().len() == list.objects().len(),
    {
        proof {
            list.lemma_boxes();
        }
        let n: usize = list.objects.len();
        let mut items: Vec<usize> = Vec::new();
        let mut i: usize = 0;
        while i < n
            invariant
                i <= n,
                items.len() == i,
                forall|k: int| 0 <= k < i ==> items[k] == k,
            decreases n - i,
        {
            items.push(i);
            i = i + 1;
        }
        assert(items@ =~= Seq::new(list.objects().len(), |i: int| i as usize));
        Self::from_hittables(&list.boxes, items, &choose_axis)
    }
}

/// A rearrangement of a listing lists the same objects: it is as long, and
/// every object in it has a box if every object of the listing has.
pub proof fn lemma_same_objects(boxes: Seq<Aabb>, items: Seq<usize>, sorted: Seq<usize>)
    requires
        sorted.to_multiset() == items.to_multiset(),
        all_listed(boxes, items),
    ensures
        sorted.len() == items.len(),
        all_listed(boxes, sorted),
{
    sorted.to_multiset_ensures();
    items.to_multiset_ensures();
    assert forall|k: int| 0 <= k < sorted.len() implies #[trigger] sorted[k] < boxes.len() by {
        assert(sorted.contains(sorted[k]));
        assert(items.to_multiset().count(sorted[k]) > 0);
        assert(items.contains(sorted[k]));
        let j = choose|j: int| 0 <= j < items.len() && items[j] == sorted[k];
        assert(items[j] < boxes.len());
    }
}

/// A scene with its hierarchy: the objects, the hierarchy built over them,
/// and the test by which a ray is held against the box of a node.
pub struct Bvh<H: Hittable, F: Fn(&Aabb, &Ray, Interval) -> bool> {
    list: HittableList<H>,
    root: Option<BvhNode>,
    box_test: F,
}

impl<H: Hittable, F: Fn(&Aabb, &Ray, Interval) -> bool> Bvh<H, F> {
    #[verifier::type_invariant]
    spec fn inv(self) -> bool {
        &&& self.list.wf()
        &&& self.root matches Some(node) ==> node.in_scene(self.list.objects().len())
        &&& forall|b: Aabb, ray: Ray, t: Interval| call_requires(self.box_test, (&b, &ray, t))
    }

    /// The objects of the scene, in the order of the list it was built from.
    pub closed spec fn objects(&self) -> Seq<H> {
        self.list.objects()
    }

    /// The bounding boxes of the objects.
    pub closed spec fn boxes(&self) -> Seq<Aabb> {
        self.list.boxes()
    }

    /// The root of the hierarchy; a scene without objects has none.
    pub closed spec fn root(&self) -> Option<BvhNode> {
        self.root
    }

    /// The test for the boxes of the nodes.
    pub closed spec fn box_test(&self) -> F {
        self.box_test
    }

    /// Builds the hierarchy over the objects of a scene.
    pub fn new<A: Fn(&Aabb) -> Axis>(list: HittableList<H>, choose_axis: A, box_test: F) -> (bvh:
        Self)
        requires
            list.wf(),
            forall|b: Aabb| call_requires(choose_axis, (&b,)),
            forall|b: Aabb, ray: Ray, t: Interval| call_requires(box_test, (&b, &ray, t)),
        ensures
            bvh.objects() == list.objects(),
            bvh.boxes() == list.boxes(),
            bvh.box_test() == box_test,
            match bvh.root() {
                Some(node) => list.objects().len() > 0 && node.built_over(
                    list.boxes(),
                    Seq::new(list.objects().len(), |i: int| i as usize),
                    choose_axis,
                ),
                None => list.objects().len() == 0,
            },
    {
        let root: Option<BvhNode> = if list.len() >= 1 {
            Some(BvhNode::new(&list, choose_axis))
        } else {
            None
        };
        Bvh { list, root, box_test }
    }
}

impl<H: Hittable, F: Fn(&Aabb, &Ray, Interval) -> bool> Hittable for Bvh<H, F> {
    /// Where the ray hits the scene, by a traversal of the hierarchy.
    fn hit(&self, ray: &Ray, t_range: Interval) -> (r: Option<HitRecord>)
        ensures
            match self.root() {
                Some(node) => node.hit_outcome(self.objects(), *ray, t_range, self.box_test(), r),
                None => r is None,
            },
    {
        proof {
            use_type_invariant(self);
        }
        match &self.root {
            Some(node) => node.hit(&self.list, ray, t_range, &self.box_test),
            None => None,
        }
    }

    /// The box that holds every object of the scene.
    fn bounding_box(&self) -> (b: Aabb)
        ensures
            b == enclose_all(self.boxes()),
    {
        proof {
            use_type_invariant(self);
        }
        self.list.bounding_box()
    }
}

} // verus!
