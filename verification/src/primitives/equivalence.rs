//! The hierarchy against the flat list: when a traversal of the hierarchy
//! comes to the hit that a scan of the whole list comes to.
//!
//! What the objects answer and what the box test says is worked out in
//! arithmetic that this library does not do, so the laws here hold under what
//! they say of both: that an object answers with its nearest crossing in
//! the range it is asked for, and that the box test rejects no box with a
//! crossing inside.

use vstd::prelude::*;

use crate::math::aabb::{lemma_enclose_smallest, Aabb, Axis};
use crate::math::interval::{lemma_interval_empty_identity, Interval};
use crate::math::scalar::Scalar;
use crate::primitives::bvh::{
    all_listed, boxes_of, lemma_same_objects, right_before_left, right_range, sorted_along,
    BvhChild, BvhNode,
};
use crate::primitives::{answers, enclose_all, lemma_nearest, nearest, HitRecord, Hittable, Ray};

verus! {

/// What is left of a hit when the range is cut off at `u`: the hit where it
/// lies no further than `u`, nothing otherwise.
pub open spec fn narrowed(hit: Option<HitRecord>, u: Scalar) -> Option<HitRecord> {
    match hit {
        Some(h) => if h.t.le(u) {
            hit
        } else {
            None
        },
        None => None,
    }
}

/// Whether object `i` answers, when asked in `t_range` cut off at `u`, with
/// what is left of its answer in `t_range`.
pub open spec fn narrows(
    answer: spec_fn(int, Interval) -> Option<HitRecord>,
    i: int,
    t_range: Interval,
    u: Scalar,
) -> bool {
    answer(i, Interval { min: t_range.min, max: u }) == narrowed(answer(i, t_range), u)
}

/// Whether the objects answer the ray as `answer` says, and with their
/// nearest crossing in the range: each call gives the one answer, the answer
/// lies in the range, and cutting the range off from above leaves the answer
/// as it is or leaves none.
pub open spec fn answer_nearest_in_range<H: Hittable>(
    objects: Seq<H>,
    ray: Ray,
    answer: spec_fn(int, Interval) -> Option<HitRecord>,
) -> bool {
    &&& forall|i: int, t_range: Interval, r: Option<HitRecord>|
        0 <= i < objects.len() && #[trigger] call_ensures(H::hit, (&objects[i], &ray, t_range), r)
            ==> r == answer(i, t_range)
    &&& forall|i: int, t_range: Interval|
        0 <= i < objects.len() ==> (#[trigger] answer(i, t_range) matches Some(h)
            ==> t_range.contains(h.t))
    &&& forall|i: int, t_range: Interval, u: Scalar|
        0 <= i < objects.len() && u.le(t_range.max) ==> #[trigger] narrows(answer, i, t_range, u)
}

impl BvhChild {
    /// Whether object `i` lies below this child.
    pub open spec fn holds(self, i: int) -> bool
        decreases self,
    {
        match self {
            BvhChild::Object(j) => j == i,
            BvhChild::Node(node) => node.holds(i),
        }
    }

    /// Whether the box test is conservative on every node below: see
    /// `BvhNode::conservative`.
    pub open spec fn conservative<F: Fn(&Aabb, &Ray, Interval) -> bool>(
        self,
        ray: Ray,
        box_test: F,
        answer: spec_fn(int, Interval) -> Option<HitRecord>,
    ) -> bool
        decreases self,
    {
        match self {
            BvhChild::Object(_) => true,
            BvhChild::Node(node) => node.conservative(ray, box_test, answer),
        }
    }
}

impl BvhNode {
    /// Whether object `i` lies below this node.
    pub open spec fn holds(self, i: int) -> bool
        decreases self,
    {
        self.left.holds(i) || self.right.holds(i)
    }

    /// Whether the box test is conservative on this node and on every node
    /// below: where it rejects the box of a node for a range, no object
    /// below that node answers with a hit in that range.
    pub open spec fn conservative<F: Fn(&Aabb, &Ray, Interval) -> bool>(
        self,
        ray: Ray,
        box_test: F,
        answer: spec_fn(int, Interval) -> Option<HitRecord>,
    ) -> bool
        decreases self,
    {
        &&& forall|t_range: Interval, i: int|
            call_ensures(box_test, (&self.bbox, &ray, t_range), false) && self.holds(i)
                ==> #[trigger] answer(i, t_range) is None
        &&& self.left.conservative(ray, box_test, answer)
        &&& self.right.conservative(ray, box_test, answer)
    }
}

impl BvhChild {
    /// Whether `r` is the nearest of the answers of the objects below this
    /// child: nothing where none of them is hit; else the answer of one of
    /// them, with no answer of another nearer as a number.
    pub open spec fn nearest_below(
        self,
        r: Option<HitRecord>,
        answer: spec_fn(int, Interval) -> Option<HitRecord>,
        t_range: Interval,
    ) -> bool {
        match r {
            None => forall|i: int| self.holds(i) ==> #[trigger] answer(i, t_range) is None,
            Some(h) => {
                &&& exists|i: int| self.holds(i) && #[trigger] answer(i, t_range) == Some(h)
                &&& forall|j: int|
                    self.holds(j) ==> (#[trigger] answer(j, t_range) matches Some(other) ==> h.t.le(
                        other.t,
                    ))
            },
        }
    }
}

impl BvhNode {
    /// Whether `r` is the nearest of the answers of the objects below this
    /// node: nothing where none of them is hit; else the answer of one of
    /// them, with no answer of another nearer as a number.
    pub open spec fn nearest_below(
        self,
        r: Option<HitRecord>,
        answer: spec_fn(int, Interval) -> Option<HitRecord>,
        t_range: Interval,
    ) -> bool {
        match r {
            None => forall|i: int| self.holds(i) ==> #[trigger] answer(i, t_range) is None,
            Some(h) => {
                &&& exists|i: int| self.holds(i) && #[trigger] answer(i, t_range) == Some(h)
                &&& forall|j: int|
                    self.holds(j) ==> (#[trigger] answer(j, t_range) matches Some(other) ==> h.t.le(
                        other.t,
                    ))
            },
        }
    }
}

/// Every object below a child in the scene is an object of the scene.
pub proof fn lemma_child_holds_in_scene(child: BvhChild, n: nat, i: int)
    requires
        child.in_scene(n),
        child.holds(i),
    ensures
        0 <= i < n,
    decreases child,
{
    match child {
        BvhChild::Object(_) => {},
        BvhChild::Node(node) => {
            lemma_node_holds_in_scene(*node, n, i);
        },
    }
}

/// Every object below a node in the scene is an object of the scene.
pub proof fn lemma_node_holds_in_scene(node: BvhNode, n: nat, i: int)
    requires
        node.in_scene(n),
        node.holds(i),
    ensures
        0 <= i < n,
    decreases node,
{
    if node.left.holds(i) {
        lemma_child_holds_in_scene(node.left, n, i);
    } else {
        lemma_child_holds_in_scene(node.right, n, i);
    }
}

/// The traversal of a child comes to the nearest answer of the objects
/// below it, where the objects answer with their nearest crossing and the box
/// test is conservative.
pub proof fn lemma_child_finds_nearest<H: Hittable, F: Fn(&Aabb, &Ray, Interval) -> bool>(
    child: BvhChild,
    objects: Seq<H>,
    ray: Ray,
    t_range: Interval,
    box_test: F,
    r: Option<HitRecord>,
    answer: spec_fn(int, Interval) -> Option<HitRecord>,
)
    requires
        child.in_scene(objects.len()),
        answer_nearest_in_range(objects, ray, answer),
        child.conservative(ray, box_test, answer),
        child.hit_outcome(objects, ray, t_range, box_test, r),
    ensures
        child.nearest_below(r, answer, t_range),
    decreases child,
{
    match child {
        BvhChild::Object(j) => {
            assert(r == answer(j as int, t_range));
            match r {
                Some(h) => {
                    assert(t_range.contains(h.t));
                    assert(child.holds(j as int));
                },
                None => {},
            }
        },
        BvhChild::Node(node) => {
            lemma_node_finds_nearest(*node, objects, ray, t_range, box_test, r, answer);
        },
    }
}

/// The traversal of a node comes to the nearest answer of the objects below
/// it, where the objects answer with their nearest crossing and the box test
/// is conservative.
pub proof fn lemma_node_finds_nearest<H: Hittable, F: Fn(&Aabb, &Ray, Interval) -> bool>(
    node: BvhNode,
    objects: Seq<H>,
    ray: Ray,
    t_range: Interval,
    box_test: F,
    r: Option<HitRecord>,
    answer: spec_fn(int, Interval) -> Option<HitRecord>,
)
    requires
        node.in_scene(objects.len()),
        answer_nearest_in_range(objects, ray, answer),
        node.conservative(ray, box_test, answer),
        node.hit_outcome(objects, ray, t_range, box_test, r),
    ensures
        node.nearest_below(r, answer, t_range),
    decreases node,
{
    if call_ensures(box_test, (&node.bbox, &ray, t_range), false) && r is None {
        assert forall|i: int| node.holds(i) implies #[trigger] answer(i, t_range) is None by {}
    } else {
        let (hit_left, hit_right) = choose|hit_left: Option<HitRecord>, hit_right: Option<HitRecord>|
            {
                &&& node.left.hit_outcome(objects, ray, t_range, box_test, hit_left)
                &&& node.right.hit_outcome(
                    objects,
                    ray,
                    right_range(t_range, hit_left),
                    box_test,
                    hit_right,
                )
                &&& r == #[trigger] right_before_left(hit_left, hit_right)
            };
        let cut = right_range(t_range, hit_left);
        lemma_child_finds_nearest(node.left, objects, ray, t_range, box_test, hit_left, answer);
        lemma_child_finds_nearest(node.right, objects, ray, cut, box_test, hit_right, answer);
        // What the objects on the right answer in the whole range, against
        // what they answer in the range cut off at the hit on the left.
        assert forall|j: int| node.right.holds(j) implies answer(j, cut) == (match hit_left {
            Some(hl) => narrowed(answer(j, t_range), hl.t),
            None => answer(j, t_range),
        }) by {
            lemma_child_holds_in_scene(node.right, objects.len(), j);
            match hit_left {
                Some(hl) => {
                    let i = choose|i: int|
                        node.left.holds(i) && #[trigger] answer(i, t_range) == Some(hl);
                    lemma_child_holds_in_scene(node.left, objects.len(), i);
                    assert(t_range.contains(hl.t));
                    assert(narrows(answer, j, t_range, hl.t));
                },
                None => {
                    assert(cut == t_range);
                },
            }
        }
        match r {
            None => {
                assert(hit_left is None && hit_right is None);
                assert forall|i: int| node.holds(i) implies #[trigger] answer(i, t_range) is None by {
                    if node.right.holds(i) {
                        assert(answer(i, cut) is None);
                    }
                }
            },
            Some(h) => {
                match hit_right {
                    Some(hr) => {
                        assert(h == hr);
                        let i = choose|i: int|
                            node.right.holds(i) && #[trigger] answer(i, cut) == Some(hr);
                        lemma_child_holds_in_scene(node.right, objects.len(), i);
                        assert(cut.contains(hr.t));
                        assert(answer(i, t_range) == Some(h));
                        assert(node.holds(i));
                        assert forall|j: int| node.holds(j) implies (#[trigger] answer(
                            j,
                            t_range,
                        ) matches Some(other) ==> h.t.le(other.t)) by {
                            match answer(j, t_range) {
                                Some(other) => {
                                    if node.right.holds(j) {
                                        lemma_child_holds_in_scene(node.right, objects.len(), j);
                                        assert(t_range.contains(other.t));
                                        match hit_left {
                                            Some(hl) => {
                                                if other.t.le(hl.t) {
                                                    assert(answer(j, cut) == Some(other));
                                                }
                                            },
                                            None => {
                                                assert(answer(j, cut) == Some(other));
                                            },
                                        }
                                    } else {
                                        lemma_child_holds_in_scene(node.left, objects.len(), j);
                                        assert(t_range.contains(other.t));
                                        assert(hit_left is Some);
                                    }
                                },
                                None => {},
                            }
                        }
                    },
                    None => {
                        assert(hit_left == Some(h));
                        let i = choose|i: int|
                            node.left.holds(i) && #[trigger] answer(i, t_range) == Some(h);
                        assert(node.holds(i));
                        lemma_child_holds_in_scene(node.left, objects.len(), i);
                        assert(t_range.contains(h.t));
                        assert forall|j: int| node.holds(j) implies (#[trigger] answer(
                            j,
                            t_range,
                        ) matches Some(other) ==> h.t.le(other.t)) by {
                            match answer(j, t_range) {
                                Some(other) => {
                                    if node.right.holds(j) {
                                        lemma_child_holds_in_scene(node.right, objects.len(), j);
                                        assert(t_range.contains(other.t));
                                        assert(answer(j, cut) is None);
                                    }
                                },
                                None => {},
                            }
                        }
                    },
                }
            },
        }
    }
}

/// Whether the object `i` is one of the listed objects.
pub open spec fn lists(items: Seq<usize>, i: int) -> bool {
    exists|k: int| 0 <= k < items.len() && #[trigger] items[k] == i
}

/// A hierarchy built over a listing holds the listed objects and no others,
/// and all of them are objects of the scene.
pub proof fn lemma_built_holds<A: Fn(&Aabb) -> Axis>(
    node: BvhNode,
    boxes: Seq<Aabb>,
    items: Seq<usize>,
    choose_axis: A,
)
    requires
        node.built_over(boxes, items, choose_axis),
        all_listed(boxes, items),
    ensures
        forall|i: int| node.holds(i) <==> #[trigger] lists(items, i),
        node.in_scene(boxes.len()),
    decreases node,
{
    if items.len() == 1 {
        assert forall|i: int| node.holds(i) <==> #[trigger] lists(items, i) by {
            if node.holds(i) {
                assert(items[0] == i);
            }
        }
    } else if items.len() == 2 {
        assert forall|i: int| node.holds(i) <==> #[trigger] lists(items, i) by {
            if node.holds(i) {
                assert(items[0] == i || items[1] == i);
            }
        }
    } else {
        let l = node.left->Node_0;
        let r = node.right->Node_0;
        let (axis, sorted) = choose|axis: Axis, sorted: Seq<usize>|
            {
                &&& call_ensures(choose_axis, (&node.bbox,), axis)
                &&& sorted.to_multiset() == items.to_multiset()
                &&& #[trigger] sorted_along(boxes, sorted, axis)
                &&& l.built_over(boxes, sorted.subrange(0, sorted.len() as int / 2), choose_axis)
                &&& r.built_over(
                    boxes,
                    sorted.subrange(sorted.len() as int / 2, sorted.len() as int),
                    choose_axis,
                )
            };
        lemma_same_objects(boxes, items, sorted);
        let mid = sorted.len() as int / 2;
        let lower = sorted.subrange(0, mid);
        let upper = sorted.subrange(mid, sorted.len() as int);
        lemma_built_holds(*l, boxes, lower, choose_axis);
        lemma_built_holds(*r, boxes, upper, choose_axis);
        sorted.to_multiset_ensures();
        items.to_multiset_ensures();
        assert forall|i: int| node.holds(i) <==> #[trigger] lists(items, i) by {
            if node.holds(i) {
                assert(lists(lower, i) || lists(upper, i));
                if lists(lower, i) {
                    let k = choose|k: int| 0 <= k < lower.len() && #[trigger] lower[k] == i;
                    assert(sorted[k] == i);
                } else {
                    let k = choose|k: int| 0 <= k < upper.len() && #[trigger] upper[k] == i;
                    assert(sorted[mid + k] == i);
                }
                assert(sorted.contains(i as usize));
                assert(items.to_multiset().count(i as usize) > 0);
                assert(items.contains(i as usize));
                let k = choose|k: int| 0 <= k < items.len() && items[k] == i as usize;
                assert(items[k] == i);
            }
            if lists(items, i) {
                let k = choose|k: int| 0 <= k < items.len() && #[trigger] items[k] == i;
                assert(items.contains(items[k]));
                assert(sorted.to_multiset().count(items[k]) > 0);
                assert(sorted.contains(items[k]));
                let j = choose|j: int| 0 <= j < sorted.len() && sorted[j] == items[k];
                if j < mid {
                    assert(lower[j] == i);
                    assert(lists(lower, i));
                } else {
                    assert(upper[j - mid] == i);
                    assert(lists(upper, i));
                }
            }
        }
    }
}

/// Whether no two objects are hit at the same parameter.
pub open spec fn hits_apart(hits: Seq<Option<HitRecord>>) -> bool {
    forall|i: int, j: int|
        0 <= i < hits.len() && 0 <= j < hits.len() && i != j ==> (#[trigger] hits[i] matches Some(a)
            ==> (#[trigger] hits[j] matches Some(b) ==> !a.t.eq_number(b.t)))
}

/// The hierarchy against the list. Let a hierarchy be built over all objects
/// of a scene, let the objects answer a ray with their nearest crossing in
/// the range they are asked for, and let the box test be conservative. Then a
/// traversal of the hierarchy and a scan of the list come to a hit for the
/// same rays and ranges, and to hits at the same parameter, as numbers. Where
/// no two objects are hit at the same parameter, they come to the same hit:
/// the same point, normal, parameter and material.
pub proof fn lemma_hierarchy_agrees_with_list<
    H: Hittable,
    F: Fn(&Aabb, &Ray, Interval) -> bool,
    A: Fn(&Aabb) -> Axis,
>(
    node: BvhNode,
    boxes: Seq<Aabb>,
    objects: Seq<H>,
    choose_axis: A,
    ray: Ray,
    t_range: Interval,
    box_test: F,
    answer: spec_fn(int, Interval) -> Option<HitRecord>,
    from_hierarchy: Option<HitRecord>,
    hits: Seq<Option<HitRecord>>,
)
    requires
        boxes.len() == objects.len(),
        objects.len() <= usize::MAX,
        node.built_over(boxes, Seq::new(objects.len(), |i: int| i as usize), choose_axis),
        answer_nearest_in_range(objects, ray, answer),
        node.conservative(ray, box_test, answer),
        node.hit_outcome(objects, ray, t_range, box_test, from_hierarchy),
        answers(objects, ray, t_range, hits),
    ensures
        from_hierarchy is None <==> nearest(hits) is None,
        from_hierarchy matches Some(a) ==> (nearest(hits) matches Some(b) ==> a.t.eq_number(b.t)),
        hits_apart(hits) ==> from_hierarchy == nearest(hits),
{
    let items = Seq::new(objects.len(), |i: int| i as usize);
    assert(all_listed(boxes, items));
    lemma_built_holds(node, boxes, items, choose_axis);
    assert forall|i: int| 0 <= i < objects.len() implies node.holds(i) by {
        assert(items[i] == i);
        assert(lists(items, i));
    }
    assert forall|i: int| node.holds(i) implies 0 <= i < objects.len() by {
        assert(lists(items, i));
    }
    lemma_node_finds_nearest(node, objects, ray, t_range, box_test, from_hierarchy, answer);
    lemma_nearest(hits);
    assert forall|i: int| 0 <= i < hits.len() implies hits[i] == answer(i, t_range) by {}
    match from_hierarchy {
        None => {
            assert forall|i: int| 0 <= i < hits.len() implies hits[i] is None by {
                assert(node.holds(i));
            }
        },
        Some(a) => {
            let i1 = choose|i: int| node.holds(i) && #[trigger] answer(i, t_range) == Some(a);
            assert(hits[i1] == Some(a));
            assert(t_range.contains(a.t));
            match nearest(hits) {
                None => {},
                Some(b) => {
                    let i0 = choose|i: int|
                        {
                            &&& 0 <= i < hits.len()
                            &&& #[trigger] hits[i] == Some(b)
                            &&& forall|j: int|
                                0 <= j < hits.len() ==> (#[trigger] hits[j] matches Some(h)
                                    ==> b.t.total_rank() <= h.t.total_rank())
                            &&& forall|j: int|
                                0 <= j < i ==> (#[trigger] hits[j] matches Some(h)
                                    ==> b.t.total_rank() < h.t.total_rank())
                        };
                    assert(node.holds(i0));
                    assert(answer(i0, t_range) == Some(b));
                    assert(t_range.contains(b.t));
                    assert(a.t.le(b.t));
                    assert(b.t.total_rank() <= a.t.total_rank());
                    assert(a.t.eq_number(b.t));
                    if hits_apart(hits) {
                        if i0 != i1 {
                            assert(hits[i1] matches Some(x) && x == a);
                            assert(hits[i0] matches Some(y) && y == b);
                            assert(false);
                        }
                    }
                },
            }
        },
    }
}

/// Whether every one of the boxes has corners.
pub open spec fn all_ordered(boxes: Seq<Aabb>) -> bool {
    forall|i: int| 0 <= i < boxes.len() ==> (#[trigger] boxes[i]).is_ordered()
}

/// A box that holds the corners of a second box holds the corners of every
/// box of which the second holds the corners.
pub proof fn lemma_holds_corners_transitive(outer: Aabb, middle: Aabb, inner: Aabb)
    requires
        outer.holds_corners(middle),
        middle.holds_corners(inner),
    ensures
        outer.holds_corners(inner),
{
    assert(outer.contains(middle.corner(false, false, false)));
    assert(outer.contains(middle.corner(true, true, true)));
    assert forall|ux: bool, uy: bool, uz: bool| outer.contains(
        #[trigger] inner.corner(ux, uy, uz),
    ) by {
        assert(middle.contains(inner.corner(ux, uy, uz)));
    }
}

/// The box that holds all of a sequence of boxes with corners has corners
/// itself, and holds every corner of each of them.
pub proof fn lemma_enclose_all_holds(boxes: Seq<Aabb>, k: int)
    requires
        all_ordered(boxes),
        0 <= k < boxes.len(),
    ensures
        enclose_all(boxes).is_ordered(),
        enclose_all(boxes).holds_corners(boxes[k]),
    decreases boxes.len(),
{
    let front = boxes.drop_last();
    let last = boxes.last();
    let whole = enclose_all(boxes);
    assert(last.is_ordered());
    assert(all_ordered(front)) by {
        assert forall|i: int| 0 <= i < front.len() implies (#[trigger] front[i]).is_ordered() by {
            assert(front[i] == boxes[i]);
        }
    }
    if front.len() == 0 {
        lemma_interval_empty_identity(last.x_axis);
        lemma_interval_empty_identity(last.y_axis);
        lemma_interval_empty_identity(last.z_axis);
        assert(enclose_all(front) == Aabb::empty());
        assert(whole == last);
        assert(whole.holds_corners(last));
    } else {
        let before = enclose_all(front);
        lemma_enclose_all_holds(front, 0);
        lemma_enclose_smallest(before, last);
        if k < front.len() {
            lemma_enclose_all_holds(front, k);
            assert(front[k] == boxes[k]);
            lemma_holds_corners_transitive(whole, before, boxes[k]);
        }
    }
}

impl BvhChild {
    /// Whether the box of every node below holds the boxes of the objects
    /// below that node: see `BvhNode::encloses`.
    pub open spec fn encloses(self, boxes: Seq<Aabb>) -> bool
        decreases self,
    {
        match self {
            BvhChild::Object(_) => true,
            BvhChild::Node(node) => node.encloses(boxes),
        }
    }
}

impl BvhNode {
    /// Whether the box of this node holds every corner of the box of each
    /// object below it, and the same of every node below.
    pub open spec fn encloses(self, boxes: Seq<Aabb>) -> bool
        decreases self,
    {
        &&& forall|i: int| self.holds(i) ==> self.bbox.holds_corners(#[trigger] boxes[i])
        &&& self.left.encloses(boxes)
        &&& self.right.encloses(boxes)
    }
}

/// The boxes of a hierarchy are conservative: in a hierarchy built over
/// boxes with corners, the box of every node holds the boxes of all the
/// objects below that node.
pub proof fn lemma_built_encloses<A: Fn(&Aabb) -> Axis>(
    node: BvhNode,
    boxes: Seq<Aabb>,
    items: Seq<usize>,
    choose_axis: A,
)
    requires
        node.built_over(boxes, items, choose_axis),
        all_listed(boxes, items),
        all_ordered(boxes),
    ensures
        node.encloses(boxes),
    decreases node,
{
    lemma_built_holds(node, boxes, items, choose_axis);
    let listed = boxes_of(boxes, items);
    assert(all_ordered(listed));
    assert forall|i: int| node.holds(i) implies node.bbox.holds_corners(#[trigger] boxes[i]) by {
        assert(lists(items, i));
        let k = choose|k: int| 0 <= k < items.len() && #[trigger] items[k] == i;
        lemma_enclose_all_holds(listed, k);
        assert(listed[k] == boxes[i]);
    }
    if items.len() > 2 {
        let l = node.left->Node_0;
        let r = node.right->Node_0;
        let (axis, sorted) = choose|axis: Axis, sorted: Seq<usize>|
            {
                &&& call_ensures(choose_axis, (&node.bbox,), axis)
                &&& sorted.to_multiset() == items.to_multiset()
                &&& #[trigger] sorted_along(boxes, sorted, axis)
                &&& l.built_over(boxes, sorted.subrange(0, sorted.len() as int / 2), choose_axis)
                &&& r.built_over(
                    boxes,
                    sorted.subrange(sorted.len() as int / 2, sorted.len() as int),
                    choose_axis,
                )
            };
        lemma_same_objects(boxes, items, sorted);
        let mid = sorted.len() as int / 2;
        lemma_built_encloses(*l, boxes, sorted.subrange(0, mid), choose_axis);
        lemma_built_encloses(*r, boxes, sorted.subrange(mid, sorted.len() as int), choose_axis);
    }
}

} // verus!
