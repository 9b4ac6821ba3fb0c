use spacer::math::{vec3, Aabb, Axis, Interval, Scalar, Vec3};

fn s(x: f32) -> Scalar {
    Scalar::from_bits(x.to_bits())
}

fn n(x: Scalar) -> f32 {
    f32::from_bits(x.to_bits())
}

fn v(x: f32, y: f32, z: f32) -> Vec3 {
    Vec3::new(s(x), s(y), s(z))
}

fn range(min: f32, max: f32) -> Interval {
    Interval::new(s(min), s(max))
}

fn ends(i: Interval) -> (f32, f32) {
    (n(i.min), n(i.max))
}

fn cube(min: f32, max: f32) -> Aabb {
    Aabb::new(range(min, max), range(min, max), range(min, max))
}

fn corners(b: &Aabb) -> Vec<Vec3> {
    let mut out = Vec::new();
    for x in [b.x_axis.min, b.x_axis.max] {
        for y in [b.y_axis.min, b.y_axis.max] {
            for z in [b.z_axis.min, b.z_axis.max] {
                out.push(Vec3::new(x, y, z));
            }
        }
    }
    out
}

/// The parameters at which a ray crosses the planes of a slab.
fn crossing(axis: Interval, origin: f32, dir: f32) -> (Scalar, Scalar) {
    (
        s((n(axis.min) - origin) / dir),
        s((n(axis.max) - origin) / dir),
    )
}

fn hit(b: &Aabb, origin: [f32; 3], dir: [f32; 3], ray_t: Interval) -> bool {
    Aabb::hit(
        ray_t,
        crossing(b.x_axis, origin[0], dir[0]),
        crossing(b.y_axis, origin[1], dir[1]),
        crossing(b.z_axis, origin[2], dir[2]),
    )
}

#[test]
fn the_empty_box_and_the_default() {
    let e = Aabb::empty();
    assert_eq!(ends(e.x_axis), (f32::INFINITY, f32::NEG_INFINITY));
    assert_eq!(ends(e.y_axis), (f32::INFINITY, f32::NEG_INFINITY));
    assert_eq!(ends(e.z_axis), (f32::INFINITY, f32::NEG_INFINITY));
    let d = Aabb::default();
    assert_eq!(ends(d.x_axis), (f32::INFINITY, f32::NEG_INFINITY));
}

#[test]
fn from_corners_orders_each_axis() {
    let b = Aabb::from_corners(v(1.0, -2.0, 3.0), v(-1.0, 2.0, 5.0));
    assert_eq!(ends(b.x_axis), (-1.0, 1.0));
    assert_eq!(ends(b.y_axis), (-2.0, 2.0));
    assert_eq!(ends(b.z_axis), (3.0, 5.0));
    assert_eq!(ends(b.axis(Axis::X)), (-1.0, 1.0));
    assert_eq!(ends(b.axis(Axis::Y)), (-2.0, 2.0));
    assert_eq!(ends(b.axis(Axis::Z)), (3.0, 5.0));
}

#[test]
fn enclose_holds_every_corner_of_both() {
    let a = Aabb::new(range(0.0, 1.0), range(-3.0, -1.0), range(2.0, 2.5));
    let b = Aabb::new(range(-2.0, 0.5), range(-2.0, 4.0), range(7.0, 9.0));
    let e = a.enclose(b);
    assert_eq!(ends(e.x_axis), (-2.0, 1.0));
    assert_eq!(ends(e.y_axis), (-3.0, 4.0));
    assert_eq!(ends(e.z_axis), (2.0, 9.0));
    for c in corners(&a).into_iter().chain(corners(&b)) {
        assert!(e.contains(c));
    }
}

#[test]
fn enclose_is_the_smallest_such_box() {
    let a = cube(0.0, 1.0);
    let b = cube(2.0, 3.0);
    let e = a.enclose(b);
    // Shrinking any end leaves a corner out.
    let tighter = [
        Aabb::new(range(0.001, 3.0), e.y_axis, e.z_axis),
        Aabb::new(range(0.0, 2.999), e.y_axis, e.z_axis),
        Aabb::new(e.x_axis, range(0.001, 3.0), e.z_axis),
        Aabb::new(e.x_axis, e.y_axis, range(0.0, 2.999)),
    ];
    for t in tighter {
        let all = corners(&a)
            .into_iter()
            .chain(corners(&b))
            .all(|c| t.contains(c));
        assert!(!all);
    }
}

#[test]
fn enclose_with_the_empty_box_changes_nothing() {
    let a = Aabb::new(range(0.0, 1.0), range(-3.0, -1.0), range(2.0, 2.5));
    let e = Aabb::empty().enclose(a);
    assert_eq!(ends(e.x_axis), (0.0, 1.0));
    assert_eq!(ends(e.y_axis), (-3.0, -1.0));
    assert_eq!(ends(e.z_axis), (2.0, 2.5));
}

#[test]
fn longest_axis_picks_the_greatest_length() {
    assert_eq!(Aabb::longest_axis(v(3.0, 2.0, 1.0)), Axis::X);
    assert_eq!(Aabb::longest_axis(v(1.0, 3.0, 2.0)), Axis::Y);
    assert_eq!(Aabb::longest_axis(v(1.0, 2.0, 3.0)), Axis::Z);
    assert_eq!(Aabb::longest_axis(v(3.0, 1.0, 2.0)), Axis::X);
}

#[test]
fn longest_axis_breaks_ties_towards_z_then_y() {
    assert_eq!(Aabb::longest_axis(v(1.0, 1.0, 1.0)), Axis::Z);
    assert_eq!(Aabb::longest_axis(v(2.0, 2.0, 1.0)), Axis::Y);
    assert_eq!(Aabb::longest_axis(v(2.0, 1.0, 2.0)), Axis::Z);
    assert_eq!(Aabb::longest_axis(v(1.0, 2.0, 2.0)), Axis::Z);
    // The empty box has the same length along every axis.
    let l = f32::NEG_INFINITY - f32::INFINITY;
    assert_eq!(Aabb::longest_axis(v(l, l, l)), Axis::Z);
}

#[test]
fn a_ray_through_the_box_hits_it() {
    let b = cube(-1.0, 1.0);
    let far = range(0.0, f32::INFINITY);
    assert!(hit(&b, [0.0, 0.0, 5.0], [0.1, 0.1, -1.0], far));
    assert!(hit(&b, [-5.0, 0.5, 0.5], [1.0, 0.01, 0.02], far));
    assert!(hit(&b, [0.0, 0.0, 0.0], [1.0, 1.0, 1.0], far));
}

#[test]
fn a_ray_past_the_box_misses_it() {
    let b = cube(-1.0, 1.0);
    let far = range(0.0, f32::INFINITY);
    assert!(!hit(&b, [0.0, 3.0, 5.0], [0.1, 0.1, -1.0], far));
    assert!(!hit(&b, [0.0, 0.0, 5.0], [0.1, 0.1, 1.0], far));
    assert!(!hit(&b, [5.0, 5.0, 5.0], [1.0, -1.0, 0.5], far));
}

#[test]
fn a_box_beyond_the_range_is_missed() {
    let b = cube(-1.0, 1.0);
    assert!(hit(&b, [0.0, 0.0, 5.0], [0.1, 0.1, -1.0], range(0.0, 4.5)));
    assert!(!hit(&b, [0.0, 0.0, 5.0], [0.1, 0.1, -1.0], range(0.0, 3.9)));
    assert!(!hit(&b, [0.0, 0.0, 5.0], [0.1, 0.1, -1.0], range(6.1, 100.0)));
}

#[test]
fn the_slab_test_clips_in_turn() {
    let ray_t = range(0.0, 10.0);
    // X leaves 2..6, Y leaves 3..6, Z leaves 3..5.
    assert!(Aabb::hit(ray_t, (s(2.0), s(6.0)), (s(8.0), s(3.0)), (s(1.0), s(5.0))));
    // Z lies wholly after what X and Y leave.
    assert!(!Aabb::hit(ray_t, (s(2.0), s(6.0)), (s(8.0), s(3.0)), (s(7.0), s(9.0))));
    // A single parameter left counts as empty.
    assert!(!Aabb::hit(ray_t, (s(2.0), s(6.0)), (s(6.0), s(8.0)), (s(0.0), s(9.0))));
    // X alone rejects.
    assert!(!Aabb::hit(ray_t, (s(11.0), s(12.0)), (s(0.0), s(9.0)), (s(0.0), s(9.0))));
}

#[test]
fn vec3_builders() {
    let a = vec3(s(1.0), s(2.0), s(3.0));
    assert_eq!((n(a.x), n(a.y), n(a.z)), (1.0, 2.0, 3.0));
    let b = Vec3::splat(s(4.0));
    assert_eq!((n(b.x), n(b.y), n(b.z)), (4.0, 4.0, 4.0));
    let c = a.neg();
    assert_eq!((n(c.x), n(c.y), n(c.z)), (-1.0, -2.0, -3.0));
    assert!(Vec3::zero() == v(-0.0, 0.0, -0.0));
    assert!(Vec3::one() == v(1.0, 1.0, 1.0));
    assert!(v(f32::NAN, 0.0, 0.0) != v(f32::NAN, 0.0, 0.0));
}
