use std::cell::Cell;

use spacer::color::Color;
use spacer::integrator::{trace, PathEnd};
use spacer::material::Material;
use spacer::math::{Aabb, Interval, Scalar, Vec3};
use spacer::primitives::{HitRecord, Hittable, HittableList, Ray};

fn s(x: f32) -> Scalar {
    Scalar::from_bits(x.to_bits())
}

fn n(x: Scalar) -> f32 {
    f32::from_bits(x.to_bits())
}

fn v(x: f32, y: f32, z: f32) -> Vec3 {
    Vec3::new(s(x), s(y), s(z))
}

fn arr(a: Vec3) -> [f32; 3] {
    [n(a.x), n(a.y), n(a.z)]
}

fn rgb(c: Color) -> [f32; 3] {
    [n(c.r()), n(c.g()), n(c.b())]
}

fn far() -> Interval {
    Interval::new(s(0.001), Scalar::infinity())
}

/// A wall that every ray hits as long as it has not moved past it, and that
/// counts how often it was asked.
struct Wall {
    asked: Cell<u32>,
    last_x: f32,
}

impl Hittable for Wall {
    fn hit(&self, ray: &Ray, _t_range: Interval) -> Option<HitRecord> {
        self.asked.set(self.asked.get() + 1);
        let x = n(ray.origin().x);
        if x < self.last_x {
            Some(HitRecord {
                point: v(x + 1.0, 0.0, 0.0),
                normal: v(0.0, 1.0, 0.0),
                t: s(1.0),
                is_front_face: true,
                material: Material::lambertian(Color::new(s(0.5), s(0.25), s(1.0))),
            })
        } else {
            None
        }
    }

    fn bounding_box(&self) -> Aabb {
        Aabb::empty()
    }
}

fn onward(_ray: &Ray, hit: &HitRecord) -> Option<(Color, Ray)> {
    let x = n(hit.point.x);
    Some((
        Color::new(s(x), s(0.5), s(0.5)),
        Ray::new(hit.point, v(1.0, 0.0, 0.0)),
    ))
}

// The sky as the renderer paints it: white at the ground, blue above.
fn background(ray: &Ray) -> [f32; 3] {
    let d = arr(ray.direction());
    let length = (d[0] * d[0] + d[1] * d[1] + d[2] * d[2]).sqrt();
    let a = 0.5 * (d[1] / length + 1.0);
    let ground = [1.0f32, 1.0, 1.0];
    let sky = [0.5f32, 0.7, 1.0];
    [
        ground[0] * (1.0 - a) + sky[0] * a,
        ground[1] * (1.0 - a) + sky[1] * a,
        ground[2] * (1.0 - a) + sky[2] * a,
    ]
}

#[test]
fn without_bounces_the_world_is_not_asked() {
    let wall = Wall { asked: Cell::new(0), last_x: 100.0 };
    let ray = Ray::new(v(0.0, 0.0, 0.0), v(1.0, 0.0, 0.0));
    let path = trace(ray, &wall, 0, far(), &onward);
    assert_eq!(path.end, PathEnd::Exhausted);
    assert!(path.attenuations.is_empty());
    assert_eq!(arr(path.last_ray.origin()), [0.0, 0.0, 0.0]);
    assert_eq!(wall.asked.get(), 0);
}

#[test]
fn a_ray_in_an_empty_scene_sees_the_ground_colour() {
    let world: HittableList<Wall> = HittableList::default();
    let ray = Ray::new(v(0.0, 0.0, 0.0), v(0.0, -1.0, 0.0));
    let path = trace(ray, &world, 50, far(), &onward);
    assert_eq!(path.end, PathEnd::Escaped);
    assert!(path.attenuations.is_empty());
    assert_eq!(arr(path.last_ray.direction()), [0.0, -1.0, 0.0]);
    assert_eq!(background(&path.last_ray), [1.0, 1.0, 1.0]);
}

#[test]
fn the_path_ends_when_the_bounces_are_used_up() {
    let wall = Wall { asked: Cell::new(0), last_x: 100.0 };
    let ray = Ray::new(v(0.0, 0.0, 0.0), v(1.0, 0.0, 0.0));
    let path = trace(ray, &wall, 3, far(), &onward);
    assert_eq!(path.end, PathEnd::Exhausted);
    assert_eq!(wall.asked.get(), 3);
    let reds: Vec<f32> = path.attenuations.iter().map(|c| n(c.r())).collect();
    assert_eq!(reds, vec![1.0, 2.0, 3.0]);
    assert_eq!(arr(path.last_ray.origin()), [3.0, 0.0, 0.0]);
}

#[test]
fn the_path_ends_when_the_ray_leaves_the_scene() {
    let wall = Wall { asked: Cell::new(0), last_x: 2.0 };
    let ray = Ray::new(v(0.0, 0.0, 0.0), v(1.0, 0.0, 0.0));
    let path = trace(ray, &wall, 10, far(), &onward);
    assert_eq!(path.end, PathEnd::Escaped);
    assert_eq!(wall.asked.get(), 3);
    let reds: Vec<f32> = path.attenuations.iter().map(|c| n(c.r())).collect();
    assert_eq!(reds, vec![1.0, 2.0]);
    assert_eq!(arr(path.last_ray.origin()), [2.0, 0.0, 0.0]);
}

#[test]
fn the_path_ends_when_the_light_is_absorbed() {
    let wall = Wall { asked: Cell::new(0), last_x: 100.0 };
    let ray = Ray::new(v(0.0, 0.0, 0.0), v(1.0, 0.0, 0.0));
    let absorb_third = |ray: &Ray, hit: &HitRecord| {
        if n(hit.point.x) >= 3.0 {
            None
        } else {
            onward(ray, hit)
        }
    };
    let path = trace(ray, &wall, 10, far(), &absorb_third);
    assert_eq!(path.end, PathEnd::Absorbed);
    assert_eq!(path.attenuations.len(), 2);
    assert_eq!(arr(path.last_ray.origin()), [2.0, 0.0, 0.0]);
    assert_eq!(rgb(path.attenuations[1]), [2.0, 0.5, 0.5]);
}

/// Nothing to hit, but it looks at the range it is asked for.
struct Near;

impl Hittable for Near {
    fn hit(&self, _ray: &Ray, t_range: Interval) -> Option<HitRecord> {
        assert_eq!(n(t_range.min), 0.001);
        assert_eq!(n(t_range.max), f32::INFINITY);
        None
    }

    fn bounding_box(&self) -> Aabb {
        Aabb::empty()
    }
}

#[test]
fn the_world_is_asked_within_the_given_range() {
    let ray = Ray::new(v(0.0, 0.0, 0.0), v(1.0, 0.0, 0.0));
    let path = trace(ray, &Near, 1, far(), &onward);
    assert_eq!(path.end, PathEnd::Escaped);
}
