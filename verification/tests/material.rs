use spacer::color::Color;
use spacer::material::{
    near_zero, DielectricMaterial, LambertianMaterial, Material, MetalicMaterial, ScatterSample,
};
use spacer::math::{Scalar, Vec3};
use spacer::primitives::HitRecord;

fn s(x: f32) -> Scalar {
    Scalar::from_bits(x.to_bits())
}

fn n(x: Scalar) -> f32 {
    f32::from_bits(x.to_bits())
}

fn v(x: f32, y: f32, z: f32) -> Vec3 {
    Vec3::new(s(x), s(y), s(z))
}

fn arr(a: Vec3) -> [f32; 3] {
    [n(a.x), n(a.y), n(a.z)]
}

fn rgb(c: Color) -> [f32; 3] {
    [n(c.r()), n(c.g()), n(c.b())]
}

fn hit_at(point: Vec3, normal: Vec3, material: Material) -> HitRecord {
    HitRecord {
        point,
        normal,
        t: s(1.0),
        is_front_face: true,
        material,
    }
}

fn up() -> Vec3 {
    v(0.0, 1.0, 0.0)
}

#[test]
fn colours_by_name() {
    assert_eq!(rgb(Color::white()), [1.0, 1.0, 1.0]);
    assert_eq!(rgb(Color::black()), [0.0, 0.0, 0.0]);
    assert_eq!(rgb(Color::red()), [1.0, 0.0, 0.0]);
    assert_eq!(rgb(Color::green()), [0.0, 1.0, 0.0]);
    assert_eq!(rgb(Color::blue()), [0.0, 0.0, 1.0]);
    assert_eq!(rgb(Color::new(s(0.25), s(0.5), s(0.75))), [0.25, 0.5, 0.75]);
    assert!(Color::new(s(-0.0), s(0.0), s(0.0)) == Color::black());
    assert!(Color::red() != Color::green());
}

#[test]
fn the_materials_by_default() {
    assert_eq!(rgb(LambertianMaterial::default().albedo), [1.0, 1.0, 1.0]);
    let metal = MetalicMaterial::default();
    assert_eq!(rgb(metal.albedo), [1.0, 1.0, 1.0]);
    assert_eq!(n(metal.fuzz), 0.0);
    assert_eq!(n(DielectricMaterial::default().ior), 1.5);
}

#[test]
fn the_builders_keep_their_arguments() {
    match Material::lambertian(Color::red()) {
        Material::Lambertian(m) => assert_eq!(rgb(m.albedo), [1.0, 0.0, 0.0]),
        _ => panic!("not matte"),
    }
    match Material::metalic(Color::blue(), s(0.3)) {
        Material::Metalic(m) => {
            assert_eq!(rgb(m.albedo), [0.0, 0.0, 1.0]);
            assert_eq!(n(m.fuzz), 0.3);
        }
        _ => panic!("not mirroring"),
    }
    match Material::dielectric(s(1.33)) {
        Material::Dielectric(m) => assert_eq!(n(m.ior), 1.33),
        _ => panic!("not transparent"),
    }
}

#[test]
fn near_zero_is_below_a_millionth_in_every_component() {
    assert!(near_zero(v(0.0, 0.0, 0.0)));
    assert!(near_zero(v(9e-7, -9e-7, -0.0)));
    assert!(!near_zero(v(1e-6, 0.0, 0.0)));
    assert!(!near_zero(v(0.0, -1e-6, 0.0)));
    assert!(!near_zero(v(0.0, 0.0, 2e-6)));
    assert!(!near_zero(v(f32::NAN, 0.0, 0.0)));
}

#[test]
fn a_matte_surface_scatters_along_the_sample() {
    let material = Material::lambertian(Color::new(s(0.8), s(0.2), s(0.1)));
    let hit = hit_at(v(1.0, 2.0, 3.0), up(), material);
    let sample = ScatterSample::Lambertian { direction: v(0.3, 1.2, -0.4) };
    let (attenuation, ray) = material.scatter(&hit, sample).unwrap();
    assert_eq!(rgb(attenuation), [0.8, 0.2, 0.1]);
    assert_eq!(arr(ray.origin()), [1.0, 2.0, 3.0]);
    assert_eq!(arr(ray.direction()), [0.3, 1.2, -0.4]);
}

#[test]
fn a_matte_surface_falls_back_to_the_normal() {
    let material = Material::lambertian(Color::red());
    let hit = hit_at(v(1.0, 2.0, 3.0), up(), material);
    let sample = ScatterSample::Lambertian { direction: v(1e-7, -1e-7, 0.0) };
    let (attenuation, ray) = material.scatter(&hit, sample).unwrap();
    assert_eq!(rgb(attenuation), [1.0, 0.0, 0.0]);
    assert_eq!(arr(ray.direction()), [0.0, 1.0, 0.0]);
}

#[test]
fn a_mirror_without_fuzz_reflects_exactly() {
    let albedo = Color::new(s(0.7), s(0.6), s(0.5));
    let material = Material::metalic(albedo, s(0.0));
    let normal = [0.0f32, 1.0, 0.0];
    let incoming = [1.0f32, -1.0, 0.0];
    // The mirror direction, normalized, with no fuzz added.
    let d = incoming[0] * normal[0] + incoming[1] * normal[1] + incoming[2] * normal[2];
    let reflected = [
        incoming[0] - normal[0] * 2.0 * d,
        incoming[1] - normal[1] * 2.0 * d,
        incoming[2] - normal[2] * 2.0 * d,
    ];
    assert_eq!(reflected, [1.0, 1.0, 0.0]);
    let length = (reflected[0] * reflected[0] + reflected[1] * reflected[1]).sqrt();
    let direction = [reflected[0] / length, reflected[1] / length, 0.0];
    let facing = direction[1];
    let hit = hit_at(v(0.0, 0.0, 0.0), up(), material);
    let sample = ScatterSample::Metalic {
        direction: v(direction[0], direction[1], direction[2]),
        facing: s(facing),
    };
    let (attenuation, ray) = material.scatter(&hit, sample).unwrap();
    assert_eq!(rgb(attenuation), [0.7, 0.6, 0.5]);
    let out = arr(ray.direction());
    let half = 0.5f32.sqrt();
    assert!((out[0] - half).abs() < 1e-6);
    assert!((out[1] - half).abs() < 1e-6);
    assert_eq!(out[2], 0.0);
    assert_eq!(out, direction);
}

#[test]
fn a_mirror_absorbs_what_points_into_the_surface() {
    let material = Material::metalic(Color::white(), s(1.0));
    let hit = hit_at(v(0.0, 0.0, 0.0), up(), material);
    let inward = ScatterSample::Metalic { direction: v(1.0, -0.2, 0.0), facing: s(-0.2) };
    assert!(material.scatter(&hit, inward).is_none());
    let along = ScatterSample::Metalic { direction: v(1.0, 0.0, 0.0), facing: s(0.0) };
    assert!(material.scatter(&hit, along).is_none());
    let broken = ScatterSample::Metalic { direction: v(1.0, 0.0, 0.0), facing: s(f32::NAN) };
    assert!(material.scatter(&hit, broken).is_none());
    let outward = ScatterSample::Metalic { direction: v(1.0, 0.2, 0.0), facing: s(0.2) };
    assert!(material.scatter(&hit, outward).is_some());
}

#[test]
fn glass_refracts_below_the_draw_and_reflects_above_it() {
    let material = Material::dielectric(s(1.5));
    let hit = hit_at(v(4.0, 5.0, 6.0), up(), material);
    let refracted = v(0.3, -0.9, 0.0);
    let reflected = v(0.6, 0.8, 0.0);
    let sample = |reflectance: f32, draw: f32| ScatterSample::Dielectric {
        refracted,
        reflected,
        reflectance: s(reflectance),
        draw: s(draw),
    };
    let (attenuation, ray) = material.scatter(&hit, sample(0.2, 0.5)).unwrap();
    assert_eq!(rgb(attenuation), [1.0, 1.0, 1.0]);
    assert_eq!(arr(ray.origin()), [4.0, 5.0, 6.0]);
    assert_eq!(arr(ray.direction()), [0.3, -0.9, 0.0]);
    let (attenuation, ray) = material.scatter(&hit, sample(0.7, 0.5)).unwrap();
    assert_eq!(rgb(attenuation), [1.0, 1.0, 1.0]);
    assert_eq!(arr(ray.direction()), [0.6, 0.8, 0.0]);
    let (_, ray) = material.scatter(&hit, sample(0.5, 0.5)).unwrap();
    assert_eq!(arr(ray.direction()), [0.3, -0.9, 0.0]);
}

#[test]
fn glass_reflects_where_the_ray_cannot_refract() {
    let material = Material::dielectric(s(1.5));
    let hit = hit_at(v(0.0, 0.0, 0.0), up(), material);
    let sample = ScatterSample::Dielectric {
        refracted: v(0.0, -0.0, 0.0),
        reflected: v(0.6, 0.8, 0.0),
        reflectance: s(0.0),
        draw: s(0.99),
    };
    let (attenuation, ray) = material.scatter(&hit, sample).unwrap();
    assert_eq!(rgb(attenuation), [1.0, 1.0, 1.0]);
    assert_eq!(arr(ray.direction()), [0.6, 0.8, 0.0]);
}

#[test]
fn attenuations_are_shares() {
    let samples = [
        (
            Material::lambertian(Color::new(s(0.0), s(0.5), s(1.0))),
            ScatterSample::Lambertian { direction: up() },
        ),
        (
            Material::metalic(Color::new(s(0.9), s(0.1), s(0.4)), s(0.5)),
            ScatterSample::Metalic { direction: up(), facing: s(1.0) },
        ),
        (
            Material::dielectric(s(1.5)),
            ScatterSample::Dielectric {
                refracted: up(),
                reflected: up(),
                reflectance: s(0.1),
                draw: s(0.2),
            },
        ),
    ];
    for (material, sample) in samples {
        let hit = hit_at(v(0.0, 0.0, 0.0), up(), material);
        let (attenuation, _) = material.scatter(&hit, sample).unwrap();
        for part in rgb(attenuation) {
            assert!((0.0..=1.0).contains(&part));
        }
        if let Material::Dielectric(_) = material {
            assert_eq!(rgb(attenuation), [1.0, 1.0, 1.0]);
        }
    }
}
