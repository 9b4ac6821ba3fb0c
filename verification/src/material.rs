//! Surface materials and the choice of the ray that leaves a surface.

use vstd::prelude::*;

use crate::color::Color;
use crate::math::scalar::Scalar;
use crate::math::vec3::Vec3;
use crate::primitives::{HitRecord, Ray};

verus! {

/// Bits of the threshold below which a component counts as zero: 1e-6.
pub const NEAR_ZERO_BITS: u32 = 0x3586_37bd;

/// Bits of the refractive index of glass: 1.5.
pub const GLASS_IOR_BITS: u32 = 0x3fc0_0000;

/// How a surface sends light on.
#[derive(Clone, Copy, Debug)]
pub enum Material {
    Lambertian(LambertianMaterial),
    Metalic(MetalicMaterial),
    Dielectric(DielectricMaterial),
}

/// A matte surface.
#[derive(Clone, Copy, Debug)]
pub struct LambertianMaterial {
    pub albedo: Color,
}

/// A mirroring surface.
#[derive(Clone, Copy, Debug)]
pub struct MetalicMaterial {
    pub albedo: Color,
    /// How far a reflection strays from the mirror direction, from 0 to 1.
    pub fuzz: Scalar,
}

/// A transparent surface.
#[derive(Clone, Copy, Debug)]
pub struct DielectricMaterial {
    /// Index of refraction relative to the surroundings.
    pub ior: Scalar,
}

/// What the numeric kernel worked out for a material at a hit, before the
/// material decides on the leaving ray.
#[derive(Clone, Copy, Debug)]
pub enum ScatterSample {
    /// For a matte surface: the normal plus a random unit vector.
    Lambertian { direction: Vec3 },
    /// For a mirroring surface: the fuzzed mirror direction, and its dot
    /// product with the normal.
    Metalic { direction: Vec3, facing: Scalar },
    /// For a transparent surface: the refracted direction, which is zero
    /// where the ray cannot refract; the mirror direction; the share of the
    /// light that is reflected; and a uniform draw from 0 up to 1.
    Dielectric { refracted: Vec3, reflected: Vec3, reflectance: Scalar, draw: Scalar },
}

impl Default for LambertianMaterial {
    fn default() -> (m: LambertianMaterial)
        ensures
            m.albedo == Color::white(),
    {
        LambertianMaterial { albedo: Color::white() }
    }
}

impl Default for MetalicMaterial {
    fn default() -> (m: MetalicMaterial)
        ensures
            m.albedo == Color::white(),
            m.fuzz == Scalar::zero(),
    {
        MetalicMaterial { albedo: Color::white(), fuzz: Scalar::zero() }
    }
}

impl Default for DielectricMaterial {
    fn default() -> (m: DielectricMaterial)
        ensures
            m.ior.bits == GLASS_IOR_BITS,
    {
        DielectricMaterial { ior: Scalar { bits: GLASS_IOR_BITS } }
    }
}

/// Whether every component of `v` is nearer to zero than 1e-6.
#[verifier::allow_in_spec]
pub fn near_zero(v: Vec3) -> bool
    returns
        v.x.abs().lt(Scalar { bits: NEAR_ZERO_BITS }) && v.y.abs().lt(Scalar { bits: NEAR_ZERO_BITS })
            && v.z.abs().lt(Scalar { bits: NEAR_ZERO_BITS }),
{
    let eps: Scalar = Scalar { bits: NEAR_ZERO_BITS };
    v.x.abs().lt(eps) && v.y.abs().lt(eps) && v.z.abs().lt(eps)
}

impl Material {
    #[verifier::allow_in_spec]
    pub fn lambertian(albedo: Color) -> Material
        returns
            (Material::Lambertian(LambertianMaterial { albedo })),
    {
        Material::Lambertian(LambertianMaterial { albedo })
    }

    #[verifier::allow_in_spec]
    pub fn metalic(albedo: Color, fuzz: Scalar) -> Material
        returns
            (Material::Metalic(MetalicMaterial { albedo, fuzz })),
    {
        Material::Metalic(MetalicMaterial { albedo, fuzz })
    }

    #[verifier::allow_in_spec]
    pub fn dielectric(ior: Scalar) -> Material
        returns
            (Material::Dielectric(DielectricMaterial { ior })),
    {
        Material::Dielectric(DielectricMaterial { ior })
    }

    /// The share of each colour that the surface passes on: the albedo of a
    /// matte or mirroring surface, all of it for a transparent one.
    pub open spec fn attenuation(&self) -> Color {
        match *self {
            Material::Lambertian(m) => m.albedo,
            Material::Metalic(m) => m.albedo,
            Material::Dielectric(_) => Color::white(),
        }
    }

    /// The albedo is a share, part by part, and so is the fuzz.
    pub open spec fn is_physical(&self) -> bool {
        match *self {
            Material::Lambertian(m) => m.albedo.is_unit(),
            Material::Metalic(m) => m.albedo.is_unit() && Scalar::zero().le(m.fuzz) && m.fuzz.le(
                Scalar::one(),
            ),
            Material::Dielectric(_) => true,
        }
    }

    /// Whether the sample was worked out for this kind of material.
    pub open spec fn accepts(&self, sample: ScatterSample) -> bool {
        match (*self, sample) {
            (Material::Lambertian(_), ScatterSample::Lambertian { .. }) => true,
            (Material::Metalic(_), ScatterSample::Metalic { .. }) => true,
            (Material::Dielectric(_), ScatterSample::Dielectric { .. }) => true,
            _ => false,
        }
    }

    /// The direction in which light leaves the surface, or none where the
    /// surface absorbs it.
    ///
    /// A matte surface scatters along the sampled direction, or along the
    /// normal where the sample is too near to zero. A mirroring surface
    /// reflects along the sampled direction as long as that points away from
    /// the surface, and absorbs otherwise. A transparent surface reflects
    /// where the ray cannot refract or the reflected share exceeds the draw,
    /// and refracts otherwise.
    pub open spec fn leaving(&self, normal: Vec3, sample: ScatterSample) -> Option<Vec3> {
        match sample {
            ScatterSample::Lambertian { direction } => Some(
                if near_zero(direction) {
                    normal
                } else {
                    direction
                },
            ),
            ScatterSample::Metalic { direction, facing } => if facing.gt(Scalar::zero()) {
                Some(direction)
            } else {
                None
            },
            ScatterSample::Dielectric { refracted, reflected, reflectance, draw } => Some(
                if refracted.eq_number(Vec3::zero()) || reflectance.gt(draw) {
                    reflected
                } else {
                    refracted
                },
            ),
        }
    }

    /// Scatters at a hit: the attenuation and the ray that leaves the hit
    /// point, or nothing where the light is absorbed.
    pub fn scatter(&self, hit: &HitRecord, sample: ScatterSample) -> (r: Option<(Color, Ray)>)
        requires
            self.accepts(sample),
        ensures
            r == match self.leaving(hit.normal, sample) {
                Some(direction) => Some((self.attenuation(), Ray { origin: hit.point, dir: direction })),
                None => None,
            },
    {
        match (*self, sample) {
            (Material::Lambertian(mat), ScatterSample::Lambertian { direction }) => {
                let scatter_dir: Vec3 = if near_zero(direction) {
                    hit.normal
                } else {
                    direction
                };
                Some((mat.albedo, Ray::new(hit.point, scatter_dir)))
            },
            (Material::Metalic(mat), ScatterSample::Metalic { direction, facing }) => {
                if facing.gt(Scalar::zero()) {
                    Some((mat.albedo, Ray::new(hit.point, direction)))
                } else {
                    None
                }
            },
            (
                Material::Dielectric(_),
                ScatterSample::Dielectric { refracted, reflected, reflectance, draw },
            ) => {
                let direction: Vec3 = if refracted == Vec3::zero() || reflectance.gt(draw) {
                    reflected
                } else {
                    refracted
                };
                Some((Color::white(), Ray::new(hit.point, direction)))
            },
            _ => None,
        }
    }
}

/// Conservation of energy. A physical material passes on no more of any
/// colour than it receives, and a transparent one passes on all of it.
pub proof fn lemma_attenuation_is_a_share(material: Material)
    requires
        material.is_physical(),
    ensures
        material.attenuation().is_unit(),
        material is Dielectric ==> material.attenuation() == Color::white(),
{
}

} // verus!
