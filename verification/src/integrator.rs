//! The path integrator: how a ray is followed from bounce to bounce.

use vstd::prelude::*;

use crate::color::Color;
use crate::math::interval::Interval;
use crate::primitives::{HitRecord, Hittable, Ray};

verus! {

/// Why a path went no further.
#[derive(Clone, Copy, Debug, PartialEq, Eq, Structural)]
pub enum PathEnd {
    /// The bounces allowed were used up: no light comes along the path.
    Exhausted,
    /// The last surface absorbed the light.
    Absorbed,
    /// The last ray left the scene: the light of the background comes along
    /// the path.
    Escaped,
}

/// A path through the scene: the attenuation at each bounce from the first
/// one on, the ray after the last bounce, and how the path ended. The
/// radiance along the path is that of its end, multiplied by the attenuations
/// from the last to the first.
#[derive(Debug)]
pub struct Path {
    pub attenuations: Vec<Color>,
    pub last_ray: Ray,
    pub end: PathEnd,
}

/// Whether `from` can bounce into `to` with the given attenuation: the world
/// is hit, and the surface scatters.
pub open spec fn bounce<H: Hittable, S: Fn(&Ray, &HitRecord) -> Option<(Color, Ray)>>(
    world: H,
    scatter: S,
    t_range: Interval,
    from: Ray,
    attenuation: Color,
    to: Ray,
) -> bool {
    exists|h: HitRecord|
        call_ensures(H::hit, (&world, &from, t_range), Some(h)) && #[trigger] call_ensures(
            scatter,
            (&from, &h),
            Some((attenuation, to)),
        )
}

/// Whether the ray is absorbed: the world is hit, and the surface does not
/// scatter.
pub open spec fn absorbed<H: Hittable, S: Fn(&Ray, &HitRecord) -> Option<(Color, Ray)>>(
    world: H,
    scatter: S,
    t_range: Interval,
    ray: Ray,
) -> bool {
    exists|h: HitRecord|
        call_ensures(H::hit, (&world, &ray, t_range), Some(h)) && #[trigger] call_ensures(
            scatter,
            (&ray, &h),
            None,
        )
}

/// Whether `path` is a path of `ray` through `world` along the rays `rays`,
/// with no more than `max_bounces` bounces.
///
/// Each ray bounces into the next with the attenuation recorded for it. The
/// path ends where the bounces are used up, and there without asking the
/// world again; or before that, where the last ray hits nothing or is
/// absorbed.
pub open spec fn traced<H: Hittable, S: Fn(&Ray, &HitRecord) -> Option<(Color, Ray)>>(
    world: H,
    scatter: S,
    t_range: Interval,
    ray: Ray,
    max_bounces: u8,
    path: Path,
    rays: Seq<Ray>,
) -> bool {
    &&& rays.len() == path.attenuations@.len() + 1
    &&& rays[0] == ray
    &&& rays.last() == path.last_ray
    &&& forall|k: int|
        0 <= k < path.attenuations@.len() ==> bounce(
            world,
            scatter,
            t_range,
            rays[k],
            #[trigger] path.attenuations@[k],
            rays[k + 1],
        )
    &&& match path.end {
        PathEnd::Exhausted => path.attenuations@.len() == max_bounces,
        PathEnd::Escaped => path.attenuations@.len() < max_bounces && call_ensures(
            H::hit,
            (&world, &path.last_ray, t_range),
            None,
        ),
        PathEnd::Absorbed => path.attenuations@.len() < max_bounces && absorbed(
            world,
            scatter,
            t_range,
            path.last_ray,
        ),
    }
}

/// Follows a ray through the world for at most `max_bounces` bounces. At each
/// bounce the world is asked for the nearest hit within `t_range`, and
/// `scatter` for the attenuation and the next ray. Without a bounce allowed
/// nothing is asked, and `scatter` need not even be callable.
pub fn trace<H: Hittable, S: Fn(&Ray, &HitRecord) -> Option<(Color, Ray)>>(
    ray: Ray,
    world: &H,
    max_bounces: u8,
    t_range: Interval,
    scatter: &S,
) -> (path: Path)
    requires
        max_bounces > 0 ==> forall|r: Ray, h: HitRecord| call_requires(*scatter, (&r, &h)),
    ensures
        exists|rays: Seq<Ray>| #[trigger]
            traced(*world, *scatter, t_range, ray, max_bounces, path, rays),
        max_bounces == 0 ==> path.end == PathEnd::Exhausted && path.attenuations@.len() == 0
            && path.last_ray == ray,
{
    let mut attenuations: Vec<Color> = Vec::new();
    let mut current: Ray = ray;
    let mut bounces: u8 = max_bounces;
    let ghost mut rays: Seq<Ray> = seq![ray];
    while bounces > 0
        invariant
            max_bounces > 0 ==> forall|r: Ray, h: HitRecord| call_requires(*scatter, (&r, &h)),
            bounces <= max_bounces,
            attenuations@.len() == max_bounces - bounces,
            rays.len() == attenuations@.len() + 1,
            rays[0] == ray,
            rays.last() == current,
            forall|k: int|
                0 <= k < attenuations@.len() ==> bounce(
                    *world,
                    *scatter,
                    t_range,
                    rays[k],
                    #[trigger] attenuations@[k],
                    rays[k + 1],
                ),
        decreases bounces,
    {
        let hit: Option<HitRecord> = current.hit(world, t_range);
        match hit {
            None => {
                let path = Path { attenuations, last_ray: current, end: PathEnd::Escaped };
                proof {
                    assert(traced(*world, *scatter, t_range, ray, max_bounces, path, rays));
                }
                return path;
            },
            Some(h) => {
                match scatter(&current, &h) {
                    None => {
                        let path = Path { attenuations, last_ray: current, end: PathEnd::Absorbed };
                        proof {
                            assert(absorbed(*world, *scatter, t_range, current));
                            assert(traced(*world, *scatter, t_range, ray, max_bounces, path, rays));
                        }
                        return path;
                    },
                    Some((attenuation, next)) => {
                        let ghost earlier = attenuations@;
                        let ghost before = rays;
                        attenuations.push(attenuation);
                        proof {
                            rays = rays.push(next);
                            assert(bounce(*world, *scatter, t_range, current, attenuation, next));
                            assert forall|k: int| 0 <= k < attenuations@.len() implies bounce(
                                *world,
                                *scatter,
                                t_range,
                                rays[k],
                                #[trigger] attenuations@[k],
                                rays[k + 1],
                            ) by {
                                if k < earlier.len() {
                                    assert(attenuations@[k] == earlier[k]);
                                    assert(rays[k] == before[k]);
                                    assert(rays[k + 1] == before[k + 1]);
                                }
                            }
                        }
                        current = next;
                        bounces = bounces - 1;
                    },
                }
            },
        }
    }
    let path = Path { attenuations, last_ray: current, end: PathEnd::Exhausted };
    proof {
        assert(traced(*world, *scatter, t_range, ray, max_bounces, path, rays));
    }
    path
}

} // verus!
