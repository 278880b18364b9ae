//! The radiance estimate: what a ray sees, by following it from surface to
//! surface.
use crate::consts::infinity;
use crate::hittable::{HitRecord, Hittable};
use crate::material::{is_filter, lemma_attenuation_of_filter, Material, MaterialKind};
use crate::math::laws::{in_unit_range, lemma_mul_in_unit_range, lemma_product_in_unit_range};
use crate::math::unit::lemma_unit_vector_in_box;
use crate::math::vec3::{unit_vector, Vec3};
use crate::ray::Ray;
use crate::scalar::{lemma_product_sign, Scalar, HALF_RAW, MAX_RAW, ONE_RAW};
use vstd::prelude::*;

verus! {

/// The raw value of `0.001`, rounded down to the grid: the parameter below
/// which an intersection counts as the surface the ray has just left.
pub const T_MIN_RAW: i64 = 4294967;

/// The raw value of `0.7`, rounded down to the grid: the green of the sky.
pub const SKY_GREEN_RAW: i64 = 3006477107;

/// No light.
pub open spec fn spec_black() -> Vec3 {
    Vec3::spec_zero()
}

/// The colour at the horizon.
pub open spec fn spec_white() -> Vec3 {
    Vec3 {
        x: Scalar::spec_from_int(1),
        y: Scalar::spec_from_int(1),
        z: Scalar::spec_from_int(1),
    }
}

/// The colour of the sky overhead: `(0.5, 0.7, 1.0)`.
pub open spec fn spec_sky_blue() -> Vec3 {
    Vec3 {
        x: Scalar { raw: HALF_RAW },
        y: Scalar { raw: SKY_GREEN_RAW },
        z: Scalar::spec_from_int(1),
    }
}

/// The background that a ray sees where it meets nothing: with
/// `t = 0.5 * (y + 1)` for the height `y` of its unit direction, the blend
/// `(1 - t) * white + t * sky_blue`.
pub open spec fn spec_background(ray: Ray) -> Vec3 {
    let unit_direction = unit_vector(ray.direction);
    let t = Scalar { raw: HALF_RAW } * (unit_direction.y + Scalar::spec_from_int(1));
    spec_white().spec_scale(Scalar::spec_from_int(1) - t) + spec_sky_blue().spec_scale(t)
}

/// What `ray` meets in `world`, beyond the surface it has just left.
pub open spec fn spec_first_hit<W: Hittable>(world: &W, ray: Ray) -> Option<HitRecord> {
    world.spec_hit(ray, Scalar { raw: T_MIN_RAW }, Scalar { raw: MAX_RAW })
}

/// The values of one bounce, named so that a proof can point at them: the
/// filter, the scattered ray, whether the light goes on, and the radiance
/// that the scattered ray sees.
pub open spec fn bounce(attenuation: Vec3, scattered: Ray, accepted: bool, inner: Vec3) -> bool {
    true
}

/// Whether `color` is a radiance that `ray` may see in `world` with `depth`
/// bounces left. The random draws of the materials are the only freedom:
/// - with no bounce left, black;
/// - where the ray meets nothing, or a surface without a material, the
///   background;
/// - where the material absorbs the ray, black;
/// - else the attenuation times a radiance that the scattered ray may see
///   with one bounce less.
#[verifier::opaque]
pub open spec fn is_radiance<W: Hittable>(world: &W, ray: Ray, depth: int, color: Vec3) -> bool
    decreases depth,
{
    if depth <= 0 {
        color == spec_black()
    } else {
        match spec_first_hit(world, ray) {
            Some(rec) => match rec.mat {
                Some(mat) => exists|attenuation: Vec3, scattered: Ray, accepted: bool, inner: Vec3|
                    #[trigger] bounce(attenuation, scattered, accepted, inner) && mat.scatters(
                        ray,
                        rec,
                        attenuation,
                        scattered,
                        accepted,
                    ) && if accepted {
                        is_radiance(world, scattered, depth - 1, inner) && color == attenuation
                            * inner
                    } else {
                        color == spec_black()
                    },
                None => color == spec_background(ray),
            },
            None => color == spec_background(ray),
        }
    }
}

/// With no bounce left, black is a radiance.
pub proof fn lemma_radiance_black<W: Hittable>(world: &W, ray: Ray, depth: int)
    requires
        depth <= 0,
    ensures
        is_radiance(world, ray, depth, spec_black()),
{
    reveal(is_radiance);
}

/// Where the ray meets nothing, or a surface without a material, the
/// background is a radiance.
pub proof fn lemma_radiance_background<W: Hittable>(world: &W, ray: Ray, depth: int)
    requires
        depth > 0,
        spec_first_hit(world, ray) matches Some(rec) ==> rec.mat.is_none(),
    ensures
        is_radiance(world, ray, depth, spec_background(ray)),
{
    reveal(is_radiance);
}

/// Where the material may absorb the ray, black is a radiance.
pub proof fn lemma_radiance_absorbed<W: Hittable>(
    world: &W,
    ray: Ray,
    depth: int,
    rec: HitRecord,
    mat: MaterialKind,
    attenuation: Vec3,
    scattered: Ray,
)
    requires
        depth > 0,
        spec_first_hit(world, ray) == Some(rec),
        rec.mat == Some(mat),
        mat.scatters(ray, rec, attenuation, scattered, false),
    ensures
        is_radiance(world, ray, depth, spec_black()),
{
    reveal(is_radiance);
    assert(bounce(attenuation, scattered, false, spec_black()));
}

/// Where the material may scatter the ray, the attenuation times a
/// radiance of the scattered ray, with one bounce less, is a radiance.
pub proof fn lemma_radiance_bounce<W: Hittable>(
    world: &W,
    ray: Ray,
    depth: int,
    rec: HitRecord,
    mat: MaterialKind,
    attenuation: Vec3,
    scattered: Ray,
    inner: Vec3,
)
    requires
        depth > 0,
        spec_first_hit(world, ray) == Some(rec),
        rec.mat == Some(mat),
        mat.scatters(ray, rec, attenuation, scattered, true),
        is_radiance(world, scattered, depth - 1, inner),
    ensures
        is_radiance(world, ray, depth, attenuation * inner),
{
    reveal(is_radiance);
    assert(bounce(attenuation, scattered, true, inner));
}

/// With no bounce left, the radiance is black, whatever the ray and the
/// scene.
pub proof fn lemma_depth_zero_is_black<W: Hittable>(world: &W, ray: Ray, depth: int, color: Vec3)
    requires
        depth <= 0,
        is_radiance(world, ray, depth, color),
    ensures
        color == spec_black(),
{
    reveal(is_radiance);
}

/// For a ray that meets nothing, the radiance is the background, with no
/// random draw in it.
pub proof fn lemma_miss_is_background<W: Hittable>(world: &W, ray: Ray, depth: int, color: Vec3)
    requires
        depth > 0,
        spec_first_hit(world, ray).is_none(),
        is_radiance(world, ray, depth, color),
    ensures
        color == spec_background(ray),
{
    reveal(is_radiance);
}

/// Whether no surface of `world` adds light: whether the material of
/// whatever a ray meets is a filter.
pub open spec fn has_filters<W: Hittable>(world: &W) -> bool {
    forall|ray: Ray|
        match #[trigger] spec_first_hit(world, ray) {
            Some(rec) => match rec.mat {
                Some(mat) => is_filter(mat),
                None => true,
            },
            None => true,
        }
}

/// The background is a colour: each of its channels lies between zero and
/// one.
pub proof fn lemma_background_in_unit_range(ray: Ray)
    ensures
        in_unit_range(spec_background(ray)),
{
    let one = Scalar::spec_from_int(1);
    let half = Scalar { raw: HALF_RAW };
    lemma_unit_vector_in_box(ray.direction);
    let y = unit_vector(ray.direction).y;
    let lifted = y + one;
    assert(0 <= lifted.raw <= 2 * ONE_RAW);
    let t = half * lifted;
    assert(0 <= t.raw <= ONE_RAW) by {
        lemma_product_sign(half.raw as int, lifted.raw as int);
        assert(0 <= half.raw * lifted.raw <= ONE_RAW * ONE_RAW) by (nonlinear_arith)
            requires
                half.raw * 2 == ONE_RAW,
                0 <= lifted.raw <= 2 * ONE_RAW,
        ;
        vstd::arithmetic::div_mod::lemma_div_is_ordered(
            half.raw * lifted.raw,
            ONE_RAW * ONE_RAW,
            ONE_RAW as int,
        );
        vstd::arithmetic::div_mod::lemma_div_is_ordered(0, half.raw * lifted.raw, ONE_RAW as int);
        vstd::arithmetic::div_mod::lemma_div_multiples_vanish(ONE_RAW as int, ONE_RAW as int);
    }
    let rest = one - t;
    lemma_mul_in_unit_range(one, rest);
    lemma_mul_in_unit_range(half, t);
    lemma_mul_in_unit_range(Scalar { raw: SKY_GREEN_RAW }, t);
    lemma_mul_in_unit_range(one, t);
    crate::scalar::lemma_one_is_neutral(rest);
}

/// Where no surface adds light, the radiance is a colour: each of its
/// channels lies between zero and one, whatever the random draws.
pub proof fn lemma_radiance_in_unit_range<W: Hittable>(
    world: &W,
    ray: Ray,
    depth: int,
    color: Vec3,
)
    requires
        has_filters(world),
        is_radiance(world, ray, depth, color),
    ensures
        in_unit_range(color),
    decreases depth,
{
    reveal(is_radiance);
    if depth > 0 {
        match spec_first_hit(world, ray) {
            Some(rec) => match rec.mat {
                Some(mat) => {
                    let (attenuation, scattered, accepted, inner) = choose|
                        attenuation: Vec3,
                        scattered: Ray,
                        accepted: bool,
                        inner: Vec3,
                    |
                        #[trigger] bounce(attenuation, scattered, accepted, inner) && mat.scatters(
                            ray,
                            rec,
                            attenuation,
                            scattered,
                            accepted,
                        ) && if accepted {
                            is_radiance(world, scattered, depth - 1, inner) && color
                                == attenuation * inner
                        } else {
                            color == spec_black()
                        };
                    if accepted {
                        lemma_radiance_in_unit_range(world, scattered, depth - 1, inner);
                        lemma_attenuation_of_filter(mat, ray, rec, attenuation, scattered, accepted);
                        lemma_product_in_unit_range(attenuation, inner);
                    }
                },
                None => {
                    lemma_background_in_unit_range(ray);
                },
            },
            None => {
                lemma_background_in_unit_range(ray);
            },
        }
    }
}

/// The background that a ray sees where it meets nothing.
pub fn background(ray: &Ray) -> (color: Vec3)
    ensures
        color == spec_background(*ray),
{
    let one = Scalar::from_int(1);
    let unit_direction = ray.direction.unit_vector();
    let t = Scalar { raw: HALF_RAW } * (unit_direction.y + one);
    (one - t) * Vec3::new(one, one, one) + t * Vec3::new(
        Scalar { raw: HALF_RAW },
        Scalar { raw: SKY_GREEN_RAW },
        one,
    )
}

/// The radiance that `ray` sees in `world`, followed over at most `depth`
/// bounces.
pub fn ray_color<W: Hittable>(ray: &Ray, world: &W, depth: i32) -> (color: Vec3)
    ensures
        is_radiance(world, *ray, depth as int, color),
        depth <= 0 ==> color == spec_black(),
        depth > 0 && spec_first_hit(world, *ray).is_none() ==> color == spec_background(*ray),
    decreases depth,
{
    if depth <= 0 {
        proof {
            lemma_radiance_black(world, *ray, depth as int);
        }
        return Vec3::default();
    }
    let mut rec = HitRecord::default();
    if world.hit(ray, Scalar { raw: T_MIN_RAW }, infinity(), &mut rec) {
        let mut scattered = Ray::default();
        let mut attenuation = Vec3::default();

        if let Some(mat) = &rec.mat {
            if mat.scatter(ray, &rec, &mut attenuation, &mut scattered) {
                let inner = ray_color(&scattered, world, depth - 1);
                proof {
                    lemma_radiance_bounce(
                        world,
                        *ray,
                        depth as int,
                        rec,
                        *mat,
                        attenuation,
                        scattered,
                        inner,
                    );
                }
                return attenuation * inner;
            }
            proof {
                lemma_radiance_absorbed(world, *ray, depth as int, rec, *mat, attenuation, scattered);
            }
            return Vec3::default();
        }
    }
    proof {
        lemma_radiance_background(world, *ray, depth as int);
    }
    background(ray)
}

} // verus!
