//! One bounce off a grey sphere: what a ray along the z axis sees of a
//! diffuse unit sphere in front of the sky.
use crate::hittable::Hittable;
use crate::hittable_list::{closest_hit, HittableList};
use crate::material::{Lambertian, Material, MaterialKind};
use crate::math::laws::{lemma_raw_mul_bound, lemma_rounding_loss, lemma_square_loss, raw_mul};
use crate::math::unit::{
    lemma_parameter_monotone, lemma_unit_vector_in_box, lemma_unit_vector_parts,
};
use crate::math::vec3::{in_unit_ball, unit_vector, Vec3};
use crate::ray::Ray;
use crate::scalar::{
    lemma_floor_sqrt, lemma_mul_by_zero, lemma_one_is_neutral, lemma_product_sign,
    lemma_sqrt_range, magnitude, Scalar, HALF_RAW, MAX_RAW, ONE_RAW,
};
use crate::sphere::{lemma_head_on_hit_exact, spec_unit_ray, Sphere};
use crate::tracer::{
    bounce, is_radiance, lemma_miss_is_background, spec_background, spec_first_hit, SKY_GREEN_RAW,
    T_MIN_RAW,
};
use vstd::prelude::*;

verus! {

/// The raw value of one quarter.
pub const QUARTER_RAW: i64 = 0x4000_0000;

/// The diffuse unit sphere around the origin that reflects half the light.
pub open spec fn spec_grey_sphere() -> Sphere {
    Sphere {
        center: Vec3::spec_zero(),
        radius: Scalar::spec_one(),
        mat: Some(
            MaterialKind::Lambertian(
                Lambertian {
                    albedo: Vec3 {
                        x: Scalar { raw: HALF_RAW },
                        y: Scalar { raw: HALF_RAW },
                        z: Scalar { raw: HALF_RAW },
                    },
                },
            ),
        ),
    }
}

/// The ray along the z axis toward the origin, from three units away.
pub open spec fn spec_axis_ray() -> Ray {
    Ray {
        origin: Vec3 {
            x: Scalar { raw: 0 },
            y: Scalar { raw: 0 },
            z: Scalar { raw: (-3 * ONE_RAW) as i64 },
        },
        direction: Vec3::spec_unit_z(),
    }
}

/// The pole of the unit sphere that the ray along the z axis meets.
pub open spec fn spec_pole() -> Vec3 {
    Vec3 { x: Scalar { raw: 0 }, y: Scalar { raw: 0 }, z: Scalar { raw: (-ONE_RAW) as i64 } }
}

/// A product grows with its first factor, for factors that are not
/// negative.
proof fn lemma_raw_mul_monotone(x: int, y: int, t: int)
    requires
        0 <= x <= y,
        0 <= t,
    ensures
        0 <= raw_mul(x, t) <= raw_mul(y, t),
{
    assert(0 <= x * t <= y * t) by (nonlinear_arith)
        requires
            0 <= x <= y,
            0 <= t,
    ;
    vstd::arithmetic::div_mod::lemma_div_is_ordered(x * t, y * t, ONE_RAW as int);
    vstd::arithmetic::div_mod::lemma_div_is_ordered(0, x * t, ONE_RAW as int);
}

/// The sky is bright: the red and green of the background are at least
/// one half and at most one, and its blue is one.
pub proof fn lemma_background_is_bright(ray: Ray)
    ensures
        HALF_RAW <= spec_background(ray).x.raw <= ONE_RAW,
        HALF_RAW <= spec_background(ray).y.raw <= ONE_RAW,
        spec_background(ray).z.raw == ONE_RAW,
{
    let k = ONE_RAW as int;
    let one = Scalar::spec_from_int(1);
    let half = Scalar { raw: HALF_RAW };
    let green = Scalar { raw: SKY_GREEN_RAW };
    lemma_unit_vector_in_box(ray.direction);
    let y = unit_vector(ray.direction).y;
    let lifted = y + one;
    assert(0 <= lifted.raw <= 2 * ONE_RAW);
    let t = half * lifted;
    lemma_rounding_loss(half.raw as int, lifted.raw as int);
    lemma_raw_mul_monotone(0, half.raw as int, lifted.raw as int);
    assert(0 <= raw_mul(half.raw as int, lifted.raw as int) <= k) by {
        assert(half.raw * lifted.raw <= k * k) by (nonlinear_arith)
            requires
                half.raw * 2 == k,
                0 <= lifted.raw <= 2 * k,
        ;
        vstd::arithmetic::div_mod::lemma_div_is_ordered(half.raw * lifted.raw, k * k, k);
        vstd::arithmetic::div_mod::lemma_div_multiples_vanish(k, k);
    }
    assert(t.raw == raw_mul(half.raw as int, lifted.raw as int));
    let rest = one - t;
    lemma_one_is_neutral(rest);
    lemma_one_is_neutral(t);
    let tt = t.raw as int;
    lemma_rounding_loss(half.raw as int, tt);
    lemma_raw_mul_monotone(0, half.raw as int, tt);
    lemma_raw_mul_monotone(half.raw as int, green.raw as int, tt);
    lemma_raw_mul_monotone(green.raw as int, k, tt);
    assert(raw_mul(k, tt) == tt) by {
        assert(one * t == t);
    }
    let low = raw_mul(half.raw as int, tt);
    assert(2 * low >= tt - 1) by (nonlinear_arith)
        requires
            -k < half.raw * tt - k * low < k,
            half.raw * 2 == k,
            0 < k,
    ;
}

/// A ray that leaves the pole of the grey sphere without pointing into it
/// meets the sphere nowhere beyond its origin.
pub proof fn lemma_leaving_the_pole(direction: Vec3, t_min: Scalar, t_max: Scalar)
    requires
        -MAX_RAW <= direction.z.raw <= 0,
        0 < t_min.raw,
    ensures
        spec_grey_sphere().spec_hit(Ray { origin: spec_pole(), direction }, t_min, t_max).is_none(),
{
    let k = ONE_RAW as int;
    let sphere = spec_grey_sphere();
    let ray = Ray { origin: spec_pole(), direction };
    let zero = Scalar { raw: 0 };
    let one = Scalar::spec_one();
    if direction.spec_max_magnitude() > 0 {
        let unit = spec_unit_ray(ray);
        let u = unit.direction;
        lemma_unit_vector_parts(direction);
        lemma_unit_vector_in_box(direction);
        let f = direction.spec_fine_scale();
        let len = direction.spec_fine_length();
        // The normalised direction does not point into the sphere either.
        let n = direction.z.raw * f * k;
        assert(n <= 0) by (nonlinear_arith)
            requires
                n == direction.z.raw * f * k,
                direction.z.raw <= 0,
                1 <= f,
                0 < k,
        ;
        vstd::arithmetic::div_mod::lemma_div_is_ordered(0, magnitude(n), len);
        assert(u.z.raw <= 0);
        let uz = u.z.raw as int;
        // The quadratic.
        lemma_mul_by_zero(u.x);
        lemma_mul_by_zero(u.y);
        lemma_mul_by_zero(zero);
        lemma_product_sign(-k, uz);
        vstd::arithmetic::div_mod::lemma_div_multiples_vanish(magnitude(uz), k);
        assert(magnitude(-k * uz) == k * magnitude(uz)) by (nonlinear_arith)
            requires
                0 < k,
        ;
        assert(raw_mul(-k, uz) == -uz);
        let hb = sphere.spec_half_b(unit);
        assert(hb.raw == -uz);
        lemma_product_sign(-k, -k);
        vstd::arithmetic::div_mod::lemma_div_multiples_vanish(k, k);
        assert((-k) * (-k) == k * k) by (nonlinear_arith);
        lemma_one_is_neutral(one);
        let c = sphere.spec_c(unit);
        assert(c.raw == 0);
        lemma_square_loss(hb.raw as int);
        lemma_raw_mul_bound(hb.raw as int, hb.raw as int, k, k, k);
        let disc = sphere.spec_discriminant(unit);
        assert(disc.raw == raw_mul(hb.raw as int, hb.raw as int));
        lemma_sqrt_range(disc);
        lemma_floor_sqrt(disc.raw * ONE_RAW);
        let s = disc.spec_sqrt().raw as int;
        assert(s <= hb.raw) by (nonlinear_arith)
            requires
                0 <= s,
                0 <= hb.raw,
                s * s <= disc.raw * k,
                disc.raw * k <= hb.raw * hb.raw,
        ;
        let near = sphere.spec_near_root(unit);
        let far = sphere.spec_far_root(unit);
        assert(near.raw <= 0 && far.raw <= 0);
        lemma_parameter_monotone(direction, near, zero);
        lemma_parameter_monotone(direction, far, zero);
        assert(0 * f * k == 0) by (nonlinear_arith);
        assert(direction.spec_parameter_at(zero).raw == 0);
    }
}

/// One bounce off the grey sphere: the radiance that the ray along the z
/// axis sees of the diffuse unit sphere with two bounces left is half the
/// background along the scattered ray, whatever direction the material
/// draws. Each of its channels lies between one quarter and one half, so
/// strictly between black and white, and its blue is one half.
pub proof fn lemma_one_bounce_off_grey(world: &HittableList<Sphere>, color: Vec3)
    requires
        world.objects@ == seq![spec_grey_sphere()],
        is_radiance(world, spec_axis_ray(), 2, color),
    ensures
        QUARTER_RAW <= color.x.raw <= HALF_RAW,
        QUARTER_RAW <= color.y.raw <= HALF_RAW,
        color.z.raw == HALF_RAW,
        exists|scattered: Ray| #[trigger]
            spec_first_hit(world, scattered).is_none() && color == spec_grey_albedo()
                * spec_background(scattered),
{
    let k = ONE_RAW as int;
    let sphere = spec_grey_sphere();
    let ray = spec_axis_ray();
    let t_min = Scalar { raw: T_MIN_RAW };
    let t_max = Scalar { raw: MAX_RAW };
    let objects = world.objects@;
    assert(objects.len() == 1 && objects[0] == sphere);
    reveal_with_fuel(closest_hit, 2);
    lemma_head_on_hit_exact(sphere, ray, t_min, t_max);
    let rec = sphere.spec_hit(ray, t_min, t_max).unwrap();
    assert(spec_first_hit(world, ray) == Some(rec));
    lemma_mul_by_zero(Scalar::spec_one());
    lemma_one_is_neutral(Scalar::spec_one());
    assert(rec.point == spec_pole());
    assert(rec.normal == spec_pole());
    let mat = rec.mat.unwrap();
    reveal(is_radiance);
    let (attenuation, scattered, accepted, inner) = choose|
        attenuation: Vec3,
        scattered: Ray,
        accepted: bool,
        inner: Vec3,
    |
        #[trigger] bounce(attenuation, scattered, accepted, inner) && mat.scatters(
            ray,
            rec,
            attenuation,
            scattered,
            accepted,
        ) && if accepted {
            is_radiance(world, scattered, 1, inner) && color == attenuation * inner
        } else {
            color == Vec3::spec_zero()
        };
    let p = choose|p: Vec3| #[trigger]
        in_unit_ball(p) && scattered.direction == Lambertian::spec_direction(
            rec.normal,
            unit_vector(p),
        );
    lemma_unit_vector_in_box(p);
    assert(-MAX_RAW <= scattered.direction.z.raw <= 0);
    assert(scattered == Ray { origin: spec_pole(), direction: scattered.direction });
    lemma_leaving_the_pole(scattered.direction, t_min, t_max);
    assert(spec_first_hit(world, scattered).is_none());
    lemma_miss_is_background(world, scattered, 1, inner);
    lemma_background_is_bright(scattered);
    let half = Scalar { raw: HALF_RAW };
    lemma_raw_mul_monotone(0, half.raw as int, inner.x.raw as int);
    lemma_raw_mul_monotone(0, half.raw as int, inner.y.raw as int);
    lemma_half_of(inner.x.raw as int);
    lemma_half_of(inner.y.raw as int);
    lemma_half_of(inner.z.raw as int);
}

/// The albedo of the grey sphere.
pub open spec fn spec_grey_albedo() -> Vec3 {
    Vec3 { x: Scalar { raw: HALF_RAW }, y: Scalar { raw: HALF_RAW }, z: Scalar { raw: HALF_RAW } }
}

/// One half of a number between one half and one lies between one quarter
/// and one half, and one half of one is one half.
proof fn lemma_half_of(x: int)
    requires
        HALF_RAW <= x <= ONE_RAW,
    ensures
        QUARTER_RAW <= raw_mul(HALF_RAW as int, x) <= HALF_RAW,
        x == ONE_RAW ==> raw_mul(HALF_RAW as int, x) == HALF_RAW,
{
    let k = ONE_RAW as int;
    let h = HALF_RAW as int;
    lemma_rounding_loss(h, x);
    lemma_raw_mul_monotone(0, h, x);
    let m = raw_mul(h, x);
    assert(QUARTER_RAW <= m <= HALF_RAW && (x == k ==> m == h)) by (nonlinear_arith)
        requires
            -k < h * x - k * m < k,
            2 * h == k,
            h <= x <= k,
            k == 0x1_0000_0000,
            0 <= m,
            QUARTER_RAW == 0x4000_0000,
            HALF_RAW == 0x8000_0000,
    ;
}

} // verus!
