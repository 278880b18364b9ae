//! Spheres, the one primitive surface.
use crate::hittable::{lemma_face_normal_against_ray, HitRecord, Hittable};
use crate::math::laws::{
    lemma_raw_mul_bound, lemma_rounding_loss, lemma_square_loss, raw_mul, rounding_loss,
    within_steps,
};
use crate::material::MaterialKind;
use crate::math::unit::{lemma_parameter_along_unit_z, lemma_parameter_monotone, lemma_unit_z};
use crate::math::vec3::{dot, unit_vector, Vec3};
use crate::ray::Ray;
use crate::scalar::{
    lemma_floor_sqrt, lemma_mul_by_zero, lemma_mul_of_negations, lemma_one_is_neutral,
    lemma_product_sign, lemma_sqrt_range, lemma_square_of_coarse, saturate, Scalar,
    MAX_RAW, ONE_RAW,
};
use std::ops::Neg;
use vstd::prelude::*;

verus! {

/// A sphere with its material.
#[derive(Clone, Copy, Debug)]
pub struct Sphere {
    pub center: Vec3,
    pub radius: Scalar,
    pub mat: Option<MaterialKind>,
}

impl Default for Sphere {
    /// The sphere of radius zero around the origin, without a material.
    fn default() -> (s: Sphere)
        ensures
            s == (Sphere { center: Vec3::spec_zero(), radius: Scalar::spec_zero(), mat: None }),
    {
        Sphere { center: Vec3::default(), radius: Scalar { raw: 0 }, mat: None }
    }
}

/// Whether `t` lies between `t_min` and `t_max`, the bounds included.
pub open spec fn within(t: Scalar, t_min: Scalar, t_max: Scalar) -> bool {
    t_min.raw <= t.raw <= t_max.raw
}

/// Whether `t` lies between `t_min` and `t_max` and within the numbers: a
/// parameter at either bound of the numbers stands for one beyond them.
pub open spec fn reaches(t: Scalar, t_min: Scalar, t_max: Scalar) -> bool {
    within(t, t_min, t_max) && -MAX_RAW < t.raw < MAX_RAW
}

/// `ray` with its direction normalised.
pub open spec fn spec_unit_ray(ray: Ray) -> Ray {
    Ray { origin: ray.origin, direction: unit_vector(ray.direction) }
}

impl Sphere {
    /// Half the linear coefficient of the quadratic `t^2 + 2 half_b t + c`
    /// of a ray of unit direction: `(O - C) . D`.
    pub open spec fn spec_half_b(&self, ray: Ray) -> Scalar {
        dot(ray.origin - self.center, ray.direction)
    }

    /// The constant of the quadratic: `(O - C) . (O - C) - r * r`.
    pub open spec fn spec_c(&self, ray: Ray) -> Scalar {
        (ray.origin - self.center).length_squared() - self.radius * self.radius
    }

    /// The discriminant of the quadratic of a ray of unit direction, by
    /// four: `half_b^2 - c`. The squared length of the direction, which
    /// stands before `c` for other rays, is one.
    pub open spec fn spec_discriminant(&self, ray: Ray) -> Scalar {
        self.spec_half_b(ray) * self.spec_half_b(ray) - self.spec_c(ray)
    }

    /// The smaller root of the quadratic of a ray of unit direction, which
    /// is a distance along the ray: `-half_b - sqrt(disc)`.
    pub open spec fn spec_near_root(&self, ray: Ray) -> Scalar {
        self.spec_half_b(ray).spec_neg() - self.spec_discriminant(ray).spec_sqrt()
    }

    /// The larger root of the quadratic of a ray of unit direction:
    /// `-half_b + sqrt(disc)`.
    pub open spec fn spec_far_root(&self, ray: Ray) -> Scalar {
        self.spec_half_b(ray).spec_neg() + self.spec_discriminant(ray).spec_sqrt()
    }

    /// The outward normal at the point `p` of the surface: `(p - C) / r`.
    pub open spec fn spec_outward_normal(&self, p: Vec3) -> Vec3 {
        (p - self.center).spec_div_scalar(self.radius)
    }

    /// The parameter of `ray` at its nearer meeting with the surface: the
    /// smaller root for the normalised ray, which is a distance, over the
    /// length of the direction.
    pub open spec fn spec_near_parameter(&self, ray: Ray) -> Scalar {
        ray.direction.spec_parameter_at(self.spec_near_root(spec_unit_ray(ray)))
    }

    /// The parameter of `ray` at its farther meeting with the surface.
    pub open spec fn spec_far_parameter(&self, ray: Ray) -> Scalar {
        ray.direction.spec_parameter_at(self.spec_far_root(spec_unit_ray(ray)))
    }

    /// The record of the intersection at the parameter `t` of `ray`: the
    /// point `ray.at(t)`, and the outward normal there, turned against the
    /// unit direction of the ray.
    pub open spec fn spec_record_at(&self, ray: Ray, t: Scalar) -> HitRecord {
        let outward = self.spec_outward_normal(ray.at(t));
        HitRecord {
            point: ray.at(t),
            normal: HitRecord::spec_face_normal(spec_unit_ray(ray), outward),
            t,
            front_face: HitRecord::spec_front_face(spec_unit_ray(ray), outward),
            mat: self.mat,
        }
    }

    /// Whether the quadratic of `ray` has a root at all.
    pub open spec fn spec_solvable(&self, ray: Ray) -> bool {
        self.spec_discriminant(ray).raw >= 0
    }

    /// Whether the ray has a direction and the quadratic of the normalised
    /// ray has a root at all.
    pub open spec fn spec_has_roots(&self, ray: Ray) -> bool {
        ray.direction.spec_max_magnitude() > 0 && self.spec_solvable(spec_unit_ray(ray))
    }

    /// The sphere around `center` with the given radius and material.
    pub fn new(center: Vec3, radius: Scalar, mat: MaterialKind) -> (s: Sphere)
        ensures
            s == (Sphere { center, radius, mat: Some(mat) }),
    {
        Sphere { center, radius, mat: Some(mat) }
    }

    /// The smaller root never exceeds the larger one.
    pub proof fn lemma_roots_ordered(&self, ray: Ray)
        requires
            self.spec_solvable(ray),
        ensures
            self.spec_near_root(ray).raw <= self.spec_far_root(ray).raw,
    {
        lemma_sqrt_range(self.spec_discriminant(ray));
    }

    /// The nearer parameter never exceeds the farther one.
    pub proof fn lemma_parameters_ordered(&self, ray: Ray)
        requires
            self.spec_has_roots(ray),
        ensures
            self.spec_near_parameter(ray).raw <= self.spec_far_parameter(ray).raw,
    {
        let unit = spec_unit_ray(ray);
        self.lemma_roots_ordered(unit);
        lemma_parameter_monotone(
            ray.direction,
            self.spec_near_root(unit),
            self.spec_far_root(unit),
        );
    }
}

/// The largest magnitude of a raw coordinate for which the head-on law is
/// stated: `2^46`, that is 16384.
pub const HEAD_ON_BOUND: i64 = 0x4000_0000_0000;

/// Whether the squared perpendicular offset of a ray of unit direction
/// from the centre exceeds the squared radius:
/// `(O - C) . (O - C) - r * r > ((O - C) . D)^2`.
pub open spec fn offset_exceeds_radius(sphere: Sphere, ray: Ray) -> bool {
    sphere.spec_c(ray).raw > (sphere.spec_half_b(ray) * sphere.spec_half_b(ray)).raw
}

/// A ray that passes the centre at more than the radius meets nothing,
/// whatever the bounds.
pub proof fn lemma_offset_beyond_radius_misses(
    sphere: Sphere,
    ray: Ray,
    t_min: Scalar,
    t_max: Scalar,
)
    requires
        offset_exceeds_radius(sphere, spec_unit_ray(ray)),
    ensures
        sphere.spec_hit(ray, t_min, t_max).is_none(),
{
}

/// A ray along the z axis with the unit direction that passes the centre
/// at more than the radius meets nothing: where the squared distance of its
/// origin from the centre, taken across the axis, exceeds the squared
/// radius. Stated for coordinates up to `HEAD_ON_BOUND` and an origin within
/// `HEAD_ON_BOUND` of the centre on each axis.
pub proof fn lemma_offset_miss_along_z(sphere: Sphere, ray: Ray, t_min: Scalar, t_max: Scalar)
    requires
        ray.direction == Vec3::spec_unit_z(),
        -HEAD_ON_BOUND <= sphere.center.x.raw <= HEAD_ON_BOUND,
        -HEAD_ON_BOUND <= sphere.center.y.raw <= HEAD_ON_BOUND,
        -HEAD_ON_BOUND <= sphere.center.z.raw <= HEAD_ON_BOUND,
        -HEAD_ON_BOUND <= ray.origin.x.raw <= HEAD_ON_BOUND,
        -HEAD_ON_BOUND <= ray.origin.y.raw <= HEAD_ON_BOUND,
        -HEAD_ON_BOUND <= ray.origin.z.raw <= HEAD_ON_BOUND,
        -HEAD_ON_BOUND <= sphere.radius.raw <= HEAD_ON_BOUND,
        -HEAD_ON_BOUND <= ray.origin.x.raw - sphere.center.x.raw <= HEAD_ON_BOUND,
        -HEAD_ON_BOUND <= ray.origin.y.raw - sphere.center.y.raw <= HEAD_ON_BOUND,
        -HEAD_ON_BOUND <= ray.origin.z.raw - sphere.center.z.raw <= HEAD_ON_BOUND,
        ({
            let across = ray.origin - sphere.center;
            (across.x * across.x + across.y * across.y).raw > (sphere.radius * sphere.radius).raw
        }),
    ensures
        sphere.spec_hit(ray, t_min, t_max).is_none(),
{
    lemma_unit_z();
    assert(spec_unit_ray(ray) == ray);
    let k = ONE_RAW as int;
    let zero = Scalar { raw: 0 };
    let one = Scalar { raw: ONE_RAW };
    let oc = ray.origin - sphere.center;
    let bound = HEAD_ON_BOUND as int;
    lemma_mul_by_zero(zero);
    lemma_mul_by_zero(oc.x);
    lemma_mul_by_zero(oc.y);
    lemma_one_is_neutral(one);
    lemma_one_is_neutral(oc.z);
    assert(sphere.spec_half_b(ray) == oc.z);
    lemma_raw_mul_bound(oc.x.raw as int, oc.x.raw as int, bound, bound, 0x1000_0000_0000_0000);
    lemma_raw_mul_bound(oc.y.raw as int, oc.y.raw as int, bound, bound, 0x1000_0000_0000_0000);
    lemma_raw_mul_bound(oc.z.raw as int, oc.z.raw as int, bound, bound, 0x1000_0000_0000_0000);
    lemma_raw_mul_bound(
        sphere.radius.raw as int,
        sphere.radius.raw as int,
        bound,
        bound,
        0x1000_0000_0000_0000,
    );
    lemma_square_loss(oc.x.raw as int);
    lemma_square_loss(oc.y.raw as int);
    lemma_square_loss(oc.z.raw as int);
    lemma_square_loss(sphere.radius.raw as int);
    let xx = oc.x * oc.x;
    let yy = oc.y * oc.y;
    let zz = oc.z * oc.z;
    let rr = sphere.radius * sphere.radius;
    assert(xx.raw == raw_mul(oc.x.raw as int, oc.x.raw as int));
    assert(yy.raw == raw_mul(oc.y.raw as int, oc.y.raw as int));
    assert(zz.raw == raw_mul(oc.z.raw as int, oc.z.raw as int));
    assert(rr.raw == raw_mul(sphere.radius.raw as int, sphere.radius.raw as int));
    let c = sphere.spec_c(ray);
    assert(c.raw == saturate(saturate(xx.raw + yy.raw + zz.raw) - rr.raw));
    assert(c.raw > zz.raw);
    lemma_one_is_neutral(c);
    assert(sphere.spec_discriminant(ray).raw < 0);
}

/// The quadratic of a ray along the z axis with the unit direction, aimed
/// at the centre from outside: the ray is its own normalised ray, half the
/// linear coefficient is the negated distance to the centre, and the
/// discriminant is the rounded square of the radius.
proof fn lemma_head_on_quadratic(sphere: Sphere, ray: Ray)
    requires
        ray.direction == Vec3::spec_unit_z(),
        ray.origin.x == sphere.center.x,
        ray.origin.y == sphere.center.y,
        -HEAD_ON_BOUND <= sphere.center.x.raw <= HEAD_ON_BOUND,
        -HEAD_ON_BOUND <= sphere.center.y.raw <= HEAD_ON_BOUND,
        -HEAD_ON_BOUND <= sphere.center.z.raw <= HEAD_ON_BOUND,
        -HEAD_ON_BOUND <= ray.origin.z.raw <= HEAD_ON_BOUND,
        0 < sphere.radius.raw < sphere.center.z.raw - ray.origin.z.raw,
    ensures
        spec_unit_ray(ray) == ray,
        sphere.spec_half_b(ray).raw == ray.origin.z.raw - sphere.center.z.raw,
        sphere.spec_discriminant(ray) == sphere.radius * sphere.radius,
        0 <= (sphere.radius * sphere.radius).raw <= 0x4000_0000_0000_0000,
{
    lemma_unit_z();
    assert(spec_unit_ray(ray) == ray);
    let zero = Scalar { raw: 0 };
    let one = Scalar { raw: ONE_RAW };
    let r = sphere.radius;
    let dist = Scalar { raw: (sphere.center.z.raw - ray.origin.z.raw) as i64 };
    let d = ray.direction;
    let oc = ray.origin - sphere.center;
    assert(oc == Vec3 { x: zero, y: zero, z: dist.spec_neg() });

    lemma_mul_by_zero(zero);
    lemma_one_is_neutral(one);

    lemma_one_is_neutral(dist.spec_neg());
    let half_b = sphere.spec_half_b(ray);
    assert(half_b == dist.spec_neg());

    lemma_mul_of_negations(dist, dist);
    lemma_product_sign(dist.raw as int, dist.raw as int);
    lemma_product_sign(r.raw as int, r.raw as int);
    let dd = dist * dist;
    let rr = r * r;
    assert(0 <= rr.raw <= dd.raw) by {
        assert(r.raw * r.raw <= dist.raw * dist.raw) by (nonlinear_arith)
            requires
                0 < r.raw < dist.raw,
        ;
        vstd::arithmetic::div_mod::lemma_div_is_ordered(
            r.raw * r.raw,
            dist.raw * dist.raw,
            ONE_RAW as int,
        );
        assert(dist.raw * dist.raw <= 0x8000_0000_0000 * 0x8000_0000_0000) by (nonlinear_arith)
            requires
                0 < dist.raw <= 0x8000_0000_0000,
        ;
    }
    assert(dd.raw <= 0x4000_0000_0000_0000) by {
        assert(dist.raw * dist.raw <= 0x8000_0000_0000 * 0x8000_0000_0000) by (nonlinear_arith)
            requires
                0 < dist.raw <= 0x8000_0000_0000,
        ;
    }
    let c = sphere.spec_c(ray);
    assert(oc.length_squared() == dd);
    assert(c.raw == dd.raw - rr.raw);

    lemma_one_is_neutral(c);
    let disc = sphere.spec_discriminant(ray);
    assert(half_b * half_b == dd);
    assert(disc == rr);
}

/// A ray along the z axis with the unit direction, aimed at the centre from
/// outside, meets the sphere exactly at the distance to the centre less the
/// radius, from the front, with the negated direction for its normal,
/// where the radius has at most 16 fractional bits, so that its square is
/// exact. Stated for coordinates up to `HEAD_ON_BOUND`.
pub proof fn lemma_head_on_hit_exact(sphere: Sphere, ray: Ray, t_min: Scalar, t_max: Scalar)
    requires
        ray.direction == Vec3::spec_unit_z(),
        ray.origin.x == sphere.center.x,
        ray.origin.y == sphere.center.y,
        -HEAD_ON_BOUND <= sphere.center.x.raw <= HEAD_ON_BOUND,
        -HEAD_ON_BOUND <= sphere.center.y.raw <= HEAD_ON_BOUND,
        -HEAD_ON_BOUND <= sphere.center.z.raw <= HEAD_ON_BOUND,
        -HEAD_ON_BOUND <= ray.origin.z.raw <= HEAD_ON_BOUND,
        0 < sphere.radius.raw < sphere.center.z.raw - ray.origin.z.raw,
        sphere.radius.raw % 0x1_0000 == 0,
        t_min.raw <= sphere.center.z.raw - ray.origin.z.raw - sphere.radius.raw <= t_max.raw,
    ensures
        sphere.spec_hit(ray, t_min, t_max) matches Some(rec) && rec.t.raw == sphere.center.z.raw
            - ray.origin.z.raw - sphere.radius.raw && rec.normal == ray.direction.spec_neg()
            && rec.front_face && rec.point == sphere.center - Vec3::spec_unit_z().spec_scale(
            sphere.radius,
        ),
{
    lemma_head_on_quadratic(sphere, ray);
    let k = ONE_RAW as int;
    let zero = Scalar { raw: 0 };
    let one = Scalar { raw: ONE_RAW };
    let r = sphere.radius;
    let dist = Scalar { raw: (sphere.center.z.raw - ray.origin.z.raw) as i64 };
    let d = ray.direction;
    let half_b = sphere.spec_half_b(ray);
    let rr = r * r;
    let disc = sphere.spec_discriminant(ray);
    lemma_mul_by_zero(zero);
    lemma_one_is_neutral(one);

    lemma_square_of_coarse(r);
    let sqrtd = disc.spec_sqrt();
    assert(sqrtd == r);

    let near = sphere.spec_near_root(ray);
    lemma_one_is_neutral(dist - r);
    assert(half_b.spec_neg() == dist);
    assert(near == dist - r);
    assert(near.raw == dist.raw - r.raw);
    lemma_parameter_along_unit_z(near);
    assert(sphere.spec_near_parameter(ray) == near);

    lemma_one_is_neutral(near);
    lemma_mul_by_zero(near);
    let point = ray.at(near);
    assert(point == Vec3 {
        x: sphere.center.x,
        y: sphere.center.y,
        z: Scalar { raw: (sphere.center.z.raw - r.raw) as i64 },
    });
    lemma_mul_by_zero(r);
    lemma_one_is_neutral(r);
    assert(point == sphere.center - Vec3::spec_unit_z().spec_scale(r));

    let outward = sphere.spec_outward_normal(point);
    assert(point - sphere.center == Vec3 { x: zero, y: zero, z: r.spec_neg() });
    assert(zero.spec_div(r) == zero);
    assert(r.spec_neg().spec_div(r) == one.spec_neg()) by {
        lemma_product_sign(r.spec_neg().raw as int, ONE_RAW as int);
        vstd::arithmetic::div_mod::lemma_div_multiples_vanish(ONE_RAW as int, r.raw as int);
        assert(r.raw * ONE_RAW == ONE_RAW * r.raw) by (nonlinear_arith);
    }
    assert(outward == Vec3 { x: zero, y: zero, z: one.spec_neg() });
    lemma_one_is_neutral(one.spec_neg());
    assert(dot(d, outward) == one.spec_neg());
}

/// A ray along the z axis with the unit direction, aimed at the centre of
/// a sphere of a radius of at least one half from outside, meets the
/// sphere from the front, at the distance to the centre less the radius or
/// one step of the grid later, with a normal within two steps of the
/// negated direction. Stated for coordinates up to `HEAD_ON_BOUND`.
pub proof fn lemma_head_on_hit(sphere: Sphere, ray: Ray, t_min: Scalar, t_max: Scalar)
    requires
        ray.direction == Vec3::spec_unit_z(),
        ray.origin.x == sphere.center.x,
        ray.origin.y == sphere.center.y,
        -HEAD_ON_BOUND <= sphere.center.x.raw <= HEAD_ON_BOUND,
        -HEAD_ON_BOUND <= sphere.center.y.raw <= HEAD_ON_BOUND,
        -HEAD_ON_BOUND <= sphere.center.z.raw <= HEAD_ON_BOUND,
        -HEAD_ON_BOUND <= ray.origin.z.raw <= HEAD_ON_BOUND,
        ONE_RAW <= 2 * sphere.radius.raw,
        sphere.radius.raw < sphere.center.z.raw - ray.origin.z.raw,
        t_min.raw <= sphere.center.z.raw - ray.origin.z.raw - sphere.radius.raw,
        sphere.center.z.raw - ray.origin.z.raw - sphere.radius.raw + 1 <= t_max.raw,
    ensures
        sphere.spec_hit(ray, t_min, t_max) matches Some(rec) && {
            let reach = sphere.center.z.raw - ray.origin.z.raw - sphere.radius.raw;
            &&& reach <= rec.t.raw <= reach + 1
            &&& rec.front_face
            &&& rec.point == ray.at(rec.t)
            &&& within_steps(rec.normal, ray.direction.spec_neg(), 2)
        },
{
    lemma_head_on_quadratic(sphere, ray);
    let k = ONE_RAW as int;
    let zero = Scalar { raw: 0 };
    let one = Scalar { raw: ONE_RAW };
    let r = sphere.radius;
    let dist = Scalar { raw: (sphere.center.z.raw - ray.origin.z.raw) as i64 };
    let d = ray.direction;
    let half_b = sphere.spec_half_b(ray);
    let rr = r * r;
    let disc = sphere.spec_discriminant(ray);
    lemma_mul_by_zero(zero);
    lemma_one_is_neutral(one);

    // The square root of the rounded square is the radius or one step less.
    lemma_sqrt_range(disc);
    let sqrtd = disc.spec_sqrt();
    lemma_floor_sqrt(rr.raw * k);
    assert(rr.raw * k <= r.raw * r.raw && r.raw * r.raw < rr.raw * k + k) by {
        lemma_rounding_loss(r.raw as int, r.raw as int);
        assert(rr.raw == raw_mul(r.raw as int, r.raw as int));
        assert(rounding_loss(r.raw as int, r.raw as int) >= 0) by {
            vstd::arithmetic::div_mod::lemma_fundamental_div_mod(r.raw * r.raw, k);
            vstd::arithmetic::div_mod::lemma_mod_pos_bound(r.raw * r.raw, k);
        }
    }
    assert(r.raw - 1 <= sqrtd.raw <= r.raw) by (nonlinear_arith)
        requires
            0 <= sqrtd.raw,
            sqrtd.raw * sqrtd.raw <= rr.raw * k,
            rr.raw * k < (sqrtd.raw + 1) * (sqrtd.raw + 1),
            rr.raw * k <= r.raw * r.raw,
            r.raw * r.raw < rr.raw * k + k,
            k <= 2 * r.raw,
            0 < k,
    ;

    let near = sphere.spec_near_root(ray);
    lemma_one_is_neutral(dist - sqrtd);
    assert(half_b.spec_neg() == dist);
    assert(near == dist - sqrtd);
    assert(near.raw == dist.raw - sqrtd.raw);
    lemma_parameter_along_unit_z(near);
    assert(sphere.spec_near_parameter(ray) == near);

    lemma_one_is_neutral(near);
    lemma_mul_by_zero(near);
    let point = ray.at(near);
    assert(point == Vec3 {
        x: sphere.center.x,
        y: sphere.center.y,
        z: Scalar { raw: (sphere.center.z.raw - sqrtd.raw) as i64 },
    });

    let outward = sphere.spec_outward_normal(point);
    assert(point - sphere.center == Vec3 { x: zero, y: zero, z: sqrtd.spec_neg() });
    assert(zero.spec_div(r) == zero);
    let q = (sqrtd.raw * k) / (r.raw as int);
    assert(k - 2 <= q <= k) by {
        assert(r.raw * (k - 2) <= sqrtd.raw * k <= r.raw * k) by (nonlinear_arith)
            requires
                r.raw - 1 <= sqrtd.raw <= r.raw,
                k <= 2 * r.raw,
                0 < k,
        ;
        vstd::arithmetic::div_mod::lemma_div_is_ordered(r.raw * (k - 2), sqrtd.raw * k, r.raw as int);
        vstd::arithmetic::div_mod::lemma_div_is_ordered(sqrtd.raw * k, r.raw * k, r.raw as int);
        vstd::arithmetic::div_mod::lemma_div_multiples_vanish(k - 2, r.raw as int);
        vstd::arithmetic::div_mod::lemma_div_multiples_vanish(k, r.raw as int);
    }
    assert(sqrtd.spec_neg().spec_div(r).raw == -q) by {
        lemma_product_sign(sqrtd.spec_neg().raw as int, k);
    }
    assert(outward == Vec3 { x: zero, y: zero, z: Scalar { raw: (-q) as i64 } });
    lemma_one_is_neutral(outward.z);
    assert(dot(d, outward) == outward.z);
}

impl Hittable for Sphere {
    /// The intersection at the nearer meeting of the ray with the surface
    /// where its parameter lies within the bounds, else at the farther one
    /// where that one does. The meetings are found for the normalised ray,
    /// so that they do not depend on the length of the direction. A ray
    /// without direction meets nothing.
    open spec fn spec_hit(&self, ray: Ray, t_min: Scalar, t_max: Scalar) -> Option<HitRecord> {
        if !self.spec_has_roots(ray) {
            None
        } else if reaches(self.spec_near_parameter(ray), t_min, t_max) {
            Some(self.spec_record_at(ray, self.spec_near_parameter(ray)))
        } else if reaches(self.spec_far_parameter(ray), t_min, t_max) {
            Some(self.spec_record_at(ray, self.spec_far_parameter(ray)))
        } else {
            None
        }
    }

    proof fn lemma_hit_in_range(&self, ray: Ray, t_min: Scalar, t_max: Scalar) {
    }

    proof fn lemma_hit_prune(&self, ray: Ray, t_min: Scalar, bound: Scalar, t_max: Scalar) {
        if self.spec_has_roots(ray) {
            self.lemma_parameters_ordered(ray);
        }
    }

    proof fn lemma_hit_faces_ray(&self, ray: Ray, t_min: Scalar, t_max: Scalar) {
        lemma_face_normal_against_ray(
            spec_unit_ray(ray),
            self.spec_outward_normal(ray.at(self.spec_near_parameter(ray))),
        );
        lemma_face_normal_against_ray(
            spec_unit_ray(ray),
            self.spec_outward_normal(ray.at(self.spec_far_parameter(ray))),
        );
    }

    fn hit(&self, ray: &Ray, t_min: Scalar, t_max: Scalar, record: &mut HitRecord) -> (found: bool) {
        let d = ray.direction;
        if d.x.raw == 0 && d.y.raw == 0 && d.z.raw == 0 {
            return false;
        }
        let unit = Ray::new(ray.origin, unit_vector(d));
        let oc = unit.origin - self.center;
        let half_b = dot(oc, unit.direction);
        let c = oc.length_squared() - self.radius * self.radius;
        let discriminant = half_b * half_b - c;

        if discriminant.raw < 0 {
            return false;
        }
        let sqrtd = discriminant.sqrt();

        let mut root = d.parameter_at(half_b.neg() - sqrtd);
        if root.raw < t_min.raw || t_max.raw < root.raw || root.raw <= -MAX_RAW || root.raw
            >= MAX_RAW {
            root = d.parameter_at(half_b.neg() + sqrtd);
            if root.raw < t_min.raw || t_max.raw < root.raw || root.raw <= -MAX_RAW || root.raw
                >= MAX_RAW {
                return false;
            }
        }
        record.t = root;
        record.point = ray.at(record.t);
        record.mat = self.mat;

        let outward_normal = (record.point - self.center) / self.radius;
        record.set_face_normal(&unit, &outward_normal);

        true
    }
}

} // verus!
