//! How surfaces scatter light: a diffuse, a metallic and a transparent
//! material, each with its law.
use crate::consts::{in_unit_interval, random};
use crate::hittable::HitRecord;
use crate::math::laws::{
    in_unit_box, in_unit_range, lemma_refract_keeps_direction, refract_tolerance, within_steps,
};
use crate::math::unit::lemma_unit_vector_in_box;
use crate::math::vec3::{
    dot, in_unit_ball, reflect, refract, spec_refract_cos, unit_vector, Vec3,
};
use crate::ray::Ray;
use crate::scalar::{
    lemma_floor_sqrt, lemma_one_is_neutral, lemma_product_sign, lemma_sqrt_range, Scalar, ONE_RAW,
};
use std::ops::Neg;

use vstd::prelude::*;

verus! {

/// A law of scattering.
pub trait Material {
    /// Whether a ray `r_in` that meets the surface at `rec` may leave these
    /// values behind: the colour filter `attenuation`, the new ray
    /// `scattered`, and whether the light goes on (`accepted`) or is
    /// absorbed. The random draws are the only freedom.
    spec fn scatters(
        &self,
        r_in: Ray,
        rec: HitRecord,
        attenuation: Vec3,
        scattered: Ray,
        accepted: bool,
    ) -> bool;

    /// Scatters `r_in` at the intersection `rec`. Returns whether the light
    /// goes on; `false` means it is absorbed.
    fn scatter(
        &self,
        r_in: &Ray,
        rec: &HitRecord,
        attenuation: &mut Vec3,
        scattered: &mut Ray,
    ) -> (accepted: bool)
        ensures
            self.scatters(*r_in, *rec, *final(attenuation), *final(scattered), accepted),
    ;
}

/// A diffuse surface.
#[derive(Clone, Copy, Debug)]
pub struct Lambertian {
    pub albedo: Vec3,
}

/// A mirror-like surface, roughened by `fuzz`.
#[derive(Clone, Copy, Debug)]
pub struct Metal {
    pub albedo: Vec3,
    pub fuzz: Scalar,
}

/// A clear surface such as glass, with its index of refraction.
#[derive(Clone, Copy, Debug)]
pub struct Dielectric {
    pub ir: Scalar,
}

/// One of the three materials.
#[derive(Clone, Copy, Debug)]
pub enum MaterialKind {
    Lambertian(Lambertian),
    Metal(Metal),
    Dielectric(Dielectric),
}

impl Lambertian {
    /// The direction of the scattered ray for the random direction `unit`:
    /// their sum, or the bare normal where the sum all but cancels.
    pub open spec fn spec_direction(normal: Vec3, unit: Vec3) -> Vec3 {
        if (normal + unit).near_zero() {
            normal
        } else {
            normal + unit
        }
    }

    /// A diffuse material that reflects the fraction `a` of each colour.
    pub fn new(a: Vec3) -> (m: Lambertian)
        ensures
            m.albedo == a,
    {
        Lambertian { albedo: a }
    }

    /// The direction of the scattered ray for the random direction `unit`.
    #[verifier::when_used_as_spec(spec_direction)]
    pub fn direction(normal: Vec3, unit: Vec3) -> (d: Vec3)
        ensures
            d == Lambertian::spec_direction(normal, unit),
    {
        let scatter_direction = normal + unit;
        if scatter_direction.near_zero() {
            return normal;
        }
        scatter_direction
    }
}

impl Material for Lambertian {
    /// Always goes on, filtered by the albedo, from the point of the
    /// intersection, toward the normal plus a random direction.
    open spec fn scatters(
        &self,
        r_in: Ray,
        rec: HitRecord,
        attenuation: Vec3,
        scattered: Ray,
        accepted: bool,
    ) -> bool {
        &&& accepted
        &&& attenuation == self.albedo
        &&& scattered.origin == rec.point
        &&& exists|p: Vec3| #[trigger]
            in_unit_ball(p) && scattered.direction == Lambertian::spec_direction(
                rec.normal,
                unit_vector(p),
            )
    }

    fn scatter(
        &self,
        _r_in: &Ray,
        rec: &HitRecord,
        attenuation: &mut Vec3,
        scattered: &mut Ray,
    ) -> (accepted: bool) {
        let unit = Vec3::random_unit_vector();
        *scattered = Ray::new(rec.point, Lambertian::direction(rec.normal, unit));
        *attenuation = self.albedo;
        true
    }
}

impl Metal {
    /// The fuzz that a metal is given for the request `f`: `f` held between
    /// zero and one.
    pub open spec fn spec_fuzz(f: Scalar) -> Scalar {
        if f.raw < 0 {
            Scalar { raw: 0 }
        } else if f.raw < crate::scalar::ONE_RAW {
            f
        } else {
            Scalar::spec_from_int(1)
        }
    }

    /// The direction of the scattered ray for the point `p` of the unit
    /// ball: the mirror image of the incoming direction, moved by `fuzz * p`.
    pub open spec fn spec_direction(&self, incoming: Vec3, normal: Vec3, p: Vec3) -> Vec3 {
        reflect(unit_vector(incoming), normal) + p.spec_scale(self.fuzz)
    }

    /// A metal that reflects the fraction `a` of each colour, with the
    /// roughness `f` held between zero and one.
    pub fn new(a: Vec3, f: Scalar) -> (m: Metal)
        ensures
            m.albedo == a,
            m.fuzz == Metal::spec_fuzz(f),
    {
        Metal {
            albedo: a,
            fuzz: if f.raw < 0 {
                Scalar { raw: 0 }
            } else if f.raw < crate::scalar::ONE_RAW {
                f
            } else {
                Scalar::from_int(1)
            },
        }
    }

    /// The direction of the scattered ray for the point `p` of the unit ball.
    #[verifier::when_used_as_spec(spec_direction)]
    pub fn direction(&self, incoming: Vec3, normal: Vec3, p: Vec3) -> (d: Vec3)
        ensures
            d == self.spec_direction(incoming, normal, p),
    {
        let reflected = reflect(unit_vector(incoming), normal);
        reflected + self.fuzz * p
    }
}

impl Material for Metal {
    /// Filtered by the albedo, from the point of the intersection, along the
    /// fuzzed mirror image; the light goes on only where that direction
    /// leaves the surface.
    open spec fn scatters(
        &self,
        r_in: Ray,
        rec: HitRecord,
        attenuation: Vec3,
        scattered: Ray,
        accepted: bool,
    ) -> bool {
        &&& attenuation == self.albedo
        &&& scattered.origin == rec.point
        &&& exists|p: Vec3| #[trigger]
            in_unit_ball(p) && scattered.direction == self.spec_direction(
                r_in.direction,
                rec.normal,
                p,
            )
        &&& accepted == (dot(scattered.direction, rec.normal).raw > 0)
    }

    fn scatter(
        &self,
        r_in: &Ray,
        rec: &HitRecord,
        attenuation: &mut Vec3,
        scattered: &mut Ray,
    ) -> (accepted: bool) {
        let p = Vec3::random_in_unit_sphere();
        *scattered = Ray::new(rec.point, self.direction(r_in.direction, rec.normal, p));
        *attenuation = self.albedo;
        dot(scattered.direction, rec.normal).raw > 0
    }
}

/// The fifth power of `x`: `((x * x) * (x * x)) * x`.
pub open spec fn spec_pow5(x: Scalar) -> Scalar {
    ((x * x) * (x * x)) * x
}

/// Schlick's estimate of the share of light that a clear surface mirrors:
/// `r0 + (1 - r0) * (1 - cosine)^5` with `r0 = ((1 - ref_idx) / (1 + ref_idx))^2`.
pub open spec fn spec_reflectance(cosine: Scalar, ref_idx: Scalar) -> Scalar {
    let one = Scalar::spec_from_int(1);
    let r = (one - ref_idx).spec_div(one + ref_idx);
    let r0 = r * r;
    r0 + (one - r0) * spec_pow5(one - cosine)
}

/// Schlick's estimate of the share of light that a clear surface mirrors.
#[verifier::when_used_as_spec(spec_reflectance)]
pub fn reflectance(cosine: Scalar, ref_idx: Scalar) -> (r: Scalar)
    ensures
        r == spec_reflectance(cosine, ref_idx),
{
    let one = Scalar::from_int(1);
    let mut r0 = (one - ref_idx) / (one + ref_idx);
    r0 = r0 * r0;
    let x = one - cosine;
    r0 + (one - r0) * (((x * x) * (x * x)) * x)
}

impl Dielectric {
    /// The clear material whose index of refraction is one.
    pub open spec fn spec_matched() -> Dielectric {
        Dielectric { ir: Scalar::spec_one() }
    }

    /// The ratio of the refractive indices that the ray passes: `1 / ir`
    /// where it enters from outside, `ir` where it leaves.
    pub open spec fn spec_refraction_ratio(&self, front_face: bool) -> Scalar {
        if front_face {
            Scalar::spec_from_int(1).spec_div(self.ir)
        } else {
            self.ir
        }
    }

    /// Whether a ray of unit direction `unit_direction` is mirrored rather
    /// than refracted, for the random number `sample`: where Snell's law has
    /// no solution, and else where Schlick's estimate exceeds the sample.
    pub open spec fn spec_reflects(
        &self,
        unit_direction: Vec3,
        normal: Vec3,
        front_face: bool,
        sample: Scalar,
    ) -> bool {
        let one = Scalar::spec_from_int(1);
        let ratio = self.spec_refraction_ratio(front_face);
        let cos_theta = spec_refract_cos(unit_direction, normal);
        let sin_theta = (one - cos_theta * cos_theta).spec_sqrt();
        (ratio * sin_theta).raw > one.raw || reflectance(cos_theta, ratio).raw > sample.raw
    }

    /// The direction of the scattered ray for the random number `sample`.
    pub open spec fn spec_direction(
        &self,
        incoming: Vec3,
        normal: Vec3,
        front_face: bool,
        sample: Scalar,
    ) -> Vec3 {
        let unit_direction = unit_vector(incoming);
        if self.spec_reflects(unit_direction, normal, front_face, sample) {
            reflect(unit_direction, normal)
        } else {
            refract(unit_direction, normal, self.spec_refraction_ratio(front_face))
        }
    }

    /// A clear material with the given index of refraction.
    pub fn new(index_of_refraction: Scalar) -> (m: Dielectric)
        ensures
            m.ir == index_of_refraction,
    {
        Dielectric { ir: index_of_refraction }
    }

    /// The direction of the scattered ray for the random number `sample`.
    #[verifier::when_used_as_spec(spec_direction)]
    pub fn direction(&self, incoming: Vec3, normal: Vec3, front_face: bool, sample: Scalar) -> (d:
        Vec3)
        ensures
            d == self.spec_direction(incoming, normal, front_face, sample),
    {
        let one = Scalar::from_int(1);
        let refraction_ratio = if front_face {
            one / self.ir
        } else {
            self.ir
        };
        let unit_direction = unit_vector(incoming);
        let cos_theta = dot(unit_direction.neg(), normal).min(one);
        let sin_theta = (one - cos_theta * cos_theta).sqrt();
        let cannot_refract = (refraction_ratio * sin_theta).raw > one.raw;
        if cannot_refract || reflectance(cos_theta, refraction_ratio).raw > sample.raw {
            reflect(unit_direction, normal)
        } else {
            refract(unit_direction, normal, refraction_ratio)
        }
    }
}

/// A clear material whose index matches that of its surroundings lets a
/// ray pass without bending it, at every angle of incidence, wherever the
/// random number does not fall below Schlick's estimate (which mirrors the
/// ray): each component of the scattered direction lies within
/// `refract_tolerance` steps of the grid of the same component of the unit
/// direction of the ray. Stated for a normal with components between minus
/// one and one that does not point along the ray by more than rounding
/// allows: the cosine of the angle of incidence lies between zero and one.
pub proof fn lemma_matched_index_keeps_direction(
    incoming: Vec3,
    normal: Vec3,
    front_face: bool,
    sample: Scalar,
)
    requires
        in_unit_box(normal),
        0 <= dot(unit_vector(incoming).spec_neg(), normal).raw <= ONE_RAW,
        spec_reflectance(spec_refract_cos(unit_vector(incoming), normal), Scalar::spec_one()).raw
            <= sample.raw,
    ensures
        within_steps(
            Dielectric::spec_matched().spec_direction(incoming, normal, front_face, sample),
            unit_vector(incoming),
            refract_tolerance(unit_vector(incoming), normal),
        ),
{
    let one = Scalar::spec_one();
    let glass = Dielectric::spec_matched();
    let u = unit_vector(incoming);
    lemma_unit_vector_in_box(incoming);
    lemma_one_is_neutral(one);
    assert(glass.spec_refraction_ratio(front_face) == one);
    let cos_theta = spec_refract_cos(u, normal);
    let square = cos_theta * cos_theta;
    lemma_product_sign(cos_theta.raw as int, cos_theta.raw as int);
    assert(square.raw >= 0);
    let rest = Scalar::spec_from_int(1) - square;
    assert(rest.raw <= ONE_RAW);
    let sin_theta = rest.spec_sqrt();
    lemma_sqrt_range(rest);
    if rest.raw > 0 {
        lemma_floor_sqrt(rest.raw * ONE_RAW);
        assert(sin_theta.raw <= ONE_RAW) by (nonlinear_arith)
            requires
                0 <= sin_theta.raw,
                sin_theta.raw * sin_theta.raw <= rest.raw * ONE_RAW,
                0 < rest.raw <= ONE_RAW,
        ;
    }
    lemma_one_is_neutral(sin_theta);
    assert((one * sin_theta).raw <= ONE_RAW);
    assert(!glass.spec_reflects(u, normal, front_face, sample));
    lemma_refract_keeps_direction(u, normal);
}

impl Material for Dielectric {
    /// Always goes on, unfiltered, from the point of the intersection,
    /// mirrored or refracted as a random number decides.
    open spec fn scatters(
        &self,
        r_in: Ray,
        rec: HitRecord,
        attenuation: Vec3,
        scattered: Ray,
        accepted: bool,
    ) -> bool {
        &&& accepted
        &&& attenuation == Vec3 {
            x: Scalar::spec_from_int(1),
            y: Scalar::spec_from_int(1),
            z: Scalar::spec_from_int(1),
        }
        &&& scattered.origin == rec.point
        &&& exists|u: Scalar| #[trigger]
            in_unit_interval(u) && scattered.direction == self.spec_direction(
                r_in.direction,
                rec.normal,
                rec.front_face,
                u,
            )
    }

    fn scatter(
        &self,
        r_in: &Ray,
        rec: &HitRecord,
        attenuation: &mut Vec3,
        scattered: &mut Ray,
    ) -> (accepted: bool) {
        let one = Scalar::from_int(1);
        *attenuation = Vec3::new(one, one, one);
        let sample = random();
        *scattered = Ray::new(
            rec.point,
            self.direction(r_in.direction, rec.normal, rec.front_face, sample),
        );
        true
    }
}

impl Material for MaterialKind {
    /// The law of the material that the value holds.
    open spec fn scatters(
        &self,
        r_in: Ray,
        rec: HitRecord,
        attenuation: Vec3,
        scattered: Ray,
        accepted: bool,
    ) -> bool {
        match *self {
            MaterialKind::Lambertian(m) => m.scatters(r_in, rec, attenuation, scattered, accepted),
            MaterialKind::Metal(m) => m.scatters(r_in, rec, attenuation, scattered, accepted),
            MaterialKind::Dielectric(m) => m.scatters(r_in, rec, attenuation, scattered, accepted),
        }
    }

    fn scatter(
        &self,
        r_in: &Ray,
        rec: &HitRecord,
        attenuation: &mut Vec3,
        scattered: &mut Ray,
    ) -> (accepted: bool) {
        match self {
            MaterialKind::Lambertian(m) => m.scatter(r_in, rec, attenuation, scattered),
            MaterialKind::Metal(m) => m.scatter(r_in, rec, attenuation, scattered),
            MaterialKind::Dielectric(m) => m.scatter(r_in, rec, attenuation, scattered),
        }
    }
}

/// Whether `mat` takes light away and adds none: whether each channel of
/// its albedo lies between zero and one. Glass passes all light and adds
/// none.
pub open spec fn is_filter(mat: MaterialKind) -> bool {
    match mat {
        MaterialKind::Lambertian(m) => in_unit_range(m.albedo),
        MaterialKind::Metal(m) => in_unit_range(m.albedo),
        MaterialKind::Dielectric(m) => true,
    }
}

/// The attenuation of a material that adds no light is a colour.
pub proof fn lemma_attenuation_of_filter(
    mat: MaterialKind,
    r_in: Ray,
    rec: HitRecord,
    attenuation: Vec3,
    scattered: Ray,
    accepted: bool,
)
    requires
        is_filter(mat),
        mat.scatters(r_in, rec, attenuation, scattered, accepted),
    ensures
        in_unit_range(attenuation),
{
}

} // verus!
