//! What a ray meets: the record of an intersection and the surfaces that
//! can be asked for one.
use crate::material::MaterialKind;
use crate::math::laws::{in_range, lemma_dot_of_negation};
use crate::math::vec3::{dot, unit_vector, Vec3};
use crate::ray::Ray;
use crate::scalar::Scalar;
use std::ops::Neg;

use vstd::prelude::*;

verus! {

/// One intersection of a ray with a surface.
#[derive(Clone, Copy, Debug)]
pub struct HitRecord {
    /// Where the ray meets the surface.
    pub point: Vec3,
    /// The surface normal there, turned against the ray.
    pub normal: Vec3,
    /// The ray parameter of the point.
    pub t: Scalar,
    /// Whether the ray comes from outside the surface.
    pub front_face: bool,
    /// The material of the surface, if it has one.
    pub mat: Option<MaterialKind>,
}

/// `hit` where its parameter does not exceed `bound`, else nothing.
pub open spec fn prune(hit: Option<HitRecord>, bound: Scalar) -> Option<HitRecord> {
    match hit {
        Some(rec) => if rec.t.raw <= bound.raw {
            hit
        } else {
            None
        },
        None => None,
    }
}

impl HitRecord {
    /// The record before any intersection: zero everywhere, no material.
    pub open spec fn spec_default() -> HitRecord {
        HitRecord {
            point: Vec3::spec_zero(),
            normal: Vec3::spec_zero(),
            t: Scalar { raw: 0 },
            front_face: false,
            mat: None,
        }
    }

    /// Whether the ray meets the surface from the side `outward_normal`
    /// points to.
    pub open spec fn spec_front_face(ray: Ray, outward_normal: Vec3) -> bool {
        dot(ray.direction, outward_normal).raw < 0
    }

    /// The outward normal, turned against the ray.
    pub open spec fn spec_face_normal(ray: Ray, outward_normal: Vec3) -> Vec3 {
        if HitRecord::spec_front_face(ray, outward_normal) {
            outward_normal
        } else {
            outward_normal.spec_neg()
        }
    }

    /// Records on which side the ray meets the surface and turns the normal
    /// against the ray.
    pub fn set_face_normal(&mut self, ray: &Ray, outward_normal: &Vec3)
        ensures
            final(self).front_face == HitRecord::spec_front_face(*ray, *outward_normal),
            final(self).normal == HitRecord::spec_face_normal(*ray, *outward_normal),
            final(self).point == old(self).point,
            final(self).t == old(self).t,
            final(self).mat == old(self).mat,
    {
        self.front_face = dot(ray.direction, *outward_normal).raw < 0;
        self.normal = if self.front_face {
            *outward_normal
        } else {
            outward_normal.neg()
        };
    }
}

/// The face normal never points along the ray: its dot product with the
/// direction of the ray is never positive.
pub proof fn lemma_face_normal_against_ray(ray: Ray, outward_normal: Vec3)
    requires
        in_range(outward_normal),
    ensures
        dot(ray.direction, HitRecord::spec_face_normal(ray, outward_normal)).raw <= 0,
{
    lemma_dot_of_negation(ray.direction, outward_normal);
}

impl Default for HitRecord {
    fn default() -> (rec: HitRecord)
        ensures
            rec == HitRecord::spec_default(),
    {
        HitRecord {
            point: Vec3::default(),
            normal: Vec3::default(),
            t: Scalar { raw: 0 },
            front_face: false,
            mat: None,
        }
    }
}

/// A surface that a ray can meet.
pub trait Hittable {
    /// The intersection of `ray` with the surface whose parameter lies
    /// between `t_min` and `t_max`, if there is one.
    spec fn spec_hit(&self, ray: Ray, t_min: Scalar, t_max: Scalar) -> Option<HitRecord>;

    /// An intersection lies within the bounds it was asked for.
    proof fn lemma_hit_in_range(&self, ray: Ray, t_min: Scalar, t_max: Scalar)
        ensures
            self.spec_hit(ray, t_min, t_max) matches Some(rec) ==> t_min.raw <= rec.t.raw
                <= t_max.raw,
    ;

    /// A lower upper bound only removes the intersection, where it lies
    /// beyond the new bound; it never brings up another one.
    proof fn lemma_hit_prune(&self, ray: Ray, t_min: Scalar, bound: Scalar, t_max: Scalar)
        requires
            bound.raw <= t_max.raw,
        ensures
            self.spec_hit(ray, t_min, bound) == prune(self.spec_hit(ray, t_min, t_max), bound),
    ;

    /// The normal of an intersection never points along the ray: its dot
    /// product with the unit direction of the ray is never positive.
    proof fn lemma_hit_faces_ray(&self, ray: Ray, t_min: Scalar, t_max: Scalar)
        ensures
            self.spec_hit(ray, t_min, t_max) matches Some(rec) ==> dot(
                unit_vector(ray.direction),
                rec.normal,
            ).raw <= 0,
    ;

    /// Looks for the intersection of `ray` with the surface between `t_min`
    /// and `t_max`. Where there is one, it is written to `record`; where
    /// there is none, `record` is left as it was.
    fn hit(&self, ray: &Ray, t_min: Scalar, t_max: Scalar, record: &mut HitRecord) -> (found: bool)
        ensures
            found == self.spec_hit(*ray, t_min, t_max).is_some(),
            found ==> Some(*final(record)) == self.spec_hit(*ray, t_min, t_max),
            !found ==> *final(record) == *old(record),
    ;
}

} // verus!
