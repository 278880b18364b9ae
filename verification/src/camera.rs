//! The camera: a thin lens that turns image coordinates into rays.
use crate::consts::{degrees_to_radians, spec_degrees_to_radians};
use crate::math::laws::in_range;
use crate::math::vec3::{cross, in_unit_disk, unit_vector, Vec3};
use crate::ray::Ray;
use crate::scalar::{lemma_mul_by_zero, Scalar};
use vstd::prelude::*;

verus! {

/// A camera, fixed once it is built.
#[derive(Clone, Copy, Debug)]
pub struct Camera {
    /// Where the camera stands.
    pub origin: Vec3,
    /// The lower left corner of the plane of focus.
    pub lower_left_corner: Vec3,
    /// The plane of focus from left to right.
    pub horizontal: Vec3,
    /// The plane of focus from bottom to top.
    pub vertical: Vec3,
    /// The unit vector to the right of the camera.
    pub u: Vec3,
    /// The unit vector upward of the camera.
    pub v: Vec3,
    /// The unit vector against the line of sight.
    pub w: Vec3,
    /// Half the aperture.
    pub lens_radius: Scalar,
}

impl Camera {
    /// The height of the viewport at the distance one, for a vertical field
    /// of view of `vfov` degrees: `2 * tan(vfov / 2)`.
    pub open spec fn spec_viewport_height(vfov: Scalar) -> Scalar {
        Scalar::spec_from_int(2) * spec_degrees_to_radians(vfov).spec_div(
            Scalar::spec_from_int(2),
        ).spec_tan()
    }

    /// The width of the viewport at the distance one.
    pub open spec fn spec_viewport_width(vfov: Scalar, aspect_ratio: Scalar) -> Scalar {
        aspect_ratio * Camera::spec_viewport_height(vfov)
    }

    /// The lower left corner of the plane of focus:
    /// `origin - horizontal / 2 - vertical / 2 - focus_dist * w`.
    pub open spec fn spec_corner(
        origin: Vec3,
        horizontal: Vec3,
        vertical: Vec3,
        w: Vec3,
        focus_dist: Scalar,
    ) -> Vec3 {
        origin - horizontal.spec_div_scalar(Scalar::spec_from_int(2)) - vertical.spec_div_scalar(
            Scalar::spec_from_int(2),
        ) - w.spec_scale(focus_dist)
    }

    /// The offset of the ray's origin for the point `p` of the unit disk:
    /// with `rd = lens_radius * p`, the vector `u * rd.x + v * rd.y`.
    pub open spec fn spec_lens_offset(&self, p: Vec3) -> Vec3 {
        let rd = p.spec_scale(self.lens_radius);
        self.u.spec_scale(rd.x) + self.v.spec_scale(rd.y)
    }

    /// The ray through the point `(s, t)` of the image, from the point of
    /// the lens that `p` of the unit disk stands for.
    pub open spec fn spec_ray_through(&self, s: Scalar, t: Scalar, p: Vec3) -> Ray {
        let offset = self.spec_lens_offset(p);
        Ray {
            origin: self.origin + offset,
            direction: self.lower_left_corner + self.horizontal.spec_scale(s)
                + self.vertical.spec_scale(t) - self.origin - offset,
        }
    }

    /// The camera at `lookfrom` that looks at `lookat`, with `vup` upward,
    /// a vertical field of view of `vfov` degrees, the given ratio of width
    /// to height, the given aperture, and the plane of focus at the distance
    /// `focus_dist`.
    pub fn new(
        lookfrom: Vec3,
        lookat: Vec3,
        vup: Vec3,
        vfov: Scalar,
        aspect_ratio: Scalar,
        aperture: Scalar,
        focus_dist: Scalar,
    ) -> (cam: Camera)
        ensures
            cam.w == unit_vector(lookfrom - lookat),
            cam.u == unit_vector(cross(vup, cam.w)),
            cam.v == cross(cam.w, cam.u),
            cam.origin == lookfrom,
            cam.horizontal == cam.u.spec_scale(
                focus_dist * Camera::spec_viewport_width(vfov, aspect_ratio),
            ),
            cam.vertical == cam.v.spec_scale(focus_dist * Camera::spec_viewport_height(vfov)),
            cam.lower_left_corner == Camera::spec_corner(
                lookfrom,
                cam.horizontal,
                cam.vertical,
                cam.w,
                focus_dist,
            ),
            cam.lens_radius == aperture.spec_div(Scalar::spec_from_int(2)),
    {
        let two = Scalar::from_int(2);
        let theta = degrees_to_radians(vfov);
        let h = (theta / two).tan();
        let viewport_height = two * h;
        let viewport_width = aspect_ratio * viewport_height;

        let w = unit_vector(lookfrom - lookat);
        let u = unit_vector(cross(vup, w));
        let v = cross(w, u);

        let origin = lookfrom;
        let horizontal = focus_dist * viewport_width * u;
        let vertical = focus_dist * viewport_height * v;
        let lower_left_corner = origin - horizontal / two - vertical / two - focus_dist * w;

        let lens_radius = aperture / two;

        Camera { origin, horizontal, vertical, lower_left_corner, u, v, w, lens_radius }
    }

    /// The ray through the point `(s, t)` of the image, from the point of
    /// the lens that `p` of the unit disk stands for.
    #[verifier::when_used_as_spec(spec_ray_through)]
    pub fn ray_through(&self, s: Scalar, t: Scalar, p: Vec3) -> (r: Ray)
        ensures
            r == self.spec_ray_through(s, t, p),
    {
        let rd = self.lens_radius * p;
        let offset = self.u * rd.x + self.v * rd.y;

        Ray::new(
            self.origin + offset,
            self.lower_left_corner + self.horizontal * s + self.vertical * t - self.origin
                - offset,
        )
    }

    /// The ray through the point `(s, t)` of the image, from a random point
    /// of the lens.
    pub fn get_ray(&self, s: Scalar, t: Scalar) -> (r: Ray)
        ensures
            exists|p: Vec3| #[trigger] in_unit_disk(p) && r == self.spec_ray_through(s, t, p),
    {
        let p = Vec3::random_in_unit_disk();
        self.ray_through(s, t, p)
    }
}

/// A camera without aperture is a pinhole camera: the ray through a point
/// of the image does not depend on the point of the lens, and starts where
/// the camera stands.
pub proof fn lemma_pinhole(cam: Camera, s: Scalar, t: Scalar, p: Vec3, q: Vec3)
    requires
        cam.lens_radius == Scalar::spec_zero(),
    ensures
        cam.spec_ray_through(s, t, p) == cam.spec_ray_through(s, t, q),
        in_range(cam.origin) ==> cam.spec_ray_through(s, t, p).origin == cam.origin,
{
    lemma_mul_by_zero(p.x);
    lemma_mul_by_zero(p.y);
    lemma_mul_by_zero(p.z);
    lemma_mul_by_zero(q.x);
    lemma_mul_by_zero(q.y);
    lemma_mul_by_zero(q.z);
    lemma_mul_by_zero(cam.u.x);
    lemma_mul_by_zero(cam.u.y);
    lemma_mul_by_zero(cam.u.z);
    lemma_mul_by_zero(cam.v.x);
    lemma_mul_by_zero(cam.v.y);
    lemma_mul_by_zero(cam.v.z);
    assert(cam.spec_lens_offset(p) == Vec3::spec_zero());
    assert(cam.spec_lens_offset(q) == Vec3::spec_zero());
}

} // verus!
