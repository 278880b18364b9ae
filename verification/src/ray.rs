//! Rays: a point of origin and a direction, not necessarily of unit length.
use crate::math::vec3::Vec3;
use crate::scalar::Scalar;
use vstd::prelude::*;

verus! {

/// The half-line `origin + t * direction`.
#[derive(Clone, Copy, Debug, PartialEq, Eq, Structural)]
pub struct Ray {
    pub origin: Vec3,
    pub direction: Vec3,
}

impl Ray {
    /// The point at the parameter `t`: `origin + t * direction`.
    pub open spec fn spec_at(&self, t: Scalar) -> Vec3 {
        self.origin + self.direction.spec_scale(t)
    }

    /// The ray from `origin` along `direction`.
    pub fn new(origin: Vec3, direction: Vec3) -> (r: Ray)
        ensures
            r == (Ray { origin, direction }),
    {
        Ray { origin, direction }
    }

    /// The point at the parameter `t`.
    #[verifier::when_used_as_spec(spec_at)]
    pub fn at(&self, t: Scalar) -> (p: Vec3)
        ensures
            p == self.spec_at(t),
    {
        self.origin + t * self.direction
    }
}

impl Default for Ray {
    /// The ray from the origin with no direction.
    fn default() -> (r: Ray)
        ensures
            r == (Ray { origin: Vec3::spec_zero(), direction: Vec3::spec_zero() }),
    {
        Ray { origin: Vec3::default(), direction: Vec3::default() }
    }
}

} // verus!
