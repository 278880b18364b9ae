//! A small path tracer over saturating fixed-point numbers: vector algebra,
//! rays, spheres, scattering materials, a thin-lens camera and the recursive
//! radiance estimate, each with a contract over exact integer arithmetic.
//!
//! Numbers are [`scalar::Scalar`]s: signed, with 32 fractional bits, total
//! in every operation. What a function computes is stated over the raw
//! values, rounding included; what holds only up to rounding is stated with
//! its tolerance in steps of the grid. The modules are listed in the order
//! in which they build on each other.
//!
//! # Precision
//!
//! The grid has the absolute step `2^-32` and the range `-2^31 .. 2^31`; it
//! has no relative precision of its own. Two operations are carried out so
//! that their result does not depend on the length of a vector:
//! normalising ([`math::vec3::unit_vector`], whose result is within four
//! steps of unit length for every vector that is not zero) and the meeting
//! of a ray with a sphere ([`sphere::Sphere`], which solves the quadratic
//! for the normalised ray; the laws are in [`sphere_laws`]). A meeting is
//! recorded only where its parameter is a number of the grid, that is for
//! directions no shorter than the distance to the meeting times `2^-31`.
//!
//! Every other operation rounds to the grid at each product, so the laws of
//! the algebra hold with an absolute tolerance: reflection turns the normal
//! component around and is undone by a second reflection within
//! [`math::laws::reflect_tolerance`], some tens of steps. Against the length
//! `l` of the vector that is a relative error of about `30 * 2^-32 / l`:
//! below `1e-5` for vectors longer than about `1e-3`, and of the order of
//! the vector itself for vectors of a few steps. Directions are normalised
//! before they are reflected or refracted, so the materials work with
//! vectors of unit length.
pub mod scalar;
pub mod consts;
pub mod math;
pub mod ray;
pub mod hittable;
pub mod material;
pub mod sphere;
pub mod sphere_laws;
pub mod hittable_list;
pub mod camera;
pub mod color;
pub mod tracer;
pub mod render;
pub mod scene;
pub mod one_bounce;
