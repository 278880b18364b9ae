//! Vector algebra.
pub mod vec3;
pub mod laws;
pub mod unit;
