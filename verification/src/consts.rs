//! Named numbers, the random source and small helpers on scalars.
use crate::scalar::{Scalar, MAX_RAW, ONE_RAW};
use rand::Rng;
use vstd::prelude::*;

verus! {

/// The raw value of pi, rounded down to the grid.
pub const PI_RAW: i64 = 13493037704;

/// The upper bound of the scalars, which stands for infinity.
pub fn infinity() -> (r: Scalar)
    ensures
        r.raw == MAX_RAW,
{
    Scalar { raw: MAX_RAW }
}

/// Pi, rounded down to the grid.
pub fn pi() -> (r: Scalar)
    ensures
        r.raw == PI_RAW,
{
    Scalar { raw: PI_RAW }
}

/// `degrees * pi / 180`, evaluated from the left.
pub open spec fn spec_degrees_to_radians(degrees: Scalar) -> Scalar {
    (degrees * Scalar { raw: PI_RAW }).spec_div(Scalar::spec_from_int(180))
}

/// An angle in degrees, converted to radians.
#[verifier::when_used_as_spec(spec_degrees_to_radians)]
pub fn degrees_to_radians(degrees: Scalar) -> (r: Scalar)
    ensures
        r == spec_degrees_to_radians(degrees),
{
    degrees * pi() / Scalar::from_int(180)
}

/// Whether `u` lies in the half-open interval from zero to one.
pub open spec fn in_unit_interval(u: Scalar) -> bool {
    0 <= u.raw < ONE_RAW
}

/// Draws 32 bits from the thread-local generator of the `rand` crate, by
/// `rand::thread_rng` and `Rng::gen::<u32>`. Nothing is claimed of the bits:
/// two draws may differ, and verified callers hold for every value.
#[verifier::external_body]
fn random_bits() -> (bits: u32) {
    rand::thread_rng().gen::<u32>()
}

/// A random number in the half-open interval from zero to one: the drawn
/// bits are its 32 fractional bits.
pub fn random() -> (r: Scalar)
    ensures
        in_unit_interval(r),
{
    fraction(random_bits())
}

/// The number between zero and one whose 32 fractional bits are `bits`.
pub open spec fn spec_fraction(bits: u32) -> Scalar {
    Scalar { raw: bits as i64 }
}

/// The number between zero and one whose 32 fractional bits are `bits`.
#[verifier::when_used_as_spec(spec_fraction)]
pub fn fraction(bits: u32) -> (r: Scalar)
    ensures
        r == spec_fraction(bits),
        in_unit_interval(r),
{
    Scalar { raw: bits as i64 }
}

/// The point of the span from `min` to `max` at the fraction `u`:
/// `min + (max - min) * u`.
pub open spec fn spec_lerp(min: Scalar, max: Scalar, u: Scalar) -> Scalar {
    min + (max - min) * u
}

/// The point of the span from `min` to `max` at the fraction `u`.
#[verifier::when_used_as_spec(spec_lerp)]
pub fn lerp(min: Scalar, max: Scalar, u: Scalar) -> (r: Scalar)
    ensures
        r == spec_lerp(min, max, u),
{
    min + (max - min) * u
}

/// A random number of the span from `min` to `max`: the point at a random
/// fraction of the unit interval.
pub fn random_range(min: Scalar, max: Scalar) -> (r: Scalar)
    ensures
        exists|u: Scalar| #[trigger] in_unit_interval(u) && r == spec_lerp(min, max, u),
{
    let u = random();
    lerp(min, max, u)
}

/// `x` held between `min` and `max`; `min` wins where the two cross.
pub open spec fn spec_clamp(x: Scalar, min: Scalar, max: Scalar) -> Scalar {
    if x.raw < min.raw {
        min
    } else if x.raw > max.raw {
        max
    } else {
        x
    }
}

/// `x` held between `min` and `max`.
#[verifier::when_used_as_spec(spec_clamp)]
pub fn clamp(x: Scalar, min: Scalar, max: Scalar) -> (r: Scalar)
    ensures
        r == spec_clamp(x, min, max),
{
    if x.raw < min.raw {
        return min;
    }
    if x.raw > max.raw {
        return max;
    }
    x
}

} // verus!
