//! From summed radiance to bytes: the mean of the samples, gamma 2, and
//! the scale of a byte.
use crate::consts::{clamp, spec_clamp};
use crate::math::vec3::Vec3;
use crate::scalar::{
    is_floor_sqrt, lemma_floor_sqrt, lemma_floor_sqrt_unique, Scalar, ONE_RAW,
};
use vstd::arithmetic::div_mod::lemma_div_multiples_vanish;
use vstd::prelude::*;

verus! {

/// The raw value of `0.999`, rounded down to the grid: the ceiling of a
/// channel before it is scaled.
pub const CEILING_RAW: i64 = 4290672328;

/// A pixel of eight bits a channel.
#[derive(Clone, Copy, Debug, PartialEq, Eq, Structural)]
pub struct Rgb8 {
    pub r: u8,
    pub g: u8,
    pub b: u8,
}

/// A channel of the picture for the sum `sum` of `samples` samples:
/// `256 * clamp(sqrt(sum / samples), 0, 0.999)`.
pub open spec fn spec_channel(sum: Scalar, samples: int) -> Scalar {
    Scalar::spec_from_int(256) * spec_clamp(
        sum.spec_div(Scalar::spec_from_int(samples)).spec_sqrt(),
        Scalar { raw: 0 },
        Scalar { raw: CEILING_RAW },
    )
}

/// The colour of the picture for the sum `sum` of `samples` samples.
pub open spec fn spec_write_color(sum: Vec3, samples: int) -> Vec3 {
    Vec3 {
        x: spec_channel(sum.x, samples),
        y: spec_channel(sum.y, samples),
        z: spec_channel(sum.z, samples),
    }
}

/// The pixel that holds the whole part of each channel.
pub open spec fn spec_to_rgb(color: Vec3) -> Rgb8 {
    Rgb8 { r: color.x.spec_to_u8(), g: color.y.spec_to_u8(), b: color.z.spec_to_u8() }
}

fn channel(sum: Scalar, samples_per_pixel: i32) -> (r: Scalar)
    ensures
        r == spec_channel(sum, samples_per_pixel as int),
{
    let mean = sum / Scalar::from_int(samples_per_pixel);
    Scalar::from_int(256) * clamp(mean.sqrt(), Scalar { raw: 0 }, Scalar { raw: CEILING_RAW })
}

/// Turns the sum of `samples_per_pixel` samples into the colour of the
/// picture: each channel becomes its mean, then the square root of it for
/// gamma 2, held between 0 and 0.999, times 256.
pub fn write_color(pixel_color: &mut Vec3, samples_per_pixel: i32)
    ensures
        *final(pixel_color) == spec_write_color(*old(pixel_color), samples_per_pixel as int),
{
    let r = channel(pixel_color.x, samples_per_pixel);
    let g = channel(pixel_color.y, samples_per_pixel);
    let b = channel(pixel_color.z, samples_per_pixel);

    pixel_color.x = r;
    pixel_color.y = g;
    pixel_color.z = b;
}

/// The pixel that holds the whole part of each channel.
#[verifier::when_used_as_spec(spec_to_rgb)]
pub fn to_rgb(color: Vec3) -> (p: Rgb8)
    ensures
        p == spec_to_rgb(color),
{
    Rgb8 { r: color.x.to_u8(), g: color.y.to_u8(), b: color.z.to_u8() }
}

/// A channel whose every sample was one comes out as 255, however many
/// samples there were: the ceiling of 0.999 times 256, cut to its whole part.
pub proof fn lemma_full_channel_is_255(samples: int)
    requires
        1 <= samples <= i32::MAX,
    ensures
        spec_channel(Scalar::spec_from_int(samples), samples).spec_to_u8() == 255,
{
    let one = ONE_RAW as int;
    let s = Scalar::spec_from_int(samples);
    assert(s.raw == samples * one);
    let mean = s.spec_div(s);
    assert(mean.raw == one) by {
        lemma_div_multiples_vanish(one, samples * one);
        assert((samples * one) * one == s.raw * ONE_RAW);
    }
    assert(mean.spec_sqrt().raw == one) by {
        assert(is_floor_sqrt(one, one * one)) by (nonlinear_arith)
            requires
                one == 0x1_0000_0000,
        ;
        lemma_floor_sqrt(one * one);
        lemma_floor_sqrt_unique(one, crate::scalar::floor_sqrt(one * one), one * one);
    }
    let held = spec_clamp(mean.spec_sqrt(), Scalar { raw: 0 }, Scalar { raw: CEILING_RAW });
    assert(held.raw == CEILING_RAW);
    let scaled = Scalar::spec_from_int(256) * held;
    assert(scaled.raw == 256 * CEILING_RAW) by {
        lemma_div_multiples_vanish(256 * CEILING_RAW, one);
        assert((256 * one) * CEILING_RAW == one * (256 * CEILING_RAW));
    }
}

/// A pixel whose every sample was white comes out as the brightest pixel.
pub proof fn lemma_white_is_brightest(samples: int)
    requires
        1 <= samples <= i32::MAX,
    ensures
        spec_to_rgb(
            spec_write_color(
                Vec3 {
                    x: Scalar::spec_from_int(samples),
                    y: Scalar::spec_from_int(samples),
                    z: Scalar::spec_from_int(samples),
                },
                samples,
            ),
        ) == (Rgb8 { r: 255, g: 255, b: 255 }),
{
    lemma_full_channel_is_255(samples);
}

} // verus!
