//! Three-component vectors over [`Scalar`], used as points, directions and
//! colours alike.
use crate::consts::{in_unit_interval, lerp, random, spec_lerp};
use crate::math::laws::{
    in_unit_box, lemma_reflect_turns_normal_component, lemma_reflect_twice, reflect_tolerance,
    within_steps,
};
use crate::math::unit::{lemma_unit_vector_in_box, lemma_unit_vector_length};
use crate::scalar::{
    floor_sqrt, from_magnitude, integer_sqrt, is_floor_sqrt, lemma_floor_sqrt, lemma_product_sign,
    magnitude, magnitude_of, saturate, trunc_quot, Scalar, ONE_RAW,
};
use std::ops::{Add, Div, Mul, Neg, Sub};
use vstd::prelude::*;

verus! {

/// The first raw magnitude that no longer counts as zero: the threshold
/// `1e-8` lies between 42 and 43 units of the grid.
pub const NEAR_ZERO_RAW: i64 = 43;

/// How often a rejection sampler draws before it settles for the origin.
pub const MAX_ATTEMPTS: u32 = 256;

/// A vector of three scalars.
#[derive(Clone, Copy, Debug, PartialEq, Eq, Structural)]
pub struct Vec3 {
    pub x: Scalar,
    pub y: Scalar,
    pub z: Scalar,
}

/// A component scaled up stays within the bound of the largest one.
proof fn lemma_scaled_bound(c: int, m: int, f: int)
    requires
        0 <= c <= m,
        1 <= f,
    ensures
        0 <= c * f <= m * f,
{
    assert(0 <= c * f <= m * f) by (nonlinear_arith)
        requires
            0 <= c <= m,
            1 <= f,
    ;
}

/// The square of a scaled component is the square of its scaled magnitude.
proof fn lemma_scaled_square(c: int, f: int)
    ensures
        (c * f) * (c * f) == (magnitude(c) * f) * (magnitude(c) * f),
{
    assert((c * f) * (c * f) == ((-c) * f) * ((-c) * f)) by (nonlinear_arith);
}

/// The rounded-down root of a sum of squares is no less than any magnitude
/// that went into the sum.
pub proof fn lemma_root_covers(w: int, sum: int, root: int)
    requires
        0 <= w,
        w * w <= sum,
        is_floor_sqrt(root, sum),
    ensures
        w <= root,
{
    assert(w <= root) by (nonlinear_arith)
        requires
            0 <= w,
            0 <= root,
            w * w <= sum,
            sum < (root + 1) * (root + 1),
    ;
}

/// The square of a magnitude of 64 bits fits 126 bits.
proof fn lemma_square_bound(m: int)
    requires
        0 <= m <= 0x8000_0000_0000_0000,
    ensures
        0 <= m * m <= 0x4000_0000_0000_0000_0000_0000_0000_0000,
{
    assert(0 <= m * m <= 0x8000_0000_0000_0000 * 0x8000_0000_0000_0000) by (nonlinear_arith)
        requires
            0 <= m <= 0x8000_0000_0000_0000,
    ;
}

/// `v1.x * v2.x + v1.y * v2.y + v1.z * v2.z`, evaluated from the left.
pub open spec fn spec_dot(v1: Vec3, v2: Vec3) -> Scalar {
    v1.x * v2.x + v1.y * v2.y + v1.z * v2.z
}

/// The cross product of `u` and `v`.
pub open spec fn spec_cross(u: Vec3, v: Vec3) -> Vec3 {
    Vec3 {
        x: u.y * v.z - u.z * v.y,
        y: u.z * v.x - u.x * v.z,
        z: u.x * v.y - u.y * v.x,
    }
}

/// The least raw magnitude that the largest component of a vector has
/// once the vector is scaled up for normalising: `2^61`.
pub const FINE_RAW: u128 = 0x2000_0000_0000_0000;

/// The power of two by which a vector is scaled up before it is
/// normalised, for the largest magnitude `m` of its raw components: the
/// least one that brings `m` to `FINE_RAW` or beyond, and one where `m` is
/// zero or large enough as it is.
pub open spec fn spec_boost(m: int) -> int
    decreases
        (if m < FINE_RAW {
            FINE_RAW - m
        } else {
            0
        }),
{
    if 0 < m < FINE_RAW {
        2 * spec_boost(2 * m)
    } else {
        1
    }
}

/// A raw component of the normalised vector: the component `c`, scaled by
/// `f`, over the length `len` of the scaled vector, rounded toward zero.
pub open spec fn spec_unit_component(c: int, f: int, len: int) -> int {
    trunc_quot(c * f * ONE_RAW, len)
}

/// `v` divided by its length. So that short vectors keep their direction,
/// the raw vector is first scaled up by `spec_boost`, which does not turn
/// it, and the length is taken of the scaled vector. The zero vector stays
/// zero.
pub open spec fn spec_unit_vector(v: Vec3) -> Vec3 {
    let f = v.spec_fine_scale();
    let len = v.spec_fine_length();
    Vec3 {
        x: Scalar { raw: spec_unit_component(v.x.raw as int, f, len) as i64 },
        y: Scalar { raw: spec_unit_component(v.y.raw as int, f, len) as i64 },
        z: Scalar { raw: spec_unit_component(v.z.raw as int, f, len) as i64 },
    }
}

/// The mirror image of `v` about the plane normal to `n`:
/// `v - (2 * dot(v, n)) * n`.
pub open spec fn spec_reflect(v: Vec3, n: Vec3) -> Vec3 {
    v - n.spec_scale(Scalar::spec_from_int(2) * spec_dot(v, n))
}

/// The cosine of the angle of incidence as refraction takes it:
/// `min(-uv . n, 1)`.
pub open spec fn spec_refract_cos(uv: Vec3, n: Vec3) -> Scalar {
    spec_dot(uv.spec_neg(), n).spec_min(Scalar::spec_from_int(1))
}

/// The part of the refracted direction that is perpendicular to the normal:
/// `etai_over_etat * (uv + cos * n)`.
pub open spec fn spec_refract_perp(uv: Vec3, n: Vec3, etai_over_etat: Scalar) -> Vec3 {
    (uv + n.spec_scale(spec_refract_cos(uv, n))).spec_scale(etai_over_etat)
}

/// The length of the part of the refracted direction that runs along the
/// normal: `sqrt(|1 - perp . perp|)`.
pub open spec fn spec_refract_along(uv: Vec3, n: Vec3, etai_over_etat: Scalar) -> Scalar {
    (Scalar::spec_from_int(1) - spec_refract_perp(
        uv,
        n,
        etai_over_etat,
    ).spec_length_squared()).spec_abs().spec_sqrt()
}

/// The direction of `uv` after it passes a surface with normal `n` and ratio
/// of refractive indices `etai_over_etat`, by Snell's law: the
/// perpendicular part, and the part against the normal.
pub open spec fn spec_refract(uv: Vec3, n: Vec3, etai_over_etat: Scalar) -> Vec3 {
    spec_refract_perp(uv, n, etai_over_etat) + n.spec_scale(
        spec_refract_along(uv, n, etai_over_etat).spec_neg(),
    )
}

/// Whether each component of `s` lies in the unit interval.
pub open spec fn in_unit_cube(s: Vec3) -> bool {
    in_unit_interval(s.x) && in_unit_interval(s.y) && in_unit_interval(s.z)
}

/// Whether `p` lies strictly inside the unit ball.
pub open spec fn in_unit_ball(p: Vec3) -> bool {
    p.spec_length_squared().raw < ONE_RAW
}

/// Whether `p` lies strictly inside the unit disk of the plane `z = 0`.
pub open spec fn in_unit_disk(p: Vec3) -> bool {
    p.z.raw == 0 && p.spec_length_squared().raw < ONE_RAW
}

/// The point of the cube around the unit ball at the fractions `s`: each
/// component at its fraction of the span from minus one to one.
pub open spec fn spec_ball_candidate(s: Vec3) -> Vec3 {
    Vec3::spec_lerp(Scalar::spec_from_int(-1), Scalar::spec_from_int(1), s)
}

/// The point of the square around the unit disk at the fractions `s.x` and
/// `s.y`, in the plane `z = 0`.
pub open spec fn spec_disk_candidate(s: Vec3) -> Vec3 {
    Vec3 {
        x: spec_lerp(Scalar::spec_from_int(-1), Scalar::spec_from_int(1), s.x),
        y: spec_lerp(Scalar::spec_from_int(-1), Scalar::spec_from_int(1), s.y),
        z: Scalar { raw: 0 },
    }
}

/// Whether rejection settles for `p` once it has tried `attempts`
/// candidates, the last of them `candidate`: a candidate inside the ball is
/// taken; one outside ends the run only as the last that may be tried, and
/// then the centre is taken.
pub open spec fn settles_for(candidate: Vec3, attempts: int, p: Vec3) -> bool {
    if in_unit_ball(candidate) {
        p == candidate
    } else {
        attempts == MAX_ATTEMPTS && p == Vec3::spec_zero()
    }
}

/// Whether `p` is what rejection sampling in the unit ball ends with for
/// the random vectors `samples`, drawn in turn from the unit cube: every
/// candidate but the last was rejected, and the run settles for `p`.
pub open spec fn is_ball_run(samples: Seq<Vec3>, p: Vec3) -> bool {
    &&& 1 <= samples.len() <= MAX_ATTEMPTS
    &&& forall|i: int| 0 <= i < samples.len() ==> in_unit_cube(#[trigger] samples[i])
    &&& forall|i: int|
        0 <= i < samples.len() - 1 ==> !in_unit_ball(spec_ball_candidate(#[trigger] samples[i]))
    &&& settles_for(spec_ball_candidate(samples.last()), samples.len() as int, p)
}

/// Whether `p` is what rejection sampling in the unit disk ends with for
/// the random vectors `samples`, of which the first two components are
/// drawn in turn from the unit interval.
pub open spec fn is_disk_run(samples: Seq<Vec3>, p: Vec3) -> bool {
    &&& 1 <= samples.len() <= MAX_ATTEMPTS
    &&& forall|i: int| 0 <= i < samples.len() ==> in_unit_cube(#[trigger] samples[i])
    &&& forall|i: int|
        0 <= i < samples.len() - 1 ==> !in_unit_ball(spec_disk_candidate(#[trigger] samples[i]))
    &&& settles_for(spec_disk_candidate(samples.last()), samples.len() as int, p)
}

impl Vec3 {
    /// The zero vector.
    pub open spec fn spec_zero() -> Vec3 {
        Vec3 { x: Scalar { raw: 0 }, y: Scalar { raw: 0 }, z: Scalar { raw: 0 } }
    }

    /// The unit vector along the z axis.
    pub open spec fn spec_unit_z() -> Vec3 {
        Vec3 { x: Scalar { raw: 0 }, y: Scalar { raw: 0 }, z: Scalar { raw: ONE_RAW } }
    }

    /// The sum, component by component.
    pub open spec fn spec_add(self, rhs: Vec3) -> Vec3 {
        Vec3 { x: self.x + rhs.x, y: self.y + rhs.y, z: self.z + rhs.z }
    }

    /// The difference, component by component.
    pub open spec fn spec_sub(self, rhs: Vec3) -> Vec3 {
        Vec3 { x: self.x - rhs.x, y: self.y - rhs.y, z: self.z - rhs.z }
    }

    /// The product, component by component.
    pub open spec fn spec_mul(self, rhs: Vec3) -> Vec3 {
        Vec3 { x: self.x * rhs.x, y: self.y * rhs.y, z: self.z * rhs.z }
    }

    /// The quotient, component by component.
    pub open spec fn spec_div(self, rhs: Vec3) -> Vec3 {
        Vec3 { x: self.x.spec_div(rhs.x), y: self.y.spec_div(rhs.y), z: self.z.spec_div(rhs.z) }
    }

    /// The negation, component by component.
    pub open spec fn spec_neg(self) -> Vec3 {
        Vec3 { x: self.x.spec_neg(), y: self.y.spec_neg(), z: self.z.spec_neg() }
    }

    /// Each component times `s`.
    pub open spec fn spec_scale(self, s: Scalar) -> Vec3 {
        Vec3 { x: self.x * s, y: self.y * s, z: self.z * s }
    }

    /// Each component divided by `s`.
    pub open spec fn spec_div_scalar(self, s: Scalar) -> Vec3 {
        Vec3 { x: self.x.spec_div(s), y: self.y.spec_div(s), z: self.z.spec_div(s) }
    }

    /// Each component plus `s`.
    pub open spec fn spec_add_scalar(self, s: Scalar) -> Vec3 {
        Vec3 { x: self.x + s, y: self.y + s, z: self.z + s }
    }

    /// Each component minus `s`.
    pub open spec fn spec_sub_scalar(self, s: Scalar) -> Vec3 {
        Vec3 { x: self.x - s, y: self.y - s, z: self.z - s }
    }

    /// `s` minus each component.
    pub open spec fn spec_scalar_sub(self, s: Scalar) -> Vec3 {
        Vec3 { x: s - self.x, y: s - self.y, z: s - self.z }
    }

    /// `s` divided by each component.
    pub open spec fn spec_scalar_div(self, s: Scalar) -> Vec3 {
        Vec3 { x: s.spec_div(self.x), y: s.spec_div(self.y), z: s.spec_div(self.z) }
    }

    /// The dot product of the vector with itself.
    pub open spec fn spec_length_squared(&self) -> Scalar {
        spec_dot(*self, *self)
    }

    /// The largest magnitude of the raw components.
    pub open spec fn spec_max_magnitude(&self) -> int {
        let a = magnitude(self.x.raw as int);
        let b = magnitude(self.y.raw as int);
        let c = magnitude(self.z.raw as int);
        if a >= b && a >= c {
            a
        } else if b >= c {
            b
        } else {
            c
        }
    }

    /// The power of two by which the vector is scaled up before it is
    /// normalised.
    pub open spec fn spec_fine_scale(&self) -> int {
        spec_boost(self.spec_max_magnitude())
    }

    /// The length of the raw vector scaled up by `spec_fine_scale`, rounded
    /// down to a whole number.
    pub open spec fn spec_fine_length(&self) -> int {
        let f = self.spec_fine_scale();
        floor_sqrt(
            (self.x.raw * f) * (self.x.raw * f) + (self.y.raw * f) * (self.y.raw * f) + (self.z.raw
                * f) * (self.z.raw * f),
        )
    }

    /// The parameter of a ray along this vector at the distance `distance`
    /// from its origin: the distance over the length of the vector, taken
    /// with the length of the scaled vector, rounded toward zero and
    /// saturated. Zero for the zero vector.
    pub open spec fn spec_parameter_at(&self, distance: Scalar) -> Scalar {
        Scalar {
            raw: saturate(
                trunc_quot(
                    distance.raw * self.spec_fine_scale() * ONE_RAW,
                    self.spec_fine_length(),
                ),
            ) as i64,
        }
    }

    /// The sum of the squares of the raw components, with no rounding.
    pub open spec fn spec_raw_norm_squared(&self) -> int {
        self.x.raw * self.x.raw + self.y.raw * self.y.raw + self.z.raw * self.z.raw
    }

    /// The Euclidean length, rounded down to the grid and saturated: the
    /// square root is taken of the exact sum of squares, so that short
    /// vectors keep their length.
    pub open spec fn spec_length(&self) -> Scalar {
        Scalar { raw: saturate(floor_sqrt(self.spec_raw_norm_squared())) as i64 }
    }

    /// Whether every component is below `1e-8` in magnitude.
    pub open spec fn spec_near_zero(&self) -> bool {
        self.x.spec_abs().raw < NEAR_ZERO_RAW && self.y.spec_abs().raw < NEAR_ZERO_RAW
            && self.z.spec_abs().raw < NEAR_ZERO_RAW
    }

    /// The point of the span from `min` to `max` at the fractions `s`,
    /// component by component.
    pub open spec fn spec_lerp(min: Scalar, max: Scalar, s: Vec3) -> Vec3 {
        Vec3 { x: spec_lerp(min, max, s.x), y: spec_lerp(min, max, s.y), z: spec_lerp(min, max, s.z) }
    }

    /// `p` where it points to the side of `normal`, else its negation.
    pub open spec fn spec_toward(p: Vec3, normal: Vec3) -> Vec3 {
        if spec_dot(p, normal).raw > 0 {
            p
        } else {
            p.spec_neg()
        }
    }

    /// The vector with the given components.
    pub fn new(x: Scalar, y: Scalar, z: Scalar) -> (v: Vec3)
        ensures
            v == (Vec3 { x, y, z }),
    {
        Vec3 { x, y, z }
    }

    /// The squared length.
    #[verifier::when_used_as_spec(spec_length_squared)]
    pub fn length_squared(&self) -> (r: Scalar)
        ensures
            r == self.spec_length_squared(),
    {
        dot(*self, *self)
    }

    /// The length.
    #[verifier::when_used_as_spec(spec_length)]
    pub fn length(&self) -> (r: Scalar)
        ensures
            r == self.spec_length(),
    {
        let mx: u128 = magnitude_of(self.x.raw);
        let my: u128 = magnitude_of(self.y.raw);
        let mz: u128 = magnitude_of(self.z.raw);
        proof {
            lemma_square_bound(mx as int);
            lemma_square_bound(my as int);
            lemma_square_bound(mz as int);
            lemma_product_sign(self.x.raw as int, self.x.raw as int);
            lemma_product_sign(self.y.raw as int, self.y.raw as int);
            lemma_product_sign(self.z.raw as int, self.z.raw as int);
        }
        let root: u128 = integer_sqrt(mx * mx + my * my + mz * mz);
        from_magnitude(false, root)
    }

    /// The vector divided by its length: a vector of the same direction
    /// whose length lies within four steps of the grid below one, however
    /// short or long the vector is. The zero vector stays zero.
    pub fn unit_vector(&self) -> (r: Vec3)
        ensures
            r == spec_unit_vector(*self),
            in_unit_box(r),
            self.spec_max_magnitude() > 0 ==> ONE_RAW - 4 <= r.spec_length().raw <= ONE_RAW,
    {
        let (f, len) = self.fine_length();
        proof {
            lemma_unit_vector_in_box(*self);
            if self.spec_max_magnitude() > 0 {
                lemma_unit_vector_length(*self);
            }
        }
        Vec3 {
            x: unit_component(self.x.raw, f, len),
            y: unit_component(self.y.raw, f, len),
            z: unit_component(self.z.raw, f, len),
        }
    }

    /// The scale by which the vector is scaled up before it is normalised,
    /// and the length of the scaled vector.
    pub fn fine_length(&self) -> (parts: (u128, u128))
        ensures
            parts.0 == self.spec_fine_scale(),
            parts.1 == self.spec_fine_length(),
            1 <= parts.0 <= 0x8000_0000_0000_0000,
            parts.1 < 0x1_0000_0000_0000_0000,
            magnitude(self.x.raw as int) * parts.0 <= 0x8000_0000_0000_0000,
            magnitude(self.y.raw as int) * parts.0 <= 0x8000_0000_0000_0000,
            magnitude(self.z.raw as int) * parts.0 <= 0x8000_0000_0000_0000,
            magnitude(self.x.raw as int) * parts.0 <= parts.1,
            magnitude(self.y.raw as int) * parts.0 <= parts.1,
            magnitude(self.z.raw as int) * parts.0 <= parts.1,
            parts.1 == 0 <==> self.spec_max_magnitude() == 0,
    {
        let mx: u128 = magnitude_of(self.x.raw);
        let my: u128 = magnitude_of(self.y.raw);
        let mz: u128 = magnitude_of(self.z.raw);
        let m: u128 = if mx >= my && mx >= mz {
            mx
        } else if my >= mz {
            my
        } else {
            mz
        };
        let f: u128 = fine_scale(m);
        proof {
            lemma_scaled_bound(mx as int, m as int, f as int);
            lemma_scaled_bound(my as int, m as int, f as int);
            lemma_scaled_bound(mz as int, m as int, f as int);
            if m > 0 {
                lemma_scaled_bound(1, m as int, f as int);
            }
        }
        let wx: u128 = mx * f;
        let wy: u128 = my * f;
        let wz: u128 = mz * f;
        proof {
            lemma_square_bound(wx as int);
            lemma_square_bound(wy as int);
            lemma_square_bound(wz as int);
            lemma_scaled_square(self.x.raw as int, f as int);
            lemma_scaled_square(self.y.raw as int, f as int);
            lemma_scaled_square(self.z.raw as int, f as int);
        }
        let len: u128 = integer_sqrt(wx * wx + wy * wy + wz * wz);
        proof {
            let sum = (wx * wx + wy * wy + wz * wz) as int;
            lemma_floor_sqrt(sum);
            lemma_root_covers(wx as int, sum, len as int);
            lemma_root_covers(wy as int, sum, len as int);
            lemma_root_covers(wz as int, sum, len as int);
            if m > 0 {
                assert(1 <= sum) by (nonlinear_arith)
                    requires
                        sum == wx * wx + wy * wy + wz * wz,
                        wx >= 1 || wy >= 1 || wz >= 1,
                        0 <= wx,
                        0 <= wy,
                        0 <= wz,
                ;
                assert(len != 0);
            } else {
                assert(sum == 0) by (nonlinear_arith)
                    requires
                        sum == wx * wx + wy * wy + wz * wz,
                        wx == 0,
                        wy == 0,
                        wz == 0,
                ;
            }
        }
        (f, len)
    }

    /// The parameter of a ray along this vector at the distance `distance`
    /// from its origin.
    pub fn parameter_at(&self, distance: Scalar) -> (t: Scalar)
        ensures
            t == self.spec_parameter_at(distance),
    {
        let (f, len) = self.fine_length();
        if len == 0 {
            return Scalar { raw: 0 };
        }
        let tm: u128 = magnitude_of(distance.raw);
        proof {
            assert(tm * f <= 0x8000_0000_0000_0000 * 0x8000_0000_0000_0000) by (nonlinear_arith)
                requires
                    0 <= tm <= 0x8000_0000_0000_0000,
                    0 <= f <= 0x8000_0000_0000_0000,
            ;
            lemma_product_sign(distance.raw as int, f as int);
            lemma_product_sign(distance.raw * f, ONE_RAW as int);
        }
        let tf: u128 = tm * f;
        if tf >= 0x8000_0000_0000_0000_0000_0000 {
            proof {
                let top = 0x8000_0000_0000_0000int;
                assert(top * len <= tf * ONE_RAW) by (nonlinear_arith)
                    requires
                        0 <= len < 0x1_0000_0000_0000_0000,
                        tf >= 0x8000_0000_0000_0000_0000_0000,
                        ONE_RAW == 0x1_0000_0000,
                        top == 0x8000_0000_0000_0000,
                ;
                vstd::arithmetic::div_mod::lemma_div_is_ordered(
                    top * len,
                    tf * ONE_RAW,
                    len as int,
                );
                vstd::arithmetic::div_mod::lemma_div_multiples_vanish(top, len as int);
                assert(top * len == len * top) by (nonlinear_arith);
            }
            return from_magnitude(distance.raw < 0, 0x8000_0000_0000_0000);
        }
        assert(tf * ONE_RAW < 0x8000_0000_0000_0000_0000_0000 * 0x1_0000_0000) by (nonlinear_arith)
            requires
                0 <= tf < 0x8000_0000_0000_0000_0000_0000,
                ONE_RAW == 0x1_0000_0000,
        ;
        let q: u128 = (tf * (ONE_RAW as u128)) / len;
        from_magnitude(distance.raw < 0, q)
    }

    /// A random vector of the unit cube.
    pub fn random() -> (r: Vec3)
        ensures
            in_unit_cube(r),
    {
        Vec3::new(random(), random(), random())
    }

    /// The point of the span from `min` to `max` at the fractions `s`.
    pub fn lerp(min: Scalar, max: Scalar, s: Vec3) -> (r: Vec3)
        ensures
            r == Vec3::spec_lerp(min, max, s),
    {
        Vec3 { x: lerp(min, max, s.x), y: lerp(min, max, s.y), z: lerp(min, max, s.z) }
    }

    /// A random vector whose components lie in the span from `min` to `max`:
    /// the point at random fractions of the unit cube.
    pub fn random_range(min: Scalar, max: Scalar) -> (r: Vec3)
        ensures
            exists|s: Vec3| #[trigger] in_unit_cube(s) && r == Vec3::spec_lerp(min, max, s),
    {
        let s = Vec3::random();
        Vec3::lerp(min, max, s)
    }

    /// A random point strictly inside the unit ball, by rejection: points of
    /// the cube around the ball are drawn, one for each random vector of the
    /// unit cube, until one falls inside, and that one is returned. After
    /// `MAX_ATTEMPTS` rejections in a row the centre is returned.
    pub fn random_in_unit_sphere() -> (p: Vec3)
        ensures
            in_unit_ball(p),
            exists|samples: Seq<Vec3>| #[trigger] is_ball_run(samples, p),
    {
        let zero = Scalar { raw: 0 };
        let mut samples: Ghost<Seq<Vec3>> = Ghost(Seq::empty());
        let mut attempt: u32 = 0;
        while attempt < MAX_ATTEMPTS
            invariant
                attempt <= MAX_ATTEMPTS,
                samples@.len() == attempt,
                forall|i: int| 0 <= i < samples@.len() ==> in_unit_cube(#[trigger] samples@[i]),
                forall|i: int|
                    0 <= i < samples@.len() ==> !in_unit_ball(
                        spec_ball_candidate(#[trigger] samples@[i]),
                    ),
            decreases MAX_ATTEMPTS - attempt,
        {
            let s = Vec3::random();
            let p = Vec3::ball_candidate(s);
            proof {
                samples@ = samples@.push(s);
            }
            if p.lies_in_unit_ball() {
                assert(is_ball_run(samples@, p));
                return p;
            }
            attempt = attempt + 1;
        }
        let centre = Vec3::new(zero, zero, zero);
        assert(is_ball_run(samples@, centre));
        centre
    }

    /// A random point strictly inside the unit disk of the plane `z = 0`, by
    /// rejection: points of the square around the disk are drawn, one for
    /// each pair of random fractions, until one falls inside, and that one
    /// is returned. After `MAX_ATTEMPTS` rejections in a row the centre is
    /// returned.
    pub fn random_in_unit_disk() -> (p: Vec3)
        ensures
            in_unit_disk(p),
            exists|samples: Seq<Vec3>| #[trigger] is_disk_run(samples, p),
    {
        let zero = Scalar { raw: 0 };
        let mut samples: Ghost<Seq<Vec3>> = Ghost(Seq::empty());
        let mut attempt: u32 = 0;
        while attempt < MAX_ATTEMPTS
            invariant
                attempt <= MAX_ATTEMPTS,
                samples@.len() == attempt,
                forall|i: int| 0 <= i < samples@.len() ==> in_unit_cube(#[trigger] samples@[i]),
                forall|i: int|
                    0 <= i < samples@.len() ==> !in_unit_ball(
                        spec_disk_candidate(#[trigger] samples@[i]),
                    ),
            decreases MAX_ATTEMPTS - attempt,
        {
            let sx = random();
            let sy = random();
            let s = Vec3::new(sx, sy, Scalar { raw: 0 });
            let p = Vec3::disk_candidate(s);
            proof {
                samples@ = samples@.push(s);
            }
            if p.lies_in_unit_ball() {
                assert(is_disk_run(samples@, p));
                return p;
            }
            attempt = attempt + 1;
        }
        let centre = Vec3::new(zero, zero, zero);
        assert(is_disk_run(samples@, centre));
        centre
    }

    /// The point of the cube around the unit ball at the fractions `s`.
    pub fn ball_candidate(s: Vec3) -> (p: Vec3)
        ensures
            p == spec_ball_candidate(s),
    {
        Vec3::lerp(Scalar::from_int(-1), Scalar::from_int(1), s)
    }

    /// The point of the square around the unit disk at the fractions `s.x`
    /// and `s.y`.
    pub fn disk_candidate(s: Vec3) -> (p: Vec3)
        ensures
            p == spec_disk_candidate(s),
    {
        Vec3::new(
            lerp(Scalar::from_int(-1), Scalar::from_int(1), s.x),
            lerp(Scalar::from_int(-1), Scalar::from_int(1), s.y),
            Scalar { raw: 0 },
        )
    }

    /// Whether the vector lies strictly inside the unit ball.
    pub fn lies_in_unit_ball(&self) -> (inside: bool)
        ensures
            inside == in_unit_ball(*self),
    {
        self.length_squared().raw < ONE_RAW
    }

    /// A random direction: a point of the unit ball, normalised.
    pub fn random_unit_vector() -> (r: Vec3)
        ensures
            exists|p: Vec3| #[trigger] in_unit_ball(p) && r == spec_unit_vector(p),
    {
        unit_vector(Vec3::random_in_unit_sphere())
    }

    /// A random point of the unit ball on the side of `normal`.
    pub fn random_in_hemisphere(normal: &Vec3) -> (r: Vec3)
        ensures
            exists|p: Vec3| #[trigger] in_unit_ball(p) && r == Vec3::spec_toward(p, *normal),
    {
        let in_unit_sphere = Vec3::random_in_unit_sphere();
        Vec3::toward(in_unit_sphere, *normal)
    }

    /// `p` where it points to the side of `normal`, else its negation.
    pub fn toward(p: Vec3, normal: Vec3) -> (r: Vec3)
        ensures
            r == Vec3::spec_toward(p, normal),
    {
        if dot(p, normal).raw > 0 {
            return p;
        }
        p.neg()
    }

    /// Whether every component is below `1e-8` in magnitude.
    #[verifier::when_used_as_spec(spec_near_zero)]
    pub fn near_zero(&self) -> (r: bool)
        ensures
            r == self.spec_near_zero(),
    {
        self.x.abs().raw < NEAR_ZERO_RAW && self.y.abs().raw < NEAR_ZERO_RAW && self.z.abs().raw
            < NEAR_ZERO_RAW
    }
}

/// The direction of `uv` after it passes a surface with normal `n`.
#[verifier::when_used_as_spec(spec_refract)]
pub fn refract(uv: Vec3, n: Vec3, etai_over_etat: Scalar) -> (r: Vec3)
    ensures
        r == spec_refract(uv, n, etai_over_etat),
{
    let cos_theta = dot(uv.neg(), n).min(Scalar::from_int(1));
    let r_out_perp = etai_over_etat * (uv + cos_theta * n);
    let r_out_parallel = (Scalar::from_int(1) - r_out_perp.length_squared()).abs().sqrt().neg() * n;
    r_out_perp + r_out_parallel
}

/// The mirror image of `v` about the plane normal to `n`. For `v` and `n`
/// with components between minus one and one, the component along `n` is
/// turned around and a second reflection gives `v` back, both within a
/// tolerance that is counted in steps of the grid, not in parts of the
/// length of `v`.
#[verifier::when_used_as_spec(spec_reflect)]
pub fn reflect(v: Vec3, n: Vec3) -> (r: Vec3)
    ensures
        r == spec_reflect(v, n),
        in_unit_box(v) && in_unit_box(n) ==> magnitude(spec_dot(r, n).raw + spec_dot(v, n).raw)
            <= reflect_tolerance(n),
        in_unit_box(v) && in_unit_box(n) ==> within_steps(
            spec_reflect(r, n),
            v,
            2 * reflect_tolerance(n) + 1,
        ),
{
    proof {
        if in_unit_box(v) && in_unit_box(n) {
            lemma_reflect_turns_normal_component(v, n);
            lemma_reflect_twice(v, n);
        }
    }
    v - Scalar::from_int(2) * dot(v, n) * n
}

/// `v` divided by its length: a vector of the same direction whose length
/// lies within four steps of the grid below one. The zero vector stays
/// zero.
#[verifier::when_used_as_spec(spec_unit_vector)]
pub fn unit_vector(v: Vec3) -> (r: Vec3)
    ensures
        r == spec_unit_vector(v),
        in_unit_box(r),
        v.spec_max_magnitude() > 0 ==> ONE_RAW - 4 <= r.spec_length().raw <= ONE_RAW,
{
    v.unit_vector()
}

/// The power of two by which a vector is scaled up before it is
/// normalised, for the largest magnitude `m` of its raw components.
pub fn fine_scale(m: u128) -> (f: u128)
    requires
        m <= 0x8000_0000_0000_0000,
    ensures
        f == spec_boost(m as int),
        1 <= f,
        m * f <= 0x8000_0000_0000_0000,
        m > 0 ==> FINE_RAW <= m * f,
{
    if m == 0 {
        return 1;
    }
    let mut f: u128 = 1;
    assert(m * 1 == m) by (nonlinear_arith);
    while m * f < FINE_RAW
        invariant
            0 < m <= 0x8000_0000_0000_0000,
            1 <= f,
            m * f <= 0x8000_0000_0000_0000,
            spec_boost(m as int) == f * spec_boost(m * f),
        decreases
            (if m * f < FINE_RAW {
                FINE_RAW - m * f
            } else {
                0
            }),
    {
        proof {
            assert(m * (f * 2) == 2 * (m * f)) by (nonlinear_arith);
            assert(f * (2 * spec_boost(2 * (m * f))) == (f * 2) * spec_boost(2 * (m * f)))
                by (nonlinear_arith);
            assert(f <= m * f) by (nonlinear_arith)
                requires
                    1 <= m,
                    1 <= f,
            ;
        }
        f = f * 2;
    }
    assert(f * 1 == f) by (nonlinear_arith);
    f
}

/// A component of the normalised vector.
fn unit_component(c: i64, f: u128, len: u128) -> (r: Scalar)
    requires
        1 <= f,
        magnitude(c as int) * f <= 0x8000_0000_0000_0000,
        len < 0x1_0000_0000_0000_0000,
        magnitude(c as int) * f <= len,
    ensures
        r.raw == spec_unit_component(c as int, f as int, len as int),
{
    if len == 0 {
        return Scalar { raw: 0 };
    }
    let w: u128 = magnitude_of(c) * f;
    proof {
        assert(w * ONE_RAW <= len * ONE_RAW && w * ONE_RAW <= 0x8000_0000_0000_0000
            * 0x1_0000_0000) by (nonlinear_arith)
            requires
                0 <= w <= len,
                w <= 0x8000_0000_0000_0000,
                ONE_RAW == 0x1_0000_0000,
        ;
        vstd::arithmetic::div_mod::lemma_div_is_ordered(
            w * ONE_RAW,
            len * ONE_RAW,
            len as int,
        );
        vstd::arithmetic::div_mod::lemma_div_multiples_vanish(ONE_RAW as int, len as int);
        assert(len * ONE_RAW == ONE_RAW * len) by (nonlinear_arith);
        lemma_product_sign(c as int, f as int);
        lemma_product_sign(c * f, ONE_RAW as int);
    }
    let q: u128 = (w * (ONE_RAW as u128)) / len;
    from_magnitude(c < 0, q)
}

/// The dot product.
#[verifier::when_used_as_spec(spec_dot)]
pub fn dot(v1: Vec3, v2: Vec3) -> (r: Scalar)
    ensures
        r == spec_dot(v1, v2),
{
    v1.x * v2.x + v1.y * v2.y + v1.z * v2.z
}

/// The cross product.
#[verifier::when_used_as_spec(spec_cross)]
pub fn cross(u: Vec3, v: Vec3) -> (r: Vec3)
    ensures
        r == spec_cross(u, v),
{
    Vec3 {
        x: u.y * v.z - u.z * v.y,
        y: u.z * v.x - u.x * v.z,
        z: u.x * v.y - u.y * v.x,
    }
}

impl Default for Vec3 {
    /// The zero vector.
    fn default() -> (v: Vec3)
        ensures
            v == Vec3::spec_zero(),
    {
        Vec3 { x: Scalar { raw: 0 }, y: Scalar { raw: 0 }, z: Scalar { raw: 0 } }
    }
}

impl Neg for Vec3 {
    type Output = Vec3;

    fn neg(self) -> (r: Vec3)
        ensures
            r == self.spec_neg(),
    {
        Vec3 { x: self.x.neg(), y: self.y.neg(), z: self.z.neg() }
    }
}

impl vstd::std_specs::ops::NegSpecImpl for Vec3 {
    open spec fn obeys_neg_spec() -> bool {
        true
    }

    open spec fn neg_req(self) -> bool {
        true
    }

    open spec fn neg_spec(self) -> Vec3 {
        self.spec_neg()
    }
}

impl Mul<Vec3> for Vec3 {
    type Output = Vec3;

    fn mul(self, rhs: Vec3) -> (r: Vec3)
        ensures
            r == self.spec_mul(rhs),
    {
        Vec3 { x: self.x * rhs.x, y: self.y * rhs.y, z: self.z * rhs.z }
    }
}

impl vstd::std_specs::ops::MulSpecImpl<Vec3> for Vec3 {
    open spec fn obeys_mul_spec() -> bool {
        true
    }

    open spec fn mul_req(self, rhs: Vec3) -> bool {
        true
    }

    open spec fn mul_spec(self, rhs: Vec3) -> Vec3 {
        self.spec_mul(rhs)
    }
}

impl Div<Vec3> for Vec3 {
    type Output = Vec3;

    fn div(self, rhs: Vec3) -> (r: Vec3)
        ensures
            r == self.spec_div(rhs),
    {
        Vec3 { x: self.x / rhs.x, y: self.y / rhs.y, z: self.z / rhs.z }
    }
}

impl vstd::std_specs::ops::DivSpecImpl<Vec3> for Vec3 {
    open spec fn obeys_div_spec() -> bool {
        true
    }

    open spec fn div_req(self, rhs: Vec3) -> bool {
        true
    }

    open spec fn div_spec(self, rhs: Vec3) -> Vec3 {
        self.spec_div(rhs)
    }
}

impl Sub<Vec3> for Vec3 {
    type Output = Vec3;

    fn sub(self, rhs: Vec3) -> (r: Vec3)
        ensures
            r == self.spec_sub(rhs),
    {
        Vec3 { x: self.x - rhs.x, y: self.y - rhs.y, z: self.z - rhs.z }
    }
}

impl vstd::std_specs::ops::SubSpecImpl<Vec3> for Vec3 {
    open spec fn obeys_sub_spec() -> bool {
        true
    }

    open spec fn sub_req(self, rhs: Vec3) -> bool {
        true
    }

    open spec fn sub_spec(self, rhs: Vec3) -> Vec3 {
        self.spec_sub(rhs)
    }
}

impl Add<Vec3> for Vec3 {
    type Output = Vec3;

    fn add(self, rhs: Vec3) -> (r: Vec3)
        ensures
            r == self.spec_add(rhs),
    {
        Vec3 { x: self.x + rhs.x, y: self.y + rhs.y, z: self.z + rhs.z }
    }
}

impl vstd::std_specs::ops::AddSpecImpl<Vec3> for Vec3 {
    open spec fn obeys_add_spec() -> bool {
        true
    }

    open spec fn add_req(self, rhs: Vec3) -> bool {
        true
    }

    open spec fn add_spec(self, rhs: Vec3) -> Vec3 {
        self.spec_add(rhs)
    }
}

impl Mul<Scalar> for Vec3 {
    type Output = Vec3;

    fn mul(self, s: Scalar) -> (r: Vec3)
        ensures
            r == self.spec_scale(s),
    {
        Vec3 { x: self.x * s, y: self.y * s, z: self.z * s }
    }
}

impl vstd::std_specs::ops::MulSpecImpl<Scalar> for Vec3 {
    open spec fn obeys_mul_spec() -> bool {
        true
    }

    open spec fn mul_req(self, s: Scalar) -> bool {
        true
    }

    open spec fn mul_spec(self, s: Scalar) -> Vec3 {
        self.spec_scale(s)
    }
}

impl Sub<Scalar> for Vec3 {
    type Output = Vec3;

    fn sub(self, s: Scalar) -> (r: Vec3)
        ensures
            r == self.spec_sub_scalar(s),
    {
        Vec3 { x: self.x - s, y: self.y - s, z: self.z - s }
    }
}

impl vstd::std_specs::ops::SubSpecImpl<Scalar> for Vec3 {
    open spec fn obeys_sub_spec() -> bool {
        true
    }

    open spec fn sub_req(self, s: Scalar) -> bool {
        true
    }

    open spec fn sub_spec(self, s: Scalar) -> Vec3 {
        self.spec_sub_scalar(s)
    }
}

impl Div<Scalar> for Vec3 {
    type Output = Vec3;

    fn div(self, s: Scalar) -> (r: Vec3)
        ensures
            r == self.spec_div_scalar(s),
    {
        Vec3 { x: self.x / s, y: self.y / s, z: self.z / s }
    }
}

impl vstd::std_specs::ops::DivSpecImpl<Scalar> for Vec3 {
    open spec fn obeys_div_spec() -> bool {
        true
    }

    open spec fn div_req(self, s: Scalar) -> bool {
        true
    }

    open spec fn div_spec(self, s: Scalar) -> Vec3 {
        self.spec_div_scalar(s)
    }
}

impl Add<Scalar> for Vec3 {
    type Output = Vec3;

    fn add(self, s: Scalar) -> (r: Vec3)
        ensures
            r == self.spec_add_scalar(s),
    {
        Vec3 { x: self.x + s, y: self.y + s, z: self.z + s }
    }
}

impl vstd::std_specs::ops::AddSpecImpl<Scalar> for Vec3 {
    open spec fn obeys_add_spec() -> bool {
        true
    }

    open spec fn add_req(self, s: Scalar) -> bool {
        true
    }

    open spec fn add_spec(self, s: Scalar) -> Vec3 {
        self.spec_add_scalar(s)
    }
}

impl Sub<Vec3> for Scalar {
    type Output = Vec3;

    fn sub(self, v: Vec3) -> (r: Vec3)
        ensures
            r == v.spec_scalar_sub(self),
    {
        Vec3 { x: self - v.x, y: self - v.y, z: self - v.z }
    }
}

impl vstd::std_specs::ops::SubSpecImpl<Vec3> for Scalar {
    open spec fn obeys_sub_spec() -> bool {
        true
    }

    open spec fn sub_req(self, v: Vec3) -> bool {
        true
    }

    open spec fn sub_spec(self, v: Vec3) -> Vec3 {
        v.spec_scalar_sub(self)
    }
}

impl Div<Vec3> for Scalar {
    type Output = Vec3;

    fn div(self, v: Vec3) -> (r: Vec3)
        ensures
            r == v.spec_scalar_div(self),
    {
        Vec3 { x: self / v.x, y: self / v.y, z: self / v.z }
    }
}

impl vstd::std_specs::ops::DivSpecImpl<Vec3> for Scalar {
    open spec fn obeys_div_spec() -> bool {
        true
    }

    open spec fn div_req(self, v: Vec3) -> bool {
        true
    }

    open spec fn div_spec(self, v: Vec3) -> Vec3 {
        v.spec_scalar_div(self)
    }
}

impl Mul<Vec3> for Scalar {
    type Output = Vec3;

    fn mul(self, v: Vec3) -> (r: Vec3)
        ensures
            r == v.spec_scale(self),
    {
        Vec3 { x: v.x * self, y: v.y * self, z: v.z * self }
    }
}

impl vstd::std_specs::ops::MulSpecImpl<Vec3> for Scalar {
    open spec fn obeys_mul_spec() -> bool {
        true
    }

    open spec fn mul_req(self, v: Vec3) -> bool {
        true
    }

    open spec fn mul_spec(self, v: Vec3) -> Vec3 {
        v.spec_scale(self)
    }
}

impl Add<Vec3> for Scalar {
    type Output = Vec3;

    fn add(self, v: Vec3) -> (r: Vec3)
        ensures
            r == v.spec_add_scalar(self),
    {
        Vec3 { x: self + v.x, y: self + v.y, z: self + v.z }
    }
}

impl vstd::std_specs::ops::AddSpecImpl<Vec3> for Scalar {
    open spec fn obeys_add_spec() -> bool {
        true
    }

    open spec fn add_req(self, v: Vec3) -> bool {
        true
    }

    open spec fn add_spec(self, v: Vec3) -> Vec3 {
        v.spec_add_scalar(self)
    }
}

} // verus!
