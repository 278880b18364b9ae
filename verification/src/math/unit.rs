//! The laws of normalising: a normalised vector has a length within four
//! steps of the grid below one, whatever the length of the vector was.
use crate::math::laws::in_unit_box;
use crate::math::vec3::{spec_boost, spec_unit_vector, Vec3, FINE_RAW};
use crate::scalar::{trunc_quot, Scalar, MAX_RAW};
use crate::scalar::{
    floor_sqrt, is_floor_sqrt, lemma_floor_sqrt, lemma_floor_sqrt_unique, lemma_product_sign,
    magnitude, ONE_RAW,
};
use vstd::prelude::*;

verus! {

/// The scale brings a magnitude that is not zero to `FINE_RAW` or beyond,
/// and no magnitude beyond `2^63`.
pub proof fn lemma_boost(m: int)
    requires
        0 < m <= 0x8000_0000_0000_0000,
    ensures
        1 <= spec_boost(m),
        FINE_RAW <= m * spec_boost(m) <= 0x8000_0000_0000_0000,
    decreases
        (if m < FINE_RAW {
            FINE_RAW - m
        } else {
            0
        }),
{
    if m < FINE_RAW {
        lemma_boost(2 * m);
        assert(m * (2 * spec_boost(2 * m)) == (2 * m) * spec_boost(2 * m)) by (nonlinear_arith);
    } else {
        assert(m * 1 == m) by (nonlinear_arith);
    }
}

/// The normalised magnitudes on raw values: for magnitudes `w1, w2, w3`
/// whose sum of squares has the rounded-down root `len` of at least
/// `FINE_RAW`, the quotients `q = w * 2^32 / len` are at most one, and the
/// sum of their squares lies between `(1 - 4 steps)^2` and `1 + 24 steps^2`.
pub proof fn lemma_unit_raw(w1: int, w2: int, w3: int, len: int)
    requires
        0 <= w1,
        0 <= w2,
        0 <= w3,
        FINE_RAW <= len,
        is_floor_sqrt(len, w1 * w1 + w2 * w2 + w3 * w3),
    ensures
        ({
            let q1 = (w1 * ONE_RAW) / len;
            let q2 = (w2 * ONE_RAW) / len;
            let q3 = (w3 * ONE_RAW) / len;
            let sum = q1 * q1 + q2 * q2 + q3 * q3;
            &&& 0 <= q1 <= ONE_RAW
            &&& 0 <= q2 <= ONE_RAW
            &&& 0 <= q3 <= ONE_RAW
            &&& (ONE_RAW - 4) * (ONE_RAW - 4) <= sum
            &&& sum < (ONE_RAW + 1) * (ONE_RAW + 1)
        }),
{
    let k = ONE_RAW as int;
    let s = w1 * w1 + w2 * w2 + w3 * w3;
    let q1 = (w1 * k) / len;
    let q2 = (w2 * k) / len;
    let q3 = (w3 * k) / len;
    lemma_quotient_square(w1, len, q1);
    lemma_quotient_square(w2, len, q2);
    lemma_quotient_square(w3, len, q3);
    assert(0 <= w1 * w1 && 0 <= w2 * w2 && 0 <= w3 * w3) by (nonlinear_arith);
    crate::math::vec3::lemma_root_covers(w1, s, len);
    crate::math::vec3::lemma_root_covers(w2, s, len);
    crate::math::vec3::lemma_root_covers(w3, s, len);
    lemma_quotient_at_most_one(w1, len, q1);
    lemma_quotient_at_most_one(w2, len, q2);
    lemma_quotient_at_most_one(w3, len, q3);
    let ll = len * len;
    let kk = k * k;
    let sum = q1 * q1 + q2 * q2 + q3 * q3;
    let up = (q1 + 1) * (q1 + 1) + (q2 + 1) * (q2 + 1) + (q3 + 1) * (q3 + 1);
    // From above: sum * len^2 <= k^2 * s < k^2 * (len + 1)^2 < (k^2 + 25) * len^2.
    assert(sum * ll <= kk * s) by (nonlinear_arith)
        requires
            sum == q1 * q1 + q2 * q2 + q3 * q3,
            s == w1 * w1 + w2 * w2 + w3 * w3,
            (q1 * q1) * ll <= kk * (w1 * w1),
            (q2 * q2) * ll <= kk * (w2 * w2),
            (q3 * q3) * ll <= kk * (w3 * w3),
    ;
    assert(kk * s < (kk + 25) * ll) by (nonlinear_arith)
        requires
            s < (len + 1) * (len + 1),
            ll == len * len,
            kk == 0x1_0000_0000_0000_0000,
            0x2000_0000_0000_0000 <= len,
    ;
    assert(sum < kk + 25) by (nonlinear_arith)
        requires
            sum * ll <= kk * s,
            kk * s < (kk + 25) * ll,
            0 < ll,
    ;
    // From below: up * len^2 > k^2 * s >= k^2 * len^2.
    assert(up * ll > kk * s) by (nonlinear_arith)
        requires
            up == (q1 + 1) * (q1 + 1) + (q2 + 1) * (q2 + 1) + (q3 + 1) * (q3 + 1),
            s == w1 * w1 + w2 * w2 + w3 * w3,
            ((q1 + 1) * (q1 + 1)) * ll > kk * (w1 * w1),
            ((q2 + 1) * (q2 + 1)) * ll > kk * (w2 * w2),
            ((q3 + 1) * (q3 + 1)) * ll > kk * (w3 * w3),
    ;
    assert(up > kk) by (nonlinear_arith)
        requires
            up * ll > kk * s,
            ll <= s,
            0 < ll,
            0 < kk,
    ;
    assert(up == sum + 2 * (q1 + q2 + q3) + 3) by (nonlinear_arith)
        requires
            up == (q1 + 1) * (q1 + 1) + (q2 + 1) * (q2 + 1) + (q3 + 1) * (q3 + 1),
            sum == q1 * q1 + q2 * q2 + q3 * q3,
    ;
    assert(kk == k * k && (k - 4) * (k - 4) == kk - 8 * k + 16 && (k + 1) * (k + 1) == kk + 2 * k
        + 1) by (nonlinear_arith)
        requires
            k == 0x1_0000_0000,
            kk == k * k,
    ;
}

/// The square of a rounded-down quotient `q = w * 2^32 / len`, and of the
/// next whole number, against the square of the exact quotient.
proof fn lemma_quotient_square(w: int, len: int, q: int)
    requires
        0 <= w,
        0 < len,
        q == (w * ONE_RAW) / len,
    ensures
        0 <= q,
        (q * q) * (len * len) <= (ONE_RAW * ONE_RAW) * (w * w),
        ((q + 1) * (q + 1)) * (len * len) > (ONE_RAW * ONE_RAW) * (w * w),
{
    let k = ONE_RAW as int;
    let n = w * k;
    assert(0 <= n) by (nonlinear_arith)
        requires
            0 <= w,
            n == w * k,
            0 < k,
    ;
    vstd::arithmetic::div_mod::lemma_fundamental_div_mod(n, len);
    vstd::arithmetic::div_mod::lemma_mod_pos_bound(n, len);
    vstd::arithmetic::div_mod::lemma_div_is_ordered(0, n, len);
    assert(q * len <= n < (q + 1) * len) by (nonlinear_arith)
        requires
            n == len * q + n % len,
            0 <= n % len < len,
    ;
    assert((q * q) * (len * len) <= n * n) by (nonlinear_arith)
        requires
            0 <= q * len <= n,
    ;
    assert(((q + 1) * (q + 1)) * (len * len) > n * n) by (nonlinear_arith)
        requires
            0 <= n < (q + 1) * len,
    ;
    assert(n * n == (k * k) * (w * w)) by (nonlinear_arith)
        requires
            n == w * k,
    ;
}

/// A magnitude within the length gives a quotient of at most one.
proof fn lemma_quotient_at_most_one(w: int, len: int, q: int)
    requires
        0 <= w <= len,
        0 < len,
        q == (w * ONE_RAW) / len,
    ensures
        q <= ONE_RAW,
{
    let k = ONE_RAW as int;
    assert(w * k <= len * k) by (nonlinear_arith)
        requires
            0 <= w <= len,
            0 < k,
    ;
    vstd::arithmetic::div_mod::lemma_div_is_ordered(w * k, len * k, len);
    vstd::arithmetic::div_mod::lemma_div_multiples_vanish(k, len);
    assert(len * k == k * len) by (nonlinear_arith);
}

/// What the definitions give for a vector that is not zero: the scaled
/// magnitudes, their length, and the components of the normalised vector as
/// quotients.
pub proof fn lemma_unit_vector_parts(v: Vec3)
    requires
        v.spec_max_magnitude() > 0,
    ensures
        ({
            let f = v.spec_fine_scale();
            let len = v.spec_fine_length();
            let w1 = magnitude(v.x.raw as int) * f;
            let w2 = magnitude(v.y.raw as int) * f;
            let w3 = magnitude(v.z.raw as int) * f;
            let u = spec_unit_vector(v);
            &&& 0 <= w1 && 0 <= w2 && 0 <= w3
            &&& 1 <= f
            &&& FINE_RAW <= len
            &&& is_floor_sqrt(len, w1 * w1 + w2 * w2 + w3 * w3)
            &&& magnitude(u.x.raw as int) == (w1 * ONE_RAW) / len
            &&& magnitude(u.y.raw as int) == (w2 * ONE_RAW) / len
            &&& magnitude(u.z.raw as int) == (w3 * ONE_RAW) / len
            &&& u.x.raw == crate::math::vec3::spec_unit_component(v.x.raw as int, f, len)
            &&& u.y.raw == crate::math::vec3::spec_unit_component(v.y.raw as int, f, len)
            &&& u.z.raw == crate::math::vec3::spec_unit_component(v.z.raw as int, f, len)
        }),
{
    let k = ONE_RAW as int;
    let m = v.spec_max_magnitude();
    let f = v.spec_fine_scale();
    let len = v.spec_fine_length();
    lemma_boost(m);
    let (x, y, z) = (v.x.raw as int, v.y.raw as int, v.z.raw as int);
    let w1 = magnitude(x) * f;
    let w2 = magnitude(y) * f;
    let w3 = magnitude(z) * f;
    assert(0 <= w1 <= m * f && 0 <= w2 <= m * f && 0 <= w3 <= m * f && (w1 == m * f || w2 == m * f
        || w3 == m * f)) by (nonlinear_arith)
        requires
            w1 == magnitude(x) * f,
            w2 == magnitude(y) * f,
            w3 == magnitude(z) * f,
            0 <= magnitude(x) <= m,
            0 <= magnitude(y) <= m,
            0 <= magnitude(z) <= m,
            magnitude(x) == m || magnitude(y) == m || magnitude(z) == m,
            1 <= f,
    ;
    assert((x * f) * (x * f) == w1 * w1 && (y * f) * (y * f) == w2 * w2 && (z * f) * (z * f) == w3
        * w3) by (nonlinear_arith)
        requires
            w1 == magnitude(x) * f,
            w2 == magnitude(y) * f,
            w3 == magnitude(z) * f,
    ;
    let s = w1 * w1 + w2 * w2 + w3 * w3;
    assert(0 <= w1 * w1 && 0 <= w2 * w2 && 0 <= w3 * w3) by (nonlinear_arith);
    lemma_floor_sqrt(s);
    assert((m * f) * (m * f) <= s) by (nonlinear_arith)
        requires
            s == w1 * w1 + w2 * w2 + w3 * w3,
            w1 == m * f || w2 == m * f || w3 == m * f,
            0 <= w1 * w1,
            0 <= w2 * w2,
            0 <= w3 * w3,
    ;
    assert(FINE_RAW <= len) by (nonlinear_arith)
        requires
            0 <= len,
            s < (len + 1) * (len + 1),
            (m * f) * (m * f) <= s,
            0x2000_0000_0000_0000 <= m * f,
            FINE_RAW == 0x2000_0000_0000_0000,
    ;
    lemma_component_parts(x, f, len);
    lemma_component_parts(y, f, len);
    lemma_component_parts(z, f, len);
    crate::math::vec3::lemma_root_covers(w1, s, len);
    crate::math::vec3::lemma_root_covers(w2, s, len);
    crate::math::vec3::lemma_root_covers(w3, s, len);
    lemma_quotient_at_most_one(w1, len, (w1 * k) / len);
    lemma_quotient_at_most_one(w2, len, (w2 * k) / len);
    lemma_quotient_at_most_one(w3, len, (w3 * k) / len);
    lemma_quotient_square(w1, len, (w1 * k) / len);
    lemma_quotient_square(w2, len, (w2 * k) / len);
    lemma_quotient_square(w3, len, (w3 * k) / len);
}

/// The magnitude of a component of the normalised vector is the quotient of
/// the scaled magnitude by the length.
proof fn lemma_component_parts(c: int, f: int, len: int)
    requires
        1 <= f,
        0 < len,
    ensures
        magnitude(crate::math::vec3::spec_unit_component(c, f, len)) == (magnitude(c) * f * ONE_RAW)
            / len,
{
    let k = ONE_RAW as int;
    lemma_product_sign(c, f);
    lemma_product_sign(c * f, k);
    vstd::arithmetic::div_mod::lemma_div_is_ordered(0, magnitude(c * f * k), len);
}

/// The components of a normalised vector lie between minus one and one.
pub proof fn lemma_unit_vector_in_box(v: Vec3)
    ensures
        in_unit_box(spec_unit_vector(v)),
{
    if v.spec_max_magnitude() > 0 {
        lemma_unit_vector_parts(v);
        let f = v.spec_fine_scale();
        let len = v.spec_fine_length();
        lemma_unit_raw(
            magnitude(v.x.raw as int) * f,
            magnitude(v.y.raw as int) * f,
            magnitude(v.z.raw as int) * f,
            len,
        );
    } else {
        let f = v.spec_fine_scale();
        assert(v.x.raw * f * ONE_RAW == 0 && v.y.raw * f * ONE_RAW == 0 && v.z.raw * f * ONE_RAW
            == 0) by (nonlinear_arith)
            requires
                v.x.raw == 0,
                v.y.raw == 0,
                v.z.raw == 0,
        ;
    }
}

/// A normalised vector has unit length, within the rounding: for every
/// vector that is not zero, the length of the normalised vector lies within
/// four steps of the grid below one.
pub proof fn lemma_unit_vector_length(v: Vec3)
    requires
        v.spec_max_magnitude() > 0,
    ensures
        ONE_RAW - 4 <= spec_unit_vector(v).spec_length().raw <= ONE_RAW,
        (ONE_RAW - 4) * (ONE_RAW - 4) <= spec_unit_vector(v).spec_raw_norm_squared() < (ONE_RAW + 1)
            * (ONE_RAW + 1),
{
    lemma_unit_vector_parts(v);
    let f = v.spec_fine_scale();
    let len = v.spec_fine_length();
    lemma_unit_raw(
        magnitude(v.x.raw as int) * f,
        magnitude(v.y.raw as int) * f,
        magnitude(v.z.raw as int) * f,
        len,
    );
    let u = spec_unit_vector(v);
    let (q1, q2, q3) = (
        magnitude(u.x.raw as int),
        magnitude(u.y.raw as int),
        magnitude(u.z.raw as int),
    );
    let sum = u.spec_raw_norm_squared();
    assert(sum == q1 * q1 + q2 * q2 + q3 * q3) by (nonlinear_arith)
        requires
            sum == u.x.raw * u.x.raw + u.y.raw * u.y.raw + u.z.raw * u.z.raw,
            q1 == magnitude(u.x.raw as int),
            q2 == magnitude(u.y.raw as int),
            q3 == magnitude(u.z.raw as int),
    ;
    lemma_floor_sqrt(sum);
    let root = floor_sqrt(sum);
    assert(ONE_RAW - 4 <= root <= ONE_RAW) by (nonlinear_arith)
        requires
            0 <= root,
            root * root <= sum,
            sum < (root + 1) * (root + 1),
            (ONE_RAW - 4) * (ONE_RAW - 4) <= sum,
            sum < (ONE_RAW + 1) * (ONE_RAW + 1),
            ONE_RAW == 0x1_0000_0000,
    ;
}

/// The parameter grows with the distance.
pub proof fn lemma_parameter_monotone(v: Vec3, near: Scalar, far: Scalar)
    requires
        near.raw <= far.raw,
    ensures
        v.spec_parameter_at(near).raw <= v.spec_parameter_at(far).raw,
{
    let k = ONE_RAW as int;
    let f = v.spec_fine_scale();
    let len = v.spec_fine_length();
    let m = v.spec_max_magnitude();
    if m > 0 {
        lemma_unit_vector_parts(v);
        lemma_boost(m);
        let n1 = near.raw * f * k;
        let n2 = far.raw * f * k;
        assert(n1 <= n2 && (near.raw >= 0 ==> n1 >= 0) && (near.raw < 0 ==> n1 < 0) && (far.raw
            >= 0 ==> n2 >= 0) && (far.raw < 0 ==> n2 < 0)) by (nonlinear_arith)
            requires
                n1 == near.raw * f * k,
                n2 == far.raw * f * k,
                near.raw <= far.raw,
                1 <= f,
                1 <= k,
        ;
        if near.raw >= 0 {
            vstd::arithmetic::div_mod::lemma_div_is_ordered(n1, n2, len);
        } else if far.raw < 0 {
            vstd::arithmetic::div_mod::lemma_div_is_ordered(-n2, -n1, len);
        } else {
            assert(trunc_quot(n1, len) <= 0) by {
                vstd::arithmetic::div_mod::lemma_div_is_ordered(0, -n1, len);
            }
            assert(trunc_quot(n2, len) >= 0) by {
                vstd::arithmetic::div_mod::lemma_div_is_ordered(0, n2, len);
            }
        }
    } else {
        assert((v.x.raw * f) * (v.x.raw * f) == 0 && (v.y.raw * f) * (v.y.raw * f) == 0 && (v.z.raw
            * f) * (v.z.raw * f) == 0) by (nonlinear_arith)
            requires
                v.x.raw == 0,
                v.y.raw == 0,
                v.z.raw == 0,
        ;
        assert(len == 0);
    }
}

/// The scaled length of the unit vector along the z axis is its scaled
/// component.
proof fn lemma_unit_z_parts()
    ensures
        ({
            let f = Vec3::spec_unit_z().spec_fine_scale();
            &&& 1 <= f
            &&& Vec3::spec_unit_z().spec_fine_length() == ONE_RAW * f
        }),
{
    let v = Vec3::spec_unit_z();
    let k = ONE_RAW as int;
    let f = v.spec_fine_scale();
    assert(v.spec_max_magnitude() == k);
    lemma_boost(k);
    let w = k * f;
    assert((0 * f) * (0 * f) == 0) by (nonlinear_arith);
    let sum = (0 * f) * (0 * f) + (0 * f) * (0 * f) + w * w;
    assert(is_floor_sqrt(w, sum)) by (nonlinear_arith)
        requires
            sum == w * w,
            0 <= w,
    ;
    lemma_floor_sqrt(sum);
    lemma_floor_sqrt_unique(w, floor_sqrt(sum), sum);
}

/// The unit vector along the z axis is its own normalised vector.
pub proof fn lemma_unit_z()
    ensures
        spec_unit_vector(Vec3::spec_unit_z()) == Vec3::spec_unit_z(),
{
    let v = Vec3::spec_unit_z();
    let k = ONE_RAW as int;
    let f = v.spec_fine_scale();
    lemma_unit_z_parts();
    assert(0 * f * k == 0) by (nonlinear_arith);
    assert(k * f * k == (k * f) * k && 0 <= k * f * k) by (nonlinear_arith)
        requires
            1 <= f,
            1 <= k,
    ;
    vstd::arithmetic::div_mod::lemma_div_multiples_vanish(k, k * f);
}

/// Along the unit vector of the z axis the parameter is the distance.
pub proof fn lemma_parameter_along_unit_z(distance: Scalar)
    requires
        -MAX_RAW <= distance.raw,
    ensures
        Vec3::spec_unit_z().spec_parameter_at(distance) == distance,
{
    let v = Vec3::spec_unit_z();
    let k = ONE_RAW as int;
    let f = v.spec_fine_scale();
    lemma_unit_z_parts();
    let d = distance.raw as int;
    let n = d * f * k;
    assert(n == (k * f) * d && magnitude(n) == (k * f) * magnitude(d) && (n < 0 <==> d < 0))
        by (nonlinear_arith)
        requires
            n == d * f * k,
            1 <= f,
            1 <= k,
    ;
    vstd::arithmetic::div_mod::lemma_div_multiples_vanish(magnitude(d), k * f);
}

} // verus!
