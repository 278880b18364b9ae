//! How near to the surface of a sphere a ray is found to meet it: the laws
//! of the intersection, up to the rounding of the grid.
use crate::hittable::{HitRecord, Hittable};
use crate::math::laws::{
    in_unit_box, lemma_raw_mul_bound, lemma_rounding_loss, lemma_square_loss, raw_mul, rounding_loss,
    within_steps,
};
use crate::math::unit::{
    lemma_unit_vector_in_box, lemma_unit_vector_length, lemma_unit_vector_parts,
};
use crate::math::vec3::{spec_unit_vector, Vec3};
use crate::ray::Ray;
use crate::scalar::{
    lemma_floor_sqrt, lemma_product_sign, lemma_sqrt_range, magnitude, trunc_quot, Scalar, ONE_RAW,
};
use crate::sphere::{spec_unit_ray, Sphere};
use vstd::prelude::*;

verus! {

/// The largest magnitude of a raw coordinate for which the laws of this
/// file are stated: `2^44`, that is 4096.
pub const NEAR_BOUND: i64 = 0x1000_0000_0000;

/// How far the squared distance from the centre may be off the squared
/// radius at a meeting, in squared steps of the grid times `2^32`: for the
/// distance `reach` along the ray and the root `root` of the discriminant.
/// For distances and radii around one that is a few steps in the distance
/// itself.
pub open spec fn surface_tolerance(reach: int, root: int) -> int {
    8 * (reach * reach) + ONE_RAW * (2 * root + 12 * magnitude(reach) + 12 * NEAR_BOUND + 4
        * ONE_RAW + 3)
}

/// The meeting on raw values: for a direction `u` of unit length within
/// the rounding, the offset `oc` of the origin from the centre, and a root
/// `tau` of the quadratic as the scalars round it, the point `oc + u * tau`
/// lies as far from the centre as the radius, within the tolerance.
pub proof fn lemma_meeting_raw(
    o1: int,
    o2: int,
    o3: int,
    u1: int,
    u2: int,
    u3: int,
    r: int,
    s: int,
    tau: int,
    b: int,
)
    requires
        -ONE_RAW <= u1 <= ONE_RAW,
        -ONE_RAW <= u2 <= ONE_RAW,
        -ONE_RAW <= u3 <= ONE_RAW,
        -8 * ONE_RAW <= u1 * u1 + u2 * u2 + u3 * u3 - ONE_RAW * ONE_RAW <= 8 * ONE_RAW,
        0 <= b,
        -b <= o1 <= b,
        -b <= o2 <= b,
        -b <= o3 <= b,
        ({
            let hb = raw_mul(o1, u1) + raw_mul(o2, u2) + raw_mul(o3, u3);
            let cc = raw_mul(o1, o1) + raw_mul(o2, o2) + raw_mul(o3, o3) - raw_mul(r, r);
            let disc = raw_mul(hb, hb) - cc;
            &&& 0 <= disc
            &&& 0 <= s
            &&& s * s <= disc * ONE_RAW
            &&& disc * ONE_RAW < (s + 1) * (s + 1)
            &&& (tau == -hb - s || tau == -hb + s)
        }),
    ensures
        ({
            let pt1 = o1 + raw_mul(u1, tau);
            let pt2 = o2 + raw_mul(u2, tau);
            let pt3 = o3 + raw_mul(u3, tau);
            ONE_RAW * magnitude(pt1 * pt1 + pt2 * pt2 + pt3 * pt3 - r * r) <= 8 * (tau * tau) + ONE_RAW
                * (2 * s + 12 * magnitude(tau) + 6 * b + 4 * ONE_RAW + 3)
        }),
{
    let k = ONE_RAW as int;
    let kk = k * k;
    let hb = raw_mul(o1, u1) + raw_mul(o2, u2) + raw_mul(o3, u3);
    let cc = raw_mul(o1, o1) + raw_mul(o2, o2) + raw_mul(o3, o3) - raw_mul(r, r);
    let disc = raw_mul(hb, hb) - cc;
    let w = u1 * u1 + u2 * u2 + u3 * u3;
    // What each rounding takes away.
    lemma_rounding_loss(o1, u1);
    lemma_rounding_loss(o2, u2);
    lemma_rounding_loss(o3, u3);
    lemma_square_loss(o1);
    lemma_square_loss(o2);
    lemma_square_loss(o3);
    lemma_square_loss(r);
    lemma_square_loss(hb);
    lemma_rounding_loss(u1, tau);
    lemma_rounding_loss(u2, tau);
    lemma_rounding_loss(u3, tau);
    let lh = rounding_loss(o1, u1) + rounding_loss(o2, u2) + rounding_loss(o3, u3);
    let lc = rounding_loss(o1, o1) + rounding_loss(o2, o2) + rounding_loss(o3, o3);
    let lr = rounding_loss(r, r);
    let lhh = rounding_loss(hb, hb);
    let l1 = rounding_loss(u1, tau);
    let l2 = rounding_loss(u2, tau);
    let l3 = rounding_loss(u3, tau);
    let e1 = raw_mul(u1, tau);
    let e2 = raw_mul(u2, tau);
    let e3 = raw_mul(u3, tau);
    let s_ou = o1 * u1 + o2 * u2 + o3 * u3;
    let s_oo = o1 * o1 + o2 * o2 + o3 * o3;
    let s_ol = o1 * l1 + o2 * l2 + o3 * l3;
    let s_ul = u1 * l1 + u2 * l2 + u3 * l3;
    let s_ll = l1 * l1 + l2 * l2 + l3 * l3;
    assert(s_ou == k * hb + lh);
    assert(s_oo - r * r == k * cc + lc - lr);
    assert(hb * hb == k * raw_mul(hb, hb) + lhh);
    let sigma = disc * k - s * s;
    assert(0 <= sigma <= 2 * s) by (nonlinear_arith)
        requires
            sigma == disc * k - s * s,
            s * s <= disc * k,
            disc * k < (s + 1) * (s + 1),
    ;
    // The quadratic holds up to the losses of the discriminant and its root.
    assert(tau * tau + 2 * (tau * hb) + k * cc == -lhh - sigma) by (nonlinear_arith)
        requires
            tau == -hb - s || tau == -hb + s,
            sigma == disc * k - s * s,
            disc == raw_mul(hb, hb) - cc,
            hb * hb == k * raw_mul(hb, hb) + lhh,
    ;
    // k^2 times the squared distance, component by component.
    lemma_point_square(k, o1, u1, tau, l1, e1);
    lemma_point_square(k, o2, u2, tau, l2, e2);
    lemma_point_square(k, o3, u3, tau, l3, e3);
    let pt1 = o1 + e1;
    let pt2 = o2 + e2;
    let pt3 = o3 + e3;
    let q = pt1 * pt1 + pt2 * pt2 + pt3 * pt3 - r * r;
    let t_ou = tau * s_ou;
    let t_ul = tau * s_ul;
    let t_w = (tau * tau) * w;
    assert(tau * s_ou == tau * (o1 * u1) + tau * (o2 * u2) + tau * (o3 * u3)) by (nonlinear_arith)
        requires
            s_ou == o1 * u1 + o2 * u2 + o3 * u3,
    ;
    assert(tau * s_ul == tau * (u1 * l1) + tau * (u2 * l2) + tau * (u3 * l3)) by (nonlinear_arith)
        requires
            s_ul == u1 * l1 + u2 * l2 + u3 * l3,
    ;
    assert((tau * tau) * w == (tau * tau) * (u1 * u1) + (tau * tau) * (u2 * u2) + (tau * tau) * (u3
        * u3)) by (nonlinear_arith)
        requires
            w == u1 * u1 + u2 * u2 + u3 * u3,
    ;
    assert(kk * (pt1 * pt1 + pt2 * pt2 + pt3 * pt3) == kk * (pt1 * pt1) + kk * (pt2 * pt2) + kk * (pt3 * pt3))
        by (nonlinear_arith);
    assert(kk * s_oo == kk * (o1 * o1) + kk * (o2 * o2) + kk * (o3 * o3)) by (nonlinear_arith)
        requires
            s_oo == o1 * o1 + o2 * o2 + o3 * o3,
    ;
    assert(k * s_ol == k * (o1 * l1) + k * (o2 * l2) + k * (o3 * l3)) by (nonlinear_arith)
        requires
            s_ol == o1 * l1 + o2 * l2 + o3 * l3,
    ;
    assert(k * t_ou == k * (tau * (o1 * u1)) + k * (tau * (o2 * u2)) + k * (tau * (o3 * u3)))
        by (nonlinear_arith)
        requires
            t_ou == tau * (o1 * u1) + tau * (o2 * u2) + tau * (o3 * u3),
    ;
    assert(kk * (pt1 * pt1 + pt2 * pt2 + pt3 * pt3) == kk * s_oo + 2 * (k * t_ou) - 2 * (k * s_ol) + t_w
        - 2 * t_ul + s_ll);
    let t_lh = tau * lh;
    let sum_pp = pt1 * pt1 + pt2 * pt2 + pt3 * pt3;
    assert(kk * q == kk * sum_pp - kk * (r * r)) by (nonlinear_arith)
        requires
            q == sum_pp - r * r,
    ;
    assert(kk * s_oo - kk * (r * r) == kk * (k * cc) + kk * (lc - lr)) by (nonlinear_arith)
        requires
            s_oo - r * r == k * cc + lc - lr,
    ;
    assert(k * t_ou == kk * (tau * hb) + k * t_lh) by (nonlinear_arith)
        requires
            t_ou == tau * s_ou,
            s_ou == k * hb + lh,
            t_lh == tau * lh,
            kk == k * k,
    ;
    assert(kk * (k * cc) + 2 * (kk * (tau * hb)) == -(kk * (tau * tau)) - kk * (lhh + sigma))
        by (nonlinear_arith)
        requires
            tau * tau + 2 * (tau * hb) + k * cc == -lhh - sigma,
    ;
    assert(kk * q == t_w - kk * (tau * tau) - kk * (lhh + sigma) + kk * (lc - lr) + 2 * (k * t_lh)
        - 2 * (k * s_ol) - 2 * t_ul + s_ll);
    // The size of each part.
    let tt = tau * tau;
    let m = magnitude(tau);
    assert(0 <= tt && tt == m * m) by (nonlinear_arith)
        requires
            tt == tau * tau,
            m == magnitude(tau),
    ;
    assert(-8 * k * tt <= t_w - kk * tt <= 8 * k * tt) by (nonlinear_arith)
        requires
            t_w == tt * w,
            -8 * k <= w - kk <= 8 * k,
            0 <= tt,
    ;
    assert(-3 * k * m <= t_lh <= 3 * k * m) by (nonlinear_arith)
        requires
            t_lh == tau * lh,
            m == magnitude(tau),
            -3 * k <= lh <= 3 * k,
    ;
    assert(-b * k <= o1 * l1 <= b * k && -b * k <= o2 * l2 <= b * k && -b * k <= o3 * l3 <= b * k)
        by (nonlinear_arith)
        requires
            -b <= o1 <= b,
            -b <= o2 <= b,
            -b <= o3 <= b,
            -k <= l1 <= k,
            -k <= l2 <= k,
            -k <= l3 <= k,
    ;
    assert(-kk <= u1 * l1 <= kk && -kk <= u2 * l2 <= kk && -kk <= u3 * l3 <= kk) by (nonlinear_arith)
        requires
            -k <= u1 <= k,
            -k <= u2 <= k,
            -k <= u3 <= k,
            -k <= l1 <= k,
            -k <= l2 <= k,
            -k <= l3 <= k,
            kk == k * k,
    ;
    assert(-3 * kk * m <= t_ul <= 3 * kk * m) by (nonlinear_arith)
        requires
            t_ul == tau * s_ul,
            m == magnitude(tau),
            -3 * kk <= s_ul <= 3 * kk,
            0 <= kk,
    ;
    assert(0 <= s_ll <= 3 * kk) by (nonlinear_arith)
        requires
            s_ll == l1 * l1 + l2 * l2 + l3 * l3,
            -k <= l1 <= k,
            -k <= l2 <= k,
            -k <= l3 <= k,
            kk == k * k,
    ;
    let bound = 8 * tt + k * (2 * s + 12 * m + 6 * b + 4 * k + 3);
    assert(-(k * bound) <= kk * q <= k * bound) by (nonlinear_arith)
        requires
            kk * q == t_w - kk * tt - kk * (lhh + sigma) + kk * (lc - lr) + 2 * (k * t_lh) - 2 * (k
                * s_ol) - 2 * t_ul + s_ll,
            -8 * k * tt <= t_w - kk * tt <= 8 * k * tt,
            0 <= lhh + sigma <= k + 2 * s,
            -3 * k <= lc - lr <= 3 * k,
            -3 * k * m <= t_lh <= 3 * k * m,
            -3 * (b * k) <= s_ol <= 3 * (b * k),
            -3 * kk * m <= t_ul <= 3 * kk * m,
            0 <= s_ll <= 3 * kk,
            bound == 8 * tt + k * (2 * s + 12 * m + 6 * b + 4 * k + 3),
            kk == k * k,
            k == 0x1_0000_0000,
            0 <= m,
            0 <= b,
            0 <= s,
            0 <= tt,
    ;
    assert(k * magnitude(q) <= bound) by (nonlinear_arith)
        requires
            -(k * bound) <= kk * q <= k * bound,
            kk == k * k,
            0 < k,
    ;
}

/// The square of `k * (o + e)` for the rounded product `e` of `u` and
/// `tau`, of which the rounding took `l`, written out.
proof fn lemma_point_square(k: int, o: int, u: int, tau: int, l: int, e: int)
    requires
        l == u * tau - k * e,
    ensures
        (k * k) * ((o + e) * (o + e)) == (k * k) * (o * o) + 2 * (k * (tau * (o * u))) - 2 * (k * (o
            * l)) + (tau * tau) * (u * u) - 2 * (tau * (u * l)) + l * l,
{
    let x = u * tau - l;
    assert(k * (o + e) == k * o + x) by (nonlinear_arith)
        requires
            x == u * tau - l,
            l == u * tau - k * e,
    ;
    assert((k * k) * ((o + e) * (o + e)) == (k * (o + e)) * (k * (o + e))) by (nonlinear_arith);
    assert((k * o + x) * (k * o + x) == (k * k) * (o * o) + 2 * (k * (o * x)) + x * x)
        by (nonlinear_arith);
    assert(o * x == tau * (o * u) - o * l) by (nonlinear_arith)
        requires
            x == u * tau - l,
    ;
    assert(k * (o * x) == k * (tau * (o * u)) - k * (o * l)) by (nonlinear_arith)
        requires
            o * x == tau * (o * u) - o * l,
    ;
    assert(x * x == (tau * tau) * (u * u) - 2 * (tau * (u * l)) + l * l) by (nonlinear_arith)
        requires
            x == u * tau - l,
    ;
}

/// Whether the coordinates of the origin of `ray` and of the centre of
/// `sphere`, and the radius, lie within `NEAR_BOUND`.
pub open spec fn within_near_bound(sphere: Sphere, ray: Ray) -> bool {
    &&& -NEAR_BOUND <= ray.origin.x.raw <= NEAR_BOUND
    &&& -NEAR_BOUND <= ray.origin.y.raw <= NEAR_BOUND
    &&& -NEAR_BOUND <= ray.origin.z.raw <= NEAR_BOUND
    &&& -NEAR_BOUND <= sphere.center.x.raw <= NEAR_BOUND
    &&& -NEAR_BOUND <= sphere.center.y.raw <= NEAR_BOUND
    &&& -NEAR_BOUND <= sphere.center.z.raw <= NEAR_BOUND
    &&& -NEAR_BOUND <= sphere.radius.raw <= NEAR_BOUND
}

/// The quadratic of the normalised ray on raw values: within
/// `NEAR_BOUND` no sum or product of it leaves the range, so that each
/// coefficient is the sum of its rounded products.
proof fn lemma_unit_quadratic(sphere: Sphere, ray: Ray)
    requires
        within_near_bound(sphere, ray),
        ray.direction.spec_max_magnitude() > 0,
    ensures
        ({
            let unit = spec_unit_ray(ray);
            let u = unit.direction;
            let oc = ray.origin - sphere.center;
            let (o1, o2, o3) = (oc.x.raw as int, oc.y.raw as int, oc.z.raw as int);
            let (u1, u2, u3) = (u.x.raw as int, u.y.raw as int, u.z.raw as int);
            let r = sphere.radius.raw as int;
            let hb = sphere.spec_half_b(unit).raw as int;
            let cc = sphere.spec_c(unit).raw as int;
            &&& in_unit_box(u)
            &&& -8 * ONE_RAW <= u1 * u1 + u2 * u2 + u3 * u3 - ONE_RAW * ONE_RAW <= 2 * ONE_RAW
            &&& -3 * 0x2000_0000_0000 <= hb <= 3 * 0x2000_0000_0000
            &&& -0x2000_0000_0000 <= o1 <= 0x2000_0000_0000
            &&& -0x2000_0000_0000 <= o2 <= 0x2000_0000_0000
            &&& -0x2000_0000_0000 <= o3 <= 0x2000_0000_0000
            &&& o1 == ray.origin.x.raw - sphere.center.x.raw
            &&& o2 == ray.origin.y.raw - sphere.center.y.raw
            &&& o3 == ray.origin.z.raw - sphere.center.z.raw
            &&& hb == raw_mul(o1, u1) + raw_mul(o2, u2) + raw_mul(o3, u3)
            &&& cc == raw_mul(o1, o1) + raw_mul(o2, o2) + raw_mul(o3, o3) - raw_mul(r, r)
            &&& sphere.spec_discriminant(unit).raw == raw_mul(hb, hb) - cc
            &&& -13 * 0x400_0000_0000_0000 <= sphere.spec_discriminant(unit).raw <= 13
                * 0x400_0000_0000_0000
        }),
{
    let k = ONE_RAW as int;
    let b = 0x2000_0000_0000int;
    let unit = spec_unit_ray(ray);
    let u = unit.direction;
    lemma_unit_vector_in_box(ray.direction);
    lemma_unit_vector_length(ray.direction);
    let oc = ray.origin - sphere.center;
    let (o1, o2, o3) = (oc.x.raw as int, oc.y.raw as int, oc.z.raw as int);
    let (u1, u2, u3) = (u.x.raw as int, u.y.raw as int, u.z.raw as int);
    let r = sphere.radius.raw as int;
    assert((k - 4) * (k - 4) == k * k - 8 * k + 16 && (k + 1) * (k + 1) == k * k + 2 * k + 1)
        by (nonlinear_arith);
    lemma_raw_mul_bound(o1, u1, b, k, b);
    lemma_raw_mul_bound(o2, u2, b, k, b);
    lemma_raw_mul_bound(o3, u3, b, k, b);
    let hb = sphere.spec_half_b(unit);
    assert(hb.raw == raw_mul(o1, u1) + raw_mul(o2, u2) + raw_mul(o3, u3));
    let sq = 0x400_0000_0000_0000int;
    lemma_raw_mul_bound(o1, o1, b, b, sq);
    lemma_raw_mul_bound(o2, o2, b, b, sq);
    lemma_raw_mul_bound(o3, o3, b, b, sq);
    lemma_raw_mul_bound(r, r, b, b, sq);
    lemma_square_loss(o1);
    lemma_square_loss(o2);
    lemma_square_loss(o3);
    lemma_square_loss(r);
    let cc = sphere.spec_c(unit);
    assert(cc.raw == raw_mul(o1, o1) + raw_mul(o2, o2) + raw_mul(o3, o3) - raw_mul(r, r));
    lemma_raw_mul_bound(hb.raw as int, hb.raw as int, 3 * b, 3 * b, 9 * sq);
    lemma_square_loss(hb.raw as int);
    let disc = sphere.spec_discriminant(unit);
    assert(disc.raw == raw_mul(hb.raw as int, hb.raw as int) - cc.raw);
}

/// On the normalised ray, the point at a root of the quadratic lies as far
/// from the centre as the radius, within `surface_tolerance`.
pub proof fn lemma_unit_meeting_near_surface(sphere: Sphere, ray: Ray, far: bool)
    requires
        within_near_bound(sphere, ray),
        ray.direction.spec_max_magnitude() > 0,
        sphere.spec_solvable(spec_unit_ray(ray)),
    ensures
        ({
            let unit = spec_unit_ray(ray);
            let reach = if far {
                sphere.spec_far_root(unit)
            } else {
                sphere.spec_near_root(unit)
            };
            let off = unit.at(reach) - sphere.center;
            &&& -0x1_0000_0000_0000 <= reach.raw <= 0x1_0000_0000_0000
            &&& -0x2_0000_0000_0000 <= off.x.raw <= 0x2_0000_0000_0000
            &&& -0x2_0000_0000_0000 <= off.y.raw <= 0x2_0000_0000_0000
            &&& -0x2_0000_0000_0000 <= off.z.raw <= 0x2_0000_0000_0000
            &&& ONE_RAW * magnitude(
                off.spec_raw_norm_squared() - sphere.radius.raw * sphere.radius.raw,
            ) <= surface_tolerance(
                reach.raw as int,
                sphere.spec_discriminant(unit).spec_sqrt().raw as int,
            )
        }),
{
    let k = ONE_RAW as int;
    let b = 0x2000_0000_0000int;
    let sq = 0x400_0000_0000_0000int;
    let unit = spec_unit_ray(ray);
    let u = unit.direction;
    let oc = ray.origin - sphere.center;
    let (o1, o2, o3) = (oc.x.raw as int, oc.y.raw as int, oc.z.raw as int);
    let (u1, u2, u3) = (u.x.raw as int, u.y.raw as int, u.z.raw as int);
    let r = sphere.radius.raw as int;
    let hb = sphere.spec_half_b(unit);
    let cc = sphere.spec_c(unit);
    let disc = sphere.spec_discriminant(unit);
    lemma_unit_quadratic(sphere, ray);
    lemma_sqrt_range(disc);
    lemma_floor_sqrt(disc.raw * ONE_RAW);
    let s = disc.spec_sqrt().raw as int;
    assert(s <= 0x8000_0000_0000) by (nonlinear_arith)
        requires
            0 <= s,
            s * s <= disc.raw * k,
            0 <= disc.raw <= 13 * sq,
            sq == 0x400_0000_0000_0000,
            k == 0x1_0000_0000,
    ;
    let reach = if far {
        sphere.spec_far_root(unit)
    } else {
        sphere.spec_near_root(unit)
    };
    let tau = reach.raw as int;
    assert(tau == -hb.raw - s || tau == -hb.raw + s);
    let top = 0x1_0000_0000_0000int;
    lemma_raw_mul_bound(u1, tau, k, top, top);
    lemma_raw_mul_bound(u2, tau, k, top, top);
    lemma_raw_mul_bound(u3, tau, k, top, top);
    let at = unit.at(reach);
    assert(at.x.raw == ray.origin.x.raw + raw_mul(u1, tau));
    assert(at.y.raw == ray.origin.y.raw + raw_mul(u2, tau));
    assert(at.z.raw == ray.origin.z.raw + raw_mul(u3, tau));
    lemma_meeting_raw(o1, o2, o3, u1, u2, u3, r, s, tau, b);
}

/// What rounding toward zero takes from a quotient is less than the
/// divisor.
pub proof fn lemma_quotient_loss(n: int, d: int)
    requires
        0 < d,
    ensures
        -d < n - d * trunc_quot(n, d) < d,
{
    let m = magnitude(n);
    vstd::arithmetic::div_mod::lemma_fundamental_div_mod(m, d);
    vstd::arithmetic::div_mod::lemma_mod_pos_bound(m, d);
    assert(d * -(m / d) == -(d * (m / d))) by (nonlinear_arith);
}

/// A step along the ray and the same step along the normalised ray, on raw
/// values: for a component `d` of the direction, its normalised component
/// `u`, a distance `tau` and its parameter `t`, the rounded products
/// `d * t` and `u * tau` differ by at most two steps and the magnitudes of
/// `d` and `tau`, counted in units of one.
pub proof fn lemma_follow_raw(d: int, f: int, len: int, tau: int)
    requires
        1 <= f,
        0 < len,
    ensures
        ({
            let u = trunc_quot(d * f * ONE_RAW, len);
            let t = trunc_quot(tau * f * ONE_RAW, len);
            ONE_RAW * magnitude(raw_mul(d, t) - raw_mul(u, tau)) <= magnitude(d) + magnitude(tau)
                + 2 * ONE_RAW
        }),
{
    let k = ONE_RAW as int;
    let u = trunc_quot(d * f * k, len);
    let t = trunc_quot(tau * f * k, len);
    lemma_quotient_loss(d * f * k, len);
    lemma_quotient_loss(tau * f * k, len);
    let rho_u = d * f * k - len * u;
    let rho_t = tau * f * k - len * t;
    lemma_rounding_loss(d, t);
    lemma_rounding_loss(u, tau);
    let g = raw_mul(d, t);
    let e = raw_mul(u, tau);
    let rho_g = rounding_loss(d, t);
    let rho_e = rounding_loss(u, tau);
    let x = g - e;
    let nd = d * f * k;
    let nt = tau * f * k;
    assert(k * x == d * t - u * tau - (rho_g - rho_e));
    assert(len * (k * x) == len * (d * t) - len * (u * tau) - len * (rho_g - rho_e))
        by (nonlinear_arith)
        requires
            k * x == d * t - u * tau - (rho_g - rho_e),
    ;
    assert(len * (d * t) == d * nt - d * rho_t) by (nonlinear_arith)
        requires
            rho_t == nt - len * t,
    ;
    assert(len * (u * tau) == tau * nd - tau * rho_u) by (nonlinear_arith)
        requires
            rho_u == nd - len * u,
    ;
    assert(d * nt == tau * nd) by (nonlinear_arith)
        requires
            nd == d * f * k,
            nt == tau * f * k,
    ;
    assert(len * (k * x) == tau * rho_u - d * rho_t - len * (rho_g - rho_e));
    let md = magnitude(d);
    let mt = magnitude(tau);
    assert(-(md * len) <= d * rho_t <= md * len && -(mt * len) <= tau * rho_u <= mt * len)
        by (nonlinear_arith)
        requires
            md == magnitude(d),
            mt == magnitude(tau),
            -len < rho_t < len,
            -len < rho_u < len,
    ;
    assert(-(md + mt + 2 * k) <= k * x <= md + mt + 2 * k) by (nonlinear_arith)
        requires
            len * (k * x) == tau * rho_u - d * rho_t - len * (rho_g - rho_e),
            -(md * len) <= d * rho_t <= md * len,
            -(mt * len) <= tau * rho_u <= mt * len,
            -2 * k < rho_g - rho_e < 2 * k,
            0 < len,
    ;
    assert(k * magnitude(x) == magnitude(k * x)) by (nonlinear_arith)
        requires
            0 < k,
    ;
}

/// How far a component of the point of a meeting may lie from the same
/// component of the point of the normalised ray, in steps of the grid: two
/// steps, and the largest component of the direction and the distance
/// `reach`, both counted in units of one.
pub open spec fn follow_tolerance(direction: Vec3, reach: int) -> int {
    (direction.spec_max_magnitude() + magnitude(reach)) / (ONE_RAW as int) + 2
}

/// Whether `rec` records the meeting of `ray` with `sphere` at the distance
/// `reach` along the normalised ray: its parameter is that of `reach`, its
/// point is the point of `ray` at the parameter, each component of which
/// lies within `follow_tolerance` of the point of the normalised ray at
/// `reach`; and that point lies as far from the centre as the radius,
/// within `surface_tolerance`.
pub open spec fn is_meeting(sphere: Sphere, ray: Ray, rec: HitRecord, reach: Scalar) -> bool {
    let unit = spec_unit_ray(ray);
    let on_unit = unit.at(reach);
    let off = on_unit - sphere.center;
    &&& rec.t == ray.direction.spec_parameter_at(reach)
    &&& rec.point == ray.at(rec.t)
    &&& within_steps(rec.point, on_unit, follow_tolerance(ray.direction, reach.raw as int))
    &&& ONE_RAW * magnitude(off.spec_raw_norm_squared() - sphere.radius.raw * sphere.radius.raw)
        <= surface_tolerance(
        reach.raw as int,
        sphere.spec_discriminant(unit).spec_sqrt().raw as int,
    )
}

/// A bound on a whole number from a bound on its multiple.
proof fn lemma_steps_from_scaled(x: int, a: int)
    requires
        ONE_RAW * magnitude(x) <= a + 2 * ONE_RAW,
        0 <= a,
    ensures
        magnitude(x) <= a / (ONE_RAW as int) + 2,
{
    let k = ONE_RAW as int;
    let m = magnitude(x);
    if m > 2 {
        assert(k * (m - 2) <= a) by (nonlinear_arith)
            requires
                k * m <= a + 2 * k,
        ;
        vstd::arithmetic::div_mod::lemma_div_is_ordered(k * (m - 2), a, k);
        vstd::arithmetic::div_mod::lemma_div_multiples_vanish(m - 2, k);
    } else {
        vstd::arithmetic::div_mod::lemma_div_is_ordered(0, a, k);
    }
}

/// One component of the point of a meeting against the same component of
/// the point of the normalised ray.
proof fn lemma_follow_component(
    origin: Scalar,
    d: Scalar,
    u: Scalar,
    f: int,
    len: int,
    tau: Scalar,
    t: Scalar,
    most: int,
)
    requires
        1 <= f,
        0 < len,
        -NEAR_BOUND <= origin.raw <= NEAR_BOUND,
        u.raw == trunc_quot(d.raw * f * ONE_RAW, len),
        -ONE_RAW <= u.raw <= ONE_RAW,
        t.raw == trunc_quot(tau.raw * f * ONE_RAW, len),
        -0x1_0000_0000_0000 <= tau.raw <= 0x1_0000_0000_0000,
        magnitude(d.raw as int) <= most <= 0x8000_0000_0000_0000,
    ensures
        magnitude((origin + d * t).raw - (origin + u * tau).raw) <= (most + magnitude(
            tau.raw as int,
        )) / (ONE_RAW as int) + 2,
{
    let k = ONE_RAW as int;
    let top = 0x1_0000_0000_0000int;
    lemma_follow_raw(d.raw as int, f, len, tau.raw as int);
    let g = raw_mul(d.raw as int, t.raw as int);
    let e = raw_mul(u.raw as int, tau.raw as int);
    lemma_raw_mul_bound(u.raw as int, tau.raw as int, k, top, top);
    let a = magnitude(d.raw as int) + magnitude(tau.raw as int);
    lemma_steps_from_scaled(g - e, a);
    vstd::arithmetic::div_mod::lemma_div_is_ordered(a, most + magnitude(tau.raw as int), k);
    vstd::arithmetic::div_mod::lemma_div_is_ordered(
        most + magnitude(tau.raw as int),
        0x8000_0000_0000_0000 + top,
        k,
    );
    assert((0x8000_0000_0000_0000 + top) / k == 0x8001_0000) by (nonlinear_arith)
        requires
            k == 0x1_0000_0000,
            top == 0x1_0000_0000_0000,
    ;
}

/// Every meeting of a ray with a sphere is recorded near the surface: the
/// recorded point is the point of the ray at the recorded parameter, it
/// lies within `follow_tolerance` of the point of the normalised ray at a
/// root of the quadratic, and that point lies as far from the centre as the
/// radius, within `surface_tolerance`. Stated for coordinates and a radius
/// up to `NEAR_BOUND`, and for every direction.
pub proof fn lemma_hit_near_surface(sphere: Sphere, ray: Ray, t_min: Scalar, t_max: Scalar)
    requires
        within_near_bound(sphere, ray),
    ensures
        sphere.spec_hit(ray, t_min, t_max) matches Some(rec) ==> is_meeting(
            sphere,
            ray,
            rec,
            sphere.spec_near_root(spec_unit_ray(ray)),
        ) || is_meeting(sphere, ray, rec, sphere.spec_far_root(spec_unit_ray(ray))),
{
    match sphere.spec_hit(ray, t_min, t_max) {
        Some(rec) => {
            let unit = spec_unit_ray(ray);
            let d = ray.direction;
            let u = unit.direction;
            let far = rec.t != sphere.spec_near_parameter(ray);
            let reach = if far {
                sphere.spec_far_root(unit)
            } else {
                sphere.spec_near_root(unit)
            };
            lemma_unit_meeting_near_surface(sphere, ray, far);
            lemma_unit_vector_parts(d);
            lemma_unit_vector_in_box(d);
            let f = d.spec_fine_scale();
            let len = d.spec_fine_length();
            let most = d.spec_max_magnitude();
            lemma_follow_component(ray.origin.x, d.x, u.x, f, len, reach, rec.t, most);
            lemma_follow_component(ray.origin.y, d.y, u.y, f, len, reach, rec.t, most);
            lemma_follow_component(ray.origin.z, d.z, u.z, f, len, reach, rec.t, most);
        },
        None => {},
    }
}

/// The length of the normal on raw values: for the offset `c` of a point
/// from the centre and a positive radius `r`, the quotients
/// `n = c * 2^32 / r` have a squared length that is as far from one as the
/// squared length of `c` is from the squared radius, up to the rounding of
/// the quotients; all of it scaled by the squared radius.
pub proof fn lemma_normal_raw(c1: int, c2: int, c3: int, r: int)
    requires
        0 < r,
    ensures
        ({
            let n1 = trunc_quot(c1 * ONE_RAW, r);
            let n2 = trunc_quot(c2 * ONE_RAW, r);
            let n3 = trunc_quot(c3 * ONE_RAW, r);
            (r * r) * magnitude(n1 * n1 + n2 * n2 + n3 * n3 - ONE_RAW * ONE_RAW) <= (ONE_RAW
                * ONE_RAW) * magnitude(c1 * c1 + c2 * c2 + c3 * c3 - r * r) + 2 * (ONE_RAW * r)
                * (magnitude(c1) + magnitude(c2) + magnitude(c3)) + 3 * (r * r)
        }),
{
    let k = ONE_RAW as int;
    let kk = k * k;
    let rr = r * r;
    let n1 = trunc_quot(c1 * k, r);
    let n2 = trunc_quot(c2 * k, r);
    let n3 = trunc_quot(c3 * k, r);
    lemma_quotient_loss(c1 * k, r);
    lemma_quotient_loss(c2 * k, r);
    lemma_quotient_loss(c3 * k, r);
    let pt1 = c1 * k - r * n1;
    let pt2 = c2 * k - r * n2;
    let pt3 = c3 * k - r * n3;
    lemma_normal_component(k, c1, r, n1, pt1);
    lemma_normal_component(k, c2, r, n2, pt2);
    lemma_normal_component(k, c3, r, n3, pt3);
    let sn = n1 * n1 + n2 * n2 + n3 * n3;
    let sc = c1 * c1 + c2 * c2 + c3 * c3;
    let cp = c1 * pt1 + c2 * pt2 + c3 * pt3;
    let pp = pt1 * pt1 + pt2 * pt2 + pt3 * pt3;
    assert(rr * sn == rr * (n1 * n1) + rr * (n2 * n2) + rr * (n3 * n3)) by (nonlinear_arith)
        requires
            sn == n1 * n1 + n2 * n2 + n3 * n3,
    ;
    assert(kk * sc == kk * (c1 * c1) + kk * (c2 * c2) + kk * (c3 * c3)) by (nonlinear_arith)
        requires
            sc == c1 * c1 + c2 * c2 + c3 * c3,
    ;
    assert(k * cp == k * (c1 * pt1) + k * (c2 * pt2) + k * (c3 * pt3)) by (nonlinear_arith)
        requires
            cp == c1 * pt1 + c2 * pt2 + c3 * pt3,
    ;
    assert(rr * sn == kk * sc - 2 * (k * cp) + pp);
    assert(rr * (sn - kk) == kk * (sc - rr) - 2 * (k * cp) + pp) by (nonlinear_arith)
        requires
            rr * sn == kk * sc - 2 * (k * cp) + pp,
    ;
    let m = magnitude(c1) + magnitude(c2) + magnitude(c3);
    lemma_product_within(c1, pt1, r);
    lemma_product_within(c2, pt2, r);
    lemma_product_within(c3, pt3, r);
    assert(r * m == r * magnitude(c1) + r * magnitude(c2) + r * magnitude(c3)) by (nonlinear_arith)
        requires
            m == magnitude(c1) + magnitude(c2) + magnitude(c3),
    ;
    assert(-(r * m) <= cp <= r * m);
    assert(0 <= pp <= 3 * rr) by (nonlinear_arith)
        requires
            pp == pt1 * pt1 + pt2 * pt2 + pt3 * pt3,
            rr == r * r,
            -r < pt1 < r,
            -r < pt2 < r,
            -r < pt3 < r,
    ;
    let gq = magnitude(sc - rr);
    assert(-(kk * gq) <= kk * (sc - rr) <= kk * gq) by (nonlinear_arith)
        requires
            gq == magnitude(sc - rr),
            0 <= kk,
    ;
    assert(-(k * (r * m)) <= k * cp <= k * (r * m)) by (nonlinear_arith)
        requires
            -(r * m) <= cp <= r * m,
            0 < k,
    ;
    assert(2 * (k * r) * m == 2 * (k * (r * m))) by (nonlinear_arith);
    assert(rr * magnitude(sn - kk) == magnitude(rr * (sn - kk))) by (nonlinear_arith)
        requires
            0 <= rr,
    ;
}

/// A product with a factor that is smaller than `r` in magnitude.
proof fn lemma_product_within(c: int, p: int, r: int)
    requires
        -r < p < r,
    ensures
        -(r * magnitude(c)) <= c * p <= r * magnitude(c),
{
    assert(-(r * magnitude(c)) <= c * p <= r * magnitude(c)) by (nonlinear_arith)
        requires
            -r < p < r,
    ;
}

/// The square of `r * n` for the rounded quotient `n` of `c * k` by `r`, of
/// which the rounding took `p`, written out.
proof fn lemma_normal_component(k: int, c: int, r: int, n: int, p: int)
    requires
        p == c * k - r * n,
    ensures
        (r * r) * (n * n) == (k * k) * (c * c) - 2 * (k * (c * p)) + p * p,
{
    assert(r * n == c * k - p);
    assert((r * r) * (n * n) == (r * n) * (r * n)) by (nonlinear_arith);
    assert((c * k - p) * (c * k - p) == (k * k) * (c * c) - 2 * (k * (c * p)) + p * p)
        by (nonlinear_arith);
}

/// The normal of a meeting has unit length as far as the recorded point
/// lies on the surface: with `c` the offset of the recorded point from the
/// centre, the squared length of the normal is as far from one as the
/// squared length of `c` is from the squared radius, up to the rounding of
/// the division by the radius; all of it scaled by the squared radius.
/// Stated for a positive radius and a point within `2^30` radii of the
/// centre on each axis, which every point near the surface is.
pub proof fn lemma_hit_normal_length(sphere: Sphere, ray: Ray, t_min: Scalar, t_max: Scalar)
    requires
        0 < sphere.radius.raw,
        sphere.spec_hit(ray, t_min, t_max) matches Some(rec) && {
            let c = rec.point - sphere.center;
            &&& magnitude(c.x.raw as int) <= 0x4000_0000 * sphere.radius.raw
            &&& magnitude(c.y.raw as int) <= 0x4000_0000 * sphere.radius.raw
            &&& magnitude(c.z.raw as int) <= 0x4000_0000 * sphere.radius.raw
        },
    ensures
        sphere.spec_hit(ray, t_min, t_max) matches Some(rec) && {
            let c = rec.point - sphere.center;
            let r = sphere.radius.raw as int;
            (r * r) * magnitude(rec.normal.spec_raw_norm_squared() - ONE_RAW * ONE_RAW) <= (ONE_RAW
                * ONE_RAW) * magnitude(c.spec_raw_norm_squared() - r * r) + 2 * (ONE_RAW * r) * (
            magnitude(c.x.raw as int) + magnitude(c.y.raw as int) + magnitude(c.z.raw as int)) + 3
                * (r * r)
        },
{
    let k = ONE_RAW as int;
    let rec = sphere.spec_hit(ray, t_min, t_max).unwrap();
    let c = rec.point - sphere.center;
    let r = sphere.radius.raw as int;
    let outward = sphere.spec_outward_normal(rec.point);
    lemma_normal_raw(c.x.raw as int, c.y.raw as int, c.z.raw as int, r);
    lemma_normal_quotient(c.x.raw as int, r);
    lemma_normal_quotient(c.y.raw as int, r);
    lemma_normal_quotient(c.z.raw as int, r);
    assert(outward.x.raw == trunc_quot(c.x.raw * ONE_RAW, r));
    assert(outward.y.raw == trunc_quot(c.y.raw * ONE_RAW, r));
    assert(outward.z.raw == trunc_quot(c.z.raw * ONE_RAW, r));
    assert(rec.normal == outward || rec.normal == outward.spec_neg());
    assert((-outward.x.raw) * (-outward.x.raw) == outward.x.raw * outward.x.raw && (-outward.y.raw)
        * (-outward.y.raw) == outward.y.raw * outward.y.raw && (-outward.z.raw) * (-outward.z.raw)
        == outward.z.raw * outward.z.raw) by (nonlinear_arith);
}

/// The quotient of an offset within `2^30` radii by the radius stays within
/// the numbers.
proof fn lemma_normal_quotient(c: int, r: int)
    requires
        0 < r,
        magnitude(c) <= 0x4000_0000 * r,
    ensures
        -0x4000_0000 * ONE_RAW <= trunc_quot(c * ONE_RAW, r) <= 0x4000_0000 * ONE_RAW,
{
    let k = ONE_RAW as int;
    lemma_product_sign(c, k);
    let top = 0x4000_0000int * k;
    assert(magnitude(c) * k <= top * r) by (nonlinear_arith)
        requires
            magnitude(c) <= 0x4000_0000 * r,
            top == 0x4000_0000 * k,
            0 < k,
    ;
    vstd::arithmetic::div_mod::lemma_div_is_ordered(magnitude(c) * k, top * r, r);
    vstd::arithmetic::div_mod::lemma_div_multiples_vanish(top, r);
    assert(top * r == r * top) by (nonlinear_arith);
    vstd::arithmetic::div_mod::lemma_div_is_ordered(0, magnitude(c) * k, r);
}

/// The squared length of the cross product of two vectors, taken of the raw
/// components with no rounding.
pub open spec fn raw_cross_squared(a: Vec3, b: Vec3) -> int {
    let x = a.y.raw * b.z.raw - a.z.raw * b.y.raw;
    let y = a.z.raw * b.x.raw - a.x.raw * b.z.raw;
    let z = a.x.raw * b.y.raw - a.y.raw * b.x.raw;
    x * x + y * y + z * z
}

/// The sum of the products of the raw components of two vectors, with no
/// rounding.
pub open spec fn raw_dot(a: Vec3, b: Vec3) -> int {
    a.x.raw * b.x.raw + a.y.raw * b.y.raw + a.z.raw * b.z.raw
}

/// By how much the squared offset of a ray from the centre must exceed the
/// squared radius for the rounding not to matter, for the offset `oc` of
/// the origin from the centre and the unit direction `u`; in squared steps
/// of the grid times `2^64`.
pub open spec fn offset_margin(oc: Vec3, u: Vec3) -> int {
    2 * (ONE_RAW * oc.spec_raw_norm_squared()) + 6 * (ONE_RAW * magnitude(raw_dot(oc, u))) + 9
        * (ONE_RAW * ONE_RAW) + 3 * (ONE_RAW * ONE_RAW * ONE_RAW)
}

/// The squared cross product of two vectors is the product of their
/// squared lengths less the square of their dot product.
proof fn lemma_cross_squared(a1: int, a2: int, a3: int, b1: int, b2: int, b3: int)
    ensures
        (a2 * b3 - a3 * b2) * (a2 * b3 - a3 * b2) + (a3 * b1 - a1 * b3) * (a3 * b1 - a1 * b3) + (a1
            * b2 - a2 * b1) * (a1 * b2 - a2 * b1) == (a1 * a1 + a2 * a2 + a3 * a3) * (b1 * b1 + b2
            * b2 + b3 * b3) - (a1 * b1 + a2 * b2 + a3 * b3) * (a1 * b1 + a2 * b2 + a3 * b3),
{
    let (x11, x12, x13) = (a1 * b1, a1 * b2, a1 * b3);
    let (x21, x22, x23) = (a2 * b1, a2 * b2, a2 * b3);
    let (x31, x32, x33) = (a3 * b1, a3 * b2, a3 * b3);
    assert((x23 - x32) * (x23 - x32) == x23 * x23 - 2 * (x23 * x32) + x32 * x32)
        by (nonlinear_arith);
    assert((x31 - x13) * (x31 - x13) == x31 * x31 - 2 * (x31 * x13) + x13 * x13)
        by (nonlinear_arith);
    assert((x12 - x21) * (x12 - x21) == x12 * x12 - 2 * (x12 * x21) + x21 * x21)
        by (nonlinear_arith);
    assert(x23 * x32 == x22 * x33) by (nonlinear_arith)
        requires
            x23 == a2 * b3,
            x32 == a3 * b2,
            x22 == a2 * b2,
            x33 == a3 * b3,
    ;
    assert(x31 * x13 == x11 * x33) by (nonlinear_arith)
        requires
            x31 == a3 * b1,
            x13 == a1 * b3,
            x11 == a1 * b1,
            x33 == a3 * b3,
    ;
    assert(x12 * x21 == x11 * x22) by (nonlinear_arith)
        requires
            x12 == a1 * b2,
            x21 == a2 * b1,
            x11 == a1 * b1,
            x22 == a2 * b2,
    ;
    lemma_square_of_product(a1, b1);
    lemma_square_of_product(a1, b2);
    lemma_square_of_product(a1, b3);
    lemma_square_of_product(a2, b1);
    lemma_square_of_product(a2, b2);
    lemma_square_of_product(a2, b3);
    lemma_square_of_product(a3, b1);
    lemma_square_of_product(a3, b2);
    lemma_square_of_product(a3, b3);
    let (aa1, aa2, aa3) = (a1 * a1, a2 * a2, a3 * a3);
    let (bb1, bb2, bb3) = (b1 * b1, b2 * b2, b3 * b3);
    assert((aa1 + aa2 + aa3) * (bb1 + bb2 + bb3) == aa1 * bb1 + aa1 * bb2 + aa1 * bb3 + aa2 * bb1
        + aa2 * bb2 + aa2 * bb3 + aa3 * bb1 + aa3 * bb2 + aa3 * bb3) by (nonlinear_arith);
    assert((x11 + x22 + x33) * (x11 + x22 + x33) == x11 * x11 + x22 * x22 + x33 * x33 + 2 * (x11
        * x22) + 2 * (x11 * x33) + 2 * (x22 * x33)) by (nonlinear_arith);
}

/// The square of a product is the product of the squares.
proof fn lemma_square_of_product(a: int, b: int)
    ensures
        (a * b) * (a * b) == (a * a) * (b * b),
{
    assert((a * b) * (a * b) == (a * a) * (b * b)) by (nonlinear_arith);
}

/// A ray that passes the centre at more than the radius meets nothing: where
/// the offset of the ray from the centre, taken as the cross product of the
/// offset of its origin with its unit direction, exceeds the radius by more
/// than `offset_margin` allows for the rounding. Stated for coordinates and
/// a radius up to `NEAR_BOUND`.
pub proof fn lemma_offset_by_cross_misses(sphere: Sphere, ray: Ray, t_min: Scalar, t_max: Scalar)
    requires
        within_near_bound(sphere, ray),
        ray.direction.spec_max_magnitude() > 0,
        ({
            let oc = ray.origin - sphere.center;
            let u = spec_unit_vector(ray.direction);
            raw_cross_squared(oc, u) > (ONE_RAW * ONE_RAW) * (sphere.radius.raw
                * sphere.radius.raw) + offset_margin(oc, u)
        }),
    ensures
        sphere.spec_hit(ray, t_min, t_max).is_none(),
{
    let k = ONE_RAW as int;
    let kk = k * k;
    let unit = spec_unit_ray(ray);
    let u = unit.direction;
    let oc = ray.origin - sphere.center;
    let (o1, o2, o3) = (oc.x.raw as int, oc.y.raw as int, oc.z.raw as int);
    let (u1, u2, u3) = (u.x.raw as int, u.y.raw as int, u.z.raw as int);
    let r = sphere.radius.raw as int;
    let hb = sphere.spec_half_b(unit).raw as int;
    let cc = sphere.spec_c(unit).raw as int;
    lemma_unit_quadratic(sphere, ray);
    lemma_cross_squared(o1, o2, o3, u1, u2, u3);
    let x = raw_cross_squared(oc, u);
    let s_oo = o1 * o1 + o2 * o2 + o3 * o3;
    let s_ou = o1 * u1 + o2 * u2 + o3 * u3;
    let w = u1 * u1 + u2 * u2 + u3 * u3;
    assert(x == s_oo * w - s_ou * s_ou);
    lemma_rounding_loss(o1, u1);
    lemma_rounding_loss(o2, u2);
    lemma_rounding_loss(o3, u3);
    lemma_square_loss(o1);
    lemma_square_loss(o2);
    lemma_square_loss(o3);
    lemma_square_loss(r);
    lemma_square_loss(hb);
    let lh = rounding_loss(o1, u1) + rounding_loss(o2, u2) + rounding_loss(o3, u3);
    let lc = rounding_loss(o1, o1) + rounding_loss(o2, o2) + rounding_loss(o3, o3);
    let lr = rounding_loss(r, r);
    assert(k * hb == s_ou - lh);
    assert(k * cc == s_oo - r * r - (lc - lr));
    let m = magnitude(s_ou);
    assert(kk * (hb * hb) <= s_ou * s_ou + 6 * (k * m) + 9 * kk) by (nonlinear_arith)
        requires
            k * hb == s_ou - lh,
            -3 * k < lh < 3 * k,
            m == magnitude(s_ou),
            kk == k * k,
            0 < k,
    ;
    assert(0 <= s_oo) by (nonlinear_arith)
        requires
            s_oo == o1 * o1 + o2 * o2 + o3 * o3,
    ;
    assert(s_oo * w <= kk * s_oo + 2 * (k * s_oo)) by (nonlinear_arith)
        requires
            w <= kk + 2 * k,
            0 <= s_oo,
    ;
    assert(kk * (k * cc) >= kk * s_oo - kk * (r * r) - 3 * (kk * k)) by (nonlinear_arith)
        requires
            k * cc == s_oo - r * r - (lc - lr),
            -k < lc - lr < 3 * k,
            0 <= kk,
    ;
    assert(offset_margin(oc, u) == 2 * (k * s_oo) + 6 * (k * m) + 9 * kk + 3 * (kk * k))
        by (nonlinear_arith)
        requires
            offset_margin(oc, u) == 2 * (k * s_oo) + 6 * (k * m) + 9 * (k * k) + 3 * (k * k * k),
            kk == k * k,
    ;
    assert(kk * (hb * hb) < kk * (k * cc));
    assert(hb * hb < k * cc) by (nonlinear_arith)
        requires
            kk * (hb * hb) < kk * (k * cc),
            0 < kk,
    ;
    assert(raw_mul(hb, hb) < cc) by (nonlinear_arith)
        requires
            hb * hb - k * raw_mul(hb, hb) >= 0,
            hb * hb < k * cc,
            0 < k,
    ;
}

} // verus!
