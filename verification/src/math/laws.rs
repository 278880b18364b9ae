//! Laws of the vector algebra that hold up to the rounding of the grid.
use crate::math::vec3::{
    spec_dot, spec_reflect, spec_refract, spec_refract_along, spec_refract_cos, Vec3,
};
use crate::scalar::{
    floor_sqrt, lemma_floor_sqrt, lemma_one_is_neutral, lemma_product_sign, lemma_sqrt_range,
    magnitude, trunc_quot, Scalar, MAX_RAW, ONE_RAW,
};
use vstd::arithmetic::div_mod::{lemma_div_is_ordered, lemma_div_multiples_vanish};
use vstd::prelude::*;

verus! {

/// Whether each component of `v` lies between minus one and one.
pub open spec fn in_unit_box(v: Vec3) -> bool {
    &&& -ONE_RAW <= v.x.raw <= ONE_RAW
    &&& -ONE_RAW <= v.y.raw <= ONE_RAW
    &&& -ONE_RAW <= v.z.raw <= ONE_RAW
}

/// Whether each component of `v` lies within the range that the
/// operations keep to.
pub open spec fn in_range(v: Vec3) -> bool {
    -MAX_RAW <= v.x.raw && -MAX_RAW <= v.y.raw && -MAX_RAW <= v.z.raw
}

/// Whether each component of `a` lies within `steps` steps of the grid of
/// the same component of `b`.
pub open spec fn within_steps(a: Vec3, b: Vec3, steps: int) -> bool {
    &&& magnitude(a.x.raw - b.x.raw) <= steps
    &&& magnitude(a.y.raw - b.y.raw) <= steps
    &&& magnitude(a.z.raw - b.z.raw) <= steps
}

/// Whether each component of `c` lies between zero and one, as the
/// channels of a colour do.
pub open spec fn in_unit_range(c: Vec3) -> bool {
    &&& 0 <= c.x.raw <= ONE_RAW
    &&& 0 <= c.y.raw <= ONE_RAW
    &&& 0 <= c.z.raw <= ONE_RAW
}

/// The raw value of a product before it is saturated.
pub open spec fn raw_mul(x: int, y: int) -> int {
    trunc_quot(x * y, ONE_RAW as int)
}

/// What the rounding of a product takes away, in units of the exact
/// product of the raw values.
pub open spec fn rounding_loss(x: int, y: int) -> int {
    x * y - ONE_RAW * raw_mul(x, y)
}

/// A product is rounded by less than one step of the grid.
pub proof fn lemma_rounding_loss(x: int, y: int)
    ensures
        -ONE_RAW < rounding_loss(x, y) < ONE_RAW,
{
    let k = ONE_RAW as int;
    let m = magnitude(x * y);
    assert(m == k * (m / k) + m % k && 0 <= m % k < k) by {
        vstd::arithmetic::div_mod::lemma_fundamental_div_mod(m, k);
        vstd::arithmetic::div_mod::lemma_mod_pos_bound(m, k);
    }
}

/// A product whose exact value stays within `c` units stays within `c`.
pub proof fn lemma_raw_mul_bound(x: int, y: int, bx: int, by: int, c: int)
    requires
        -bx <= x <= bx,
        -by <= y <= by,
        bx * by <= c * ONE_RAW,
        0 <= c,
    ensures
        -c <= raw_mul(x, y) <= c,
        -bx * by <= x * y <= bx * by,
{
    let k = ONE_RAW as int;
    assert(-(bx * by) <= x * y <= bx * by && -bx * by == -(bx * by)) by (nonlinear_arith)
        requires
            -bx <= x <= bx,
            -by <= y <= by,
    ;
    let m = magnitude(x * y);
    assert(m <= c * k);
    lemma_div_is_ordered(m, c * k, k);
    lemma_div_multiples_vanish(c, k);
    assert(c * k == k * c) by (nonlinear_arith);
    assert(0 <= m / k) by {
        lemma_div_is_ordered(0, m, k);
    }
}

/// The reflection law on raw values: with `d = v . n`, `r = v - (2 d) n`
/// and `e = r . n`, each product rounded as the scalars round it, `e + d`
/// stays within six times the distance of `n . n` from one, and 27 steps.
pub proof fn lemma_reflect_bound_raw(v1: int, v2: int, v3: int, n1: int, n2: int, n3: int)
    requires
        -ONE_RAW <= v1 <= ONE_RAW,
        -ONE_RAW <= v2 <= ONE_RAW,
        -ONE_RAW <= v3 <= ONE_RAW,
        -ONE_RAW <= n1 <= ONE_RAW,
        -ONE_RAW <= n2 <= ONE_RAW,
        -ONE_RAW <= n3 <= ONE_RAW,
    ensures
        ({
            let d = raw_mul(v1, n1) + raw_mul(v2, n2) + raw_mul(v3, n3);
            let nn = raw_mul(n1, n1) + raw_mul(n2, n2) + raw_mul(n3, n3);
            let r1 = v1 - raw_mul(n1, 2 * d);
            let r2 = v2 - raw_mul(n2, 2 * d);
            let r3 = v3 - raw_mul(n3, 2 * d);
            let e = raw_mul(r1, n1) + raw_mul(r2, n2) + raw_mul(r3, n3);
            &&& magnitude(e + d) <= 6 * magnitude(nn - ONE_RAW) + 27
            &&& ONE_RAW * magnitude(e + d) <= 2 * (magnitude(d) * magnitude(nn - ONE_RAW)) + 27
                * ONE_RAW
        }),
{
    let k = ONE_RAW as int;
    let vn1 = raw_mul(v1, n1);
    let vn2 = raw_mul(v2, n2);
    let vn3 = raw_mul(v3, n3);
    let d = vn1 + vn2 + vn3;
    lemma_raw_mul_bound(v1, n1, k, k, k);
    lemma_raw_mul_bound(v2, n2, k, k, k);
    lemma_raw_mul_bound(v3, n3, k, k, k);
    let t1 = raw_mul(n1, n1);
    let t2 = raw_mul(n2, n2);
    let t3 = raw_mul(n3, n3);
    let nn = t1 + t2 + t3;
    let w1 = raw_mul(n1, 2 * d);
    let w2 = raw_mul(n2, 2 * d);
    let w3 = raw_mul(n3, 2 * d);
    let r1 = v1 - w1;
    let r2 = v2 - w2;
    let r3 = v3 - w3;
    let s1 = raw_mul(r1, n1);
    let s2 = raw_mul(r2, n2);
    let s3 = raw_mul(r3, n3);
    let e = s1 + s2 + s3;

    // What each rounding takes away.
    let a1 = rounding_loss(r1, n1);
    let a2 = rounding_loss(r2, n2);
    let a3 = rounding_loss(r3, n3);
    let b1 = rounding_loss(v1, n1);
    let b2 = rounding_loss(v2, n2);
    let b3 = rounding_loss(v3, n3);
    let c1 = rounding_loss(n1, 2 * d);
    let c2 = rounding_loss(n2, 2 * d);
    let c3 = rounding_loss(n3, 2 * d);
    let q1 = rounding_loss(n1, n1);
    let q2 = rounding_loss(n2, n2);
    let q3 = rounding_loss(n3, n3);
    lemma_rounding_loss(r1, n1);
    lemma_rounding_loss(r2, n2);
    lemma_rounding_loss(r3, n3);
    lemma_rounding_loss(v1, n1);
    lemma_rounding_loss(v2, n2);
    lemma_rounding_loss(v3, n3);
    lemma_rounding_loss(n1, 2 * d);
    lemma_rounding_loss(n2, 2 * d);
    lemma_rounding_loss(n3, 2 * d);
    lemma_rounding_loss(n1, n1);
    lemma_rounding_loss(n2, n2);
    lemma_rounding_loss(n3, n3);
    let la = a1 + a2 + a3;
    let lb = b1 + b2 + b3;
    let lq = q1 + q2 + q3;

    // k * e, with the products of the reflected vector written out.
    assert(k * e == r1 * n1 + r2 * n2 + r3 * n3 - la) by (nonlinear_arith)
        requires
            e == s1 + s2 + s3,
            la == a1 + a2 + a3,
            a1 == r1 * n1 - k * s1,
            a2 == r2 * n2 - k * s2,
            a3 == r3 * n3 - k * s3,
    ;
    assert(r1 * n1 + r2 * n2 + r3 * n3 == (v1 * n1 + v2 * n2 + v3 * n3) - (w1 * n1 + w2 * n2 + w3
        * n3)) by (nonlinear_arith)
        requires
            r1 == v1 - w1,
            r2 == v2 - w2,
            r3 == v3 - w3,
    ;
    assert(v1 * n1 + v2 * n2 + v3 * n3 == k * d + lb) by (nonlinear_arith)
        requires
            d == vn1 + vn2 + vn3,
            lb == b1 + b2 + b3,
            b1 == v1 * n1 - k * vn1,
            b2 == v2 * n2 - k * vn2,
            b3 == v3 * n3 - k * vn3,
    ;
    let wn = w1 * n1 + w2 * n2 + w3 * n3;
    assert(k * e == k * d + lb - wn - la);

    // k * (w . n), with the squares of the normal written out.
    let cn = c1 * n1 + c2 * n2 + c3 * n3;
    let sq = n1 * n1 + n2 * n2 + n3 * n3;
    assert(k * (w1 * n1) == 2 * (d * (n1 * n1)) - c1 * n1) by (nonlinear_arith)
        requires
            c1 == n1 * (2 * d) - k * w1,
    ;
    assert(k * (w2 * n2) == 2 * (d * (n2 * n2)) - c2 * n2) by (nonlinear_arith)
        requires
            c2 == n2 * (2 * d) - k * w2,
    ;
    assert(k * (w3 * n3) == 2 * (d * (n3 * n3)) - c3 * n3) by (nonlinear_arith)
        requires
            c3 == n3 * (2 * d) - k * w3,
    ;
    assert(k * wn == k * (w1 * n1) + k * (w2 * n2) + k * (w3 * n3)) by (nonlinear_arith)
        requires
            wn == w1 * n1 + w2 * n2 + w3 * n3,
    ;
    assert(d * sq == d * (n1 * n1) + d * (n2 * n2) + d * (n3 * n3)) by (nonlinear_arith)
        requires
            sq == n1 * n1 + n2 * n2 + n3 * n3,
    ;
    assert(k * wn == 2 * (d * sq) - cn);
    assert(sq == k * nn + lq) by (nonlinear_arith)
        requires
            sq == n1 * n1 + n2 * n2 + n3 * n3,
            nn == t1 + t2 + t3,
            lq == q1 + q2 + q3,
            q1 == n1 * n1 - k * t1,
            q2 == n2 * n2 - k * t2,
            q3 == n3 * n3 - k * t3,
    ;
    let x = e + d;
    let gap = k - nn;
    assert(k * (k * x) == 2 * k * (d * gap) + k * (lb - la) - 2 * (d * lq) + cn) by (nonlinear_arith)
        requires
            x == e + d,
            gap == k - nn,
            k * e == k * d + lb - wn - la,
            k * wn == 2 * (d * sq) - cn,
            sq == k * nn + lq,
    ;

    // The size of each part.
    assert(-3 * k <= d <= 3 * k);
    assert(-3 * k * magnitude(gap) <= d * gap <= 3 * k * magnitude(gap)) by (nonlinear_arith)
        requires
            -3 * k <= d <= 3 * k,
            0 < k,
    ;
    assert(-3 * k * (3 * k) <= d * lq <= 3 * k * (3 * k)) by (nonlinear_arith)
        requires
            -3 * k <= d <= 3 * k,
            -3 * k <= lq <= 3 * k,
            0 < k,
    ;
    assert(-k * k <= c1 * n1 <= k * k) by (nonlinear_arith)
        requires
            -k <= c1 <= k,
            -k <= n1 <= k,
    ;
    assert(-k * k <= c2 * n2 <= k * k) by (nonlinear_arith)
        requires
            -k <= c2 <= k,
            -k <= n2 <= k,
    ;
    assert(-k * k <= c3 * n3 <= k * k) by (nonlinear_arith)
        requires
            -k <= c3 <= k,
            -k <= n3 <= k,
    ;
    let g = magnitude(gap);
    let kk = k * k;
    assert(-(6 * g + 27) * kk < k * (k * x) < (6 * g + 27) * kk) by (nonlinear_arith)
        requires
            k * (k * x) == 2 * k * (d * gap) + k * (lb - la) - 2 * (d * lq) + cn,
            -3 * k * g <= d * gap <= 3 * k * g,
            -6 * k < lb - la < 6 * k,
            -3 * k * (3 * k) <= d * lq <= 3 * k * (3 * k),
            -3 * kk <= cn <= 3 * kk,
            kk == k * k,
            0 < k,
            0 <= g,
    ;
    assert(-(6 * g + 27) < x < 6 * g + 27) by (nonlinear_arith)
        requires
            -(6 * g + 27) * kk < k * (k * x) < (6 * g + 27) * kk,
            kk == k * k,
            0 < k,
    ;
    assert(magnitude(nn - ONE_RAW) == g);
    let dg = d * gap;
    assert(-(27 * kk) < k * (k * x) - 2 * k * dg < 27 * kk);
    assert(-(27 * k) < k * x - 2 * dg < 27 * k) by (nonlinear_arith)
        requires
            -(27 * kk) < k * (k * x) - 2 * k * dg < 27 * kk,
            kk == k * k,
            0 < k,
    ;
    lemma_product_sign(d, gap);
    assert(k * magnitude(x) == magnitude(k * x)) by (nonlinear_arith)
        requires
            0 < k,
    ;
}

/// Reflection turns the component along the normal around: for `v` and `n`
/// with components between minus one and one, `reflect(v, n) . n` and
/// `-(v . n)` differ by at most 27 steps of the grid and six times the
/// distance of `n . n` from one; more closely, by 27 steps and twice that
/// distance times the magnitude of `v . n`. For a unit normal that is the
/// rounding
/// alone.
pub proof fn lemma_reflect_turns_normal_component(v: Vec3, n: Vec3)
    requires
        in_unit_box(v),
        in_unit_box(n),
    ensures
        magnitude(spec_dot(spec_reflect(v, n), n).raw + spec_dot(v, n).raw) <= 6 * magnitude(
            n.spec_length_squared().raw - ONE_RAW,
        ) + 27,
        ONE_RAW * magnitude(spec_dot(spec_reflect(v, n), n).raw + spec_dot(v, n).raw) <= 2 * (
        magnitude(spec_dot(v, n).raw as int) * magnitude(n.spec_length_squared().raw - ONE_RAW))
            + 27 * ONE_RAW,
{
    let k = ONE_RAW as int;
    let (v1, v2, v3) = (v.x.raw as int, v.y.raw as int, v.z.raw as int);
    let (n1, n2, n3) = (n.x.raw as int, n.y.raw as int, n.z.raw as int);
    lemma_reflect_bound_raw(v1, v2, v3, n1, n2, n3);
    lemma_raw_mul_bound(v1, n1, k, k, k);
    lemma_raw_mul_bound(v2, n2, k, k, k);
    lemma_raw_mul_bound(v3, n3, k, k, k);
    lemma_raw_mul_bound(n1, n1, k, k, k);
    lemma_raw_mul_bound(n2, n2, k, k, k);
    lemma_raw_mul_bound(n3, n3, k, k, k);
    let d = spec_dot(v, n);
    assert(d.raw == raw_mul(v1, n1) + raw_mul(v2, n2) + raw_mul(v3, n3));
    assert(n.spec_length_squared().raw == raw_mul(n1, n1) + raw_mul(n2, n2) + raw_mul(n3, n3));
    let two_d = Scalar::spec_from_int(2) * d;
    assert(two_d.raw == 2 * d.raw) by {
        assert((2 * k) * d.raw == k * (2 * d.raw)) by (nonlinear_arith);
        assert(magnitude(k * (2 * d.raw)) == k * magnitude(2 * d.raw)) by (nonlinear_arith)
            requires
                k > 0,
        ;
        lemma_div_multiples_vanish(magnitude(2 * d.raw), k);
    }
    lemma_raw_mul_bound(n1, 2 * d.raw, k, 6 * k, 6 * k);
    lemma_raw_mul_bound(n2, 2 * d.raw, k, 6 * k, 6 * k);
    lemma_raw_mul_bound(n3, 2 * d.raw, k, 6 * k, 6 * k);
    let w = n.spec_scale(two_d);
    assert(w.x.raw == raw_mul(n1, 2 * d.raw));
    assert(w.y.raw == raw_mul(n2, 2 * d.raw));
    assert(w.z.raw == raw_mul(n3, 2 * d.raw));
    let r = spec_reflect(v, n);
    assert(r == v - w);
    let (r1, r2, r3) = (v1 - w.x.raw, v2 - w.y.raw, v3 - w.z.raw);
    assert(r.x.raw == r1 && r.y.raw == r2 && r.z.raw == r3);
    lemma_raw_mul_bound(r1, n1, 7 * k, k, 7 * k);
    lemma_raw_mul_bound(r2, n2, 7 * k, k, 7 * k);
    lemma_raw_mul_bound(r3, n3, 7 * k, k, 7 * k);
    assert(spec_dot(r, n).raw == raw_mul(r1, n1) + raw_mul(r2, n2) + raw_mul(r3, n3));
}

/// The dot product with a negated vector is the negated dot product.
pub proof fn lemma_dot_of_negation(u: Vec3, v: Vec3)
    requires
        in_range(v),
    ensures
        spec_dot(u, v.spec_neg()) == spec_dot(u, v).spec_neg(),
{
    assert(u.x.raw * (-v.x.raw) == -(u.x.raw * v.x.raw)) by (nonlinear_arith);
    assert(u.y.raw * (-v.y.raw) == -(u.y.raw * v.y.raw)) by (nonlinear_arith);
    assert(u.z.raw * (-v.z.raw) == -(u.z.raw * v.z.raw)) by (nonlinear_arith);
}

/// Two products with a common factor of at most one differ by at most one
/// step more than the other factors do.
pub proof fn lemma_raw_mul_lipschitz(x: int, y1: int, y2: int)
    requires
        -ONE_RAW <= x <= ONE_RAW,
    ensures
        magnitude(raw_mul(x, y1) - raw_mul(x, y2)) <= magnitude(y1 - y2) + 1,
{
    let k = ONE_RAW as int;
    let m1 = raw_mul(x, y1);
    let m2 = raw_mul(x, y2);
    let l1 = rounding_loss(x, y1);
    let l2 = rounding_loss(x, y2);
    lemma_rounding_loss(x, y1);
    lemma_rounding_loss(x, y2);
    let g = magnitude(y1 - y2);
    assert(x * y1 - x * y2 == x * (y1 - y2)) by (nonlinear_arith);
    assert(-k * g <= x * (y1 - y2) <= k * g) by (nonlinear_arith)
        requires
            -k <= x <= k,
            g == magnitude(y1 - y2),
            0 < k,
    ;
    assert(k * (m1 - m2) == x * (y1 - y2) - (l1 - l2)) by (nonlinear_arith)
        requires
            l1 == x * y1 - k * m1,
            l2 == x * y2 - k * m2,
            x * y1 - x * y2 == x * (y1 - y2),
    ;
    assert(-(g + 2) < m1 - m2 < g + 2) by (nonlinear_arith)
        requires
            k * (m1 - m2) == x * (y1 - y2) - (l1 - l2),
            -k * g <= x * (y1 - y2) <= k * g,
            -2 * k < l1 - l2 < 2 * k,
            0 < k,
    ;
}

/// Refraction between equal indices keeps the direction, up to the
/// rounding of the angle: for `uv` and `n` with components between minus
/// one and one, each component of `refract(uv, n, 1)` lies within one step
/// of the grid, and the difference of the two cosines that refraction
/// works with, of the same component of `uv`.
pub proof fn lemma_refract_between_equal_indices(uv: Vec3, n: Vec3)
    requires
        in_unit_box(uv),
        in_unit_box(n),
    ensures
        within_steps(
            spec_refract(uv, n, Scalar::spec_one()),
            uv,
            magnitude(
                spec_refract_cos(uv, n).raw - spec_refract_along(uv, n, Scalar::spec_one()).raw,
            ) + 1,
        ),
{
    let k = ONE_RAW as int;
    let one = Scalar::spec_one();
    let (u1, u2, u3) = (uv.x.raw as int, uv.y.raw as int, uv.z.raw as int);
    let (n1, n2, n3) = (n.x.raw as int, n.y.raw as int, n.z.raw as int);
    let c = spec_refract_cos(uv, n);
    lemma_raw_mul_bound(-u1, n1, k, k, k);
    lemma_raw_mul_bound(-u2, n2, k, k, k);
    lemma_raw_mul_bound(-u3, n3, k, k, k);
    assert(-3 * k <= c.raw <= k);
    lemma_raw_mul_bound(n1, c.raw as int, k, 3 * k, 3 * k);
    lemma_raw_mul_bound(n2, c.raw as int, k, 3 * k, 3 * k);
    lemma_raw_mul_bound(n3, c.raw as int, k, 3 * k, 3 * k);
    let inner = uv + n.spec_scale(c);
    assert(inner.x.raw == u1 + raw_mul(n1, c.raw as int));
    assert(inner.y.raw == u2 + raw_mul(n2, c.raw as int));
    assert(inner.z.raw == u3 + raw_mul(n3, c.raw as int));
    lemma_one_is_neutral(inner.x);
    lemma_one_is_neutral(inner.y);
    lemma_one_is_neutral(inner.z);
    let perp = inner.spec_scale(one);
    assert(perp == inner);
    lemma_raw_mul_bound(perp.x.raw as int, perp.x.raw as int, 4 * k, 4 * k, 16 * k);
    lemma_raw_mul_bound(perp.y.raw as int, perp.y.raw as int, 4 * k, 4 * k, 16 * k);
    lemma_raw_mul_bound(perp.z.raw as int, perp.z.raw as int, 4 * k, 4 * k, 16 * k);
    let rest = (Scalar::spec_from_int(1) - perp.spec_length_squared()).spec_abs();
    assert(0 <= rest.raw <= 49 * k);
    let s = spec_refract_along(uv, n, one);
    assert(s == rest.spec_sqrt());
    lemma_sqrt_range(rest);
    lemma_floor_sqrt(rest.raw * ONE_RAW);
    assert(s.raw <= 7 * k) by (nonlinear_arith)
        requires
            0 <= s.raw,
            s.raw * s.raw <= rest.raw * k,
            0 <= rest.raw <= 49 * k,
            0 < k,
    ;
    let back = s.spec_neg();
    assert(back.raw == -s.raw);
    lemma_raw_mul_bound(n1, s.raw as int, k, 7 * k, 7 * k);
    lemma_raw_mul_bound(n2, s.raw as int, k, 7 * k, 7 * k);
    lemma_raw_mul_bound(n3, s.raw as int, k, 7 * k, 7 * k);
    assert(raw_mul(n1, -s.raw) == -raw_mul(n1, s.raw as int)) by {
        assert(n1 * (-s.raw) == -(n1 * s.raw)) by (nonlinear_arith);
    }
    assert(raw_mul(n2, -s.raw) == -raw_mul(n2, s.raw as int)) by {
        assert(n2 * (-s.raw) == -(n2 * s.raw)) by (nonlinear_arith);
    }
    assert(raw_mul(n3, -s.raw) == -raw_mul(n3, s.raw as int)) by {
        assert(n3 * (-s.raw) == -(n3 * s.raw)) by (nonlinear_arith);
    }
    let along = n.spec_scale(back);
    assert(along.x.raw == -raw_mul(n1, s.raw as int));
    assert(along.y.raw == -raw_mul(n2, s.raw as int));
    assert(along.z.raw == -raw_mul(n3, s.raw as int));
    let out = spec_refract(uv, n, one);
    assert(out == perp + along);
    lemma_raw_mul_lipschitz(n1, c.raw as int, s.raw as int);
    lemma_raw_mul_lipschitz(n2, c.raw as int, s.raw as int);
    lemma_raw_mul_lipschitz(n3, c.raw as int, s.raw as int);
}

/// The rounding of a square takes away less than one step, and never adds.
pub proof fn lemma_square_loss(x: int)
    ensures
        0 <= rounding_loss(x, x) < ONE_RAW,
        0 <= raw_mul(x, x),
{
    let k = ONE_RAW as int;
    lemma_product_sign(x, x);
    let m = x * x;
    assert(m == k * (m / k) + m % k && 0 <= m % k < k && 0 <= m / k) by {
        vstd::arithmetic::div_mod::lemma_fundamental_div_mod(m, k);
        vstd::arithmetic::div_mod::lemma_mod_pos_bound(m, k);
        lemma_div_is_ordered(0, m, k);
    }
}

/// The square of `k * a` for `a = u + m`, where `m` is the rounded product
/// of `n` and `c` and `l` is what its rounding took away, written out.
proof fn lemma_component_square(k: int, u: int, n: int, c: int, l: int, m: int, a: int)
    requires
        a == u + m,
        l == n * c - k * m,
    ensures
        (k * k) * (a * a) == (k * k) * (u * u) + 2 * (k * (c * (u * n)) - k * (u * l)) + ((c * c) * (n
            * n) - 2 * (c * (n * l)) + l * l),
{
    let e = n * c - l;
    assert(k * a == k * u + e) by (nonlinear_arith)
        requires
            a == u + m,
            e == n * c - l,
            l == n * c - k * m,
    ;
    assert((k * k) * (a * a) == (k * a) * (k * a)) by (nonlinear_arith);
    assert((k * u + e) * (k * u + e) == (k * k) * (u * u) + 2 * (k * (u * e)) + e * e)
        by (nonlinear_arith);
    assert(u * e == c * (u * n) - u * l) by (nonlinear_arith)
        requires
            e == n * c - l,
    ;
    assert(k * (u * e) == k * (c * (u * n)) - k * (u * l)) by (nonlinear_arith)
        requires
            u * e == c * (u * n) - u * l,
    ;
    assert(e * e == (c * c) * (n * n) - 2 * (c * (n * l)) + l * l) by (nonlinear_arith)
        requires
            e == n * c - l,
    ;
}

/// How far refraction between equal indices may move a component of the
/// direction, in steps of the grid: two steps, and the square root of the
/// distances of `uv . uv` and `n . n` from one, plus 27 steps, counted in
/// steps of the grid.
pub open spec fn refract_tolerance(uv: Vec3, n: Vec3) -> int {
    floor_sqrt(
        ONE_RAW * (magnitude(uv.spec_length_squared().raw - ONE_RAW) + magnitude(
            n.spec_length_squared().raw - ONE_RAW,
        ) + 27),
    ) + 2
}

/// The two cosines of refraction on raw values: with `c = -(u . n)`
/// between zero and one, `a = u + c n` and `s = sqrt(|1 - a . a|)`, each
/// product rounded as the scalars round it, `s` and `c` differ by at most
/// one step and the square root of the distances of `u . u` and `n . n`
/// from one, plus 27 steps.
pub proof fn lemma_refract_cosines_raw(u1: int, u2: int, u3: int, n1: int, n2: int, n3: int)
    requires
        -ONE_RAW <= u1 <= ONE_RAW,
        -ONE_RAW <= u2 <= ONE_RAW,
        -ONE_RAW <= u3 <= ONE_RAW,
        -ONE_RAW <= n1 <= ONE_RAW,
        -ONE_RAW <= n2 <= ONE_RAW,
        -ONE_RAW <= n3 <= ONE_RAW,
        0 <= -(raw_mul(u1, n1) + raw_mul(u2, n2) + raw_mul(u3, n3)) <= ONE_RAW,
    ensures
        ({
            let c = -(raw_mul(u1, n1) + raw_mul(u2, n2) + raw_mul(u3, n3));
            let a1 = u1 + raw_mul(n1, c);
            let a2 = u2 + raw_mul(n2, c);
            let a3 = u3 + raw_mul(n3, c);
            let pp = raw_mul(a1, a1) + raw_mul(a2, a2) + raw_mul(a3, a3);
            let uu = raw_mul(u1, u1) + raw_mul(u2, u2) + raw_mul(u3, u3);
            let nn = raw_mul(n1, n1) + raw_mul(n2, n2) + raw_mul(n3, n3);
            let s = floor_sqrt(magnitude(ONE_RAW - pp) * ONE_RAW);
            magnitude(s - c) <= floor_sqrt(
                ONE_RAW * (magnitude(uu - ONE_RAW) + magnitude(nn - ONE_RAW) + 27),
            ) + 1
        }),
{
    let k = ONE_RAW as int;
    let g1 = raw_mul(u1, n1);
    let g2 = raw_mul(u2, n2);
    let g3 = raw_mul(u3, n3);
    let b1 = rounding_loss(u1, n1);
    let b2 = rounding_loss(u2, n2);
    let b3 = rounding_loss(u3, n3);
    lemma_rounding_loss(u1, n1);
    lemma_rounding_loss(u2, n2);
    lemma_rounding_loss(u3, n3);
    let c = -(g1 + g2 + g3);
    let cc = c * c;
    let m1 = raw_mul(n1, c);
    let m2 = raw_mul(n2, c);
    let m3 = raw_mul(n3, c);
    let l1 = rounding_loss(n1, c);
    let l2 = rounding_loss(n2, c);
    let l3 = rounding_loss(n3, c);
    lemma_rounding_loss(n1, c);
    lemma_rounding_loss(n2, c);
    lemma_rounding_loss(n3, c);
    let a1 = u1 + m1;
    let a2 = u2 + m2;
    let a3 = u3 + m3;
    let pp = raw_mul(a1, a1) + raw_mul(a2, a2) + raw_mul(a3, a3);
    let uu = raw_mul(u1, u1) + raw_mul(u2, u2) + raw_mul(u3, u3);
    let nn = raw_mul(n1, n1) + raw_mul(n2, n2) + raw_mul(n3, n3);
    lemma_square_loss(a1);
    lemma_square_loss(a2);
    lemma_square_loss(a3);
    lemma_square_loss(u1);
    lemma_square_loss(u2);
    lemma_square_loss(u3);
    lemma_square_loss(n1);
    lemma_square_loss(n2);
    lemma_square_loss(n3);
    let lp = rounding_loss(a1, a1) + rounding_loss(a2, a2) + rounding_loss(a3, a3);
    let lu = rounding_loss(u1, u1) + rounding_loss(u2, u2) + rounding_loss(u3, u3);
    let ln = rounding_loss(n1, n1) + rounding_loss(n2, n2) + rounding_loss(n3, n3);
    let lb = b1 + b2 + b3;

    // The sums of products that the algebra works with.
    let s_aa = a1 * a1 + a2 * a2 + a3 * a3;
    let s_uu = u1 * u1 + u2 * u2 + u3 * u3;
    let s_nn = n1 * n1 + n2 * n2 + n3 * n3;
    let s_un = u1 * n1 + u2 * n2 + u3 * n3;
    let s_ul = u1 * l1 + u2 * l2 + u3 * l3;
    let s_nl = n1 * l1 + n2 * l2 + n3 * l3;
    let s_ll = l1 * l1 + l2 * l2 + l3 * l3;
    assert(s_aa == k * pp + lp);
    assert(s_uu == k * uu + lu);
    assert(s_nn == k * nn + ln);
    assert(s_un == -(k * c) + lb) by (nonlinear_arith)
        requires
            s_un == u1 * n1 + u2 * n2 + u3 * n3,
            b1 == u1 * n1 - k * g1,
            b2 == u2 * n2 - k * g2,
            b3 == u3 * n3 - k * g3,
            c == -(g1 + g2 + g3),
            lb == b1 + b2 + b3,
    ;

    // k^2 a_i^2, component by component, and their sum.
    let kk = k * k;
    lemma_component_square(k, u1, n1, c, l1, m1, a1);
    lemma_component_square(k, u2, n2, c, l2, m2, a2);
    lemma_component_square(k, u3, n3, c, l3, m3, a3);
    assert(kk * s_aa == kk * (a1 * a1) + kk * (a2 * a2) + kk * (a3 * a3)) by (nonlinear_arith)
        requires
            s_aa == a1 * a1 + a2 * a2 + a3 * a3,
    ;
    assert(kk * s_uu == kk * (u1 * u1) + kk * (u2 * u2) + kk * (u3 * u3)) by (nonlinear_arith)
        requires
            s_uu == u1 * u1 + u2 * u2 + u3 * u3,
    ;
    assert(c * s_un == c * (u1 * n1) + c * (u2 * n2) + c * (u3 * n3)) by (nonlinear_arith)
        requires
            s_un == u1 * n1 + u2 * n2 + u3 * n3,
    ;
    assert(cc * s_nn == cc * (n1 * n1) + cc * (n2 * n2) + cc * (n3 * n3)) by (nonlinear_arith)
        requires
            s_nn == n1 * n1 + n2 * n2 + n3 * n3,
    ;
    assert(c * s_nl == c * (n1 * l1) + c * (n2 * l2) + c * (n3 * l3)) by (nonlinear_arith)
        requires
            s_nl == n1 * l1 + n2 * l2 + n3 * l3,
    ;
    let inner_sum = c * s_un - s_ul;
    assert(k * inner_sum == k * (c * (u1 * n1)) - k * (u1 * l1) + k * (c * (u2 * n2)) - k * (u2
        * l2) + k * (c * (u3 * n3)) - k * (u3 * l3)) by (nonlinear_arith)
        requires
            inner_sum == c * s_un - s_ul,
            c * s_un == c * (u1 * n1) + c * (u2 * n2) + c * (u3 * n3),
            s_ul == u1 * l1 + u2 * l2 + u3 * l3,
    ;
    assert(kk * s_aa == kk * s_uu + 2 * (k * inner_sum) + (cc * s_nn - 2 * (c * s_nl) + s_ll));

    // The same with the rounded sums put in.
    let y = k * (k - pp);
    let t_clb = c * lb;
    let t_ccln = cc * ln;
    let t_csnl = c * s_nl;
    let rest = kk * (lp - lu) - 2 * (k * t_clb) + 2 * (k * s_ul) - t_ccln + 2 * t_csnl - s_ll;
    assert(kk * (y - cc) == kk * (k * (k - uu)) + k * (cc * (k - nn)) + rest) by (nonlinear_arith)
        requires
            kk * s_aa == kk * s_uu + 2 * (k * inner_sum) + (cc * s_nn - 2 * t_csnl + s_ll),
            inner_sum == c * s_un - s_ul,
            s_aa == k * pp + lp,
            s_uu == k * uu + lu,
            s_nn == k * nn + ln,
            s_un == -(k * c) + lb,
            cc == c * c,
            kk == k * k,
            y == k * (k - pp),
            t_clb == c * lb,
            t_ccln == cc * ln,
            rest == kk * (lp - lu) - 2 * (k * t_clb) + 2 * (k * s_ul) - t_ccln + 2 * t_csnl - s_ll,
    ;

    // The size of each part.
    let kkk = kk * k;
    assert(0 <= cc <= kk) by (nonlinear_arith)
        requires
            0 <= c <= k,
            cc == c * c,
            kk == k * k,
    ;
    assert(-3 * kkk < kk * (lp - lu) < 3 * kkk) by (nonlinear_arith)
        requires
            -3 * k < lp - lu < 3 * k,
            kk == k * k,
            kkk == kk * k,
            0 < k,
    ;
    assert(-3 * kk <= c * lb <= 3 * kk) by (nonlinear_arith)
        requires
            0 <= c <= k,
            -3 * k <= lb <= 3 * k,
            kk == k * k,
    ;
    assert(-kk <= u1 * l1 <= kk && -kk <= u2 * l2 <= kk && -kk <= u3 * l3 <= kk) by (nonlinear_arith)
        requires
            -k <= u1 <= k,
            -k <= u2 <= k,
            -k <= u3 <= k,
            -k <= l1 <= k,
            -k <= l2 <= k,
            -k <= l3 <= k,
            kk == k * k,
    ;
    assert(-kk <= n1 * l1 <= kk && -kk <= n2 * l2 <= kk && -kk <= n3 * l3 <= kk) by (nonlinear_arith)
        requires
            -k <= n1 <= k,
            -k <= n2 <= k,
            -k <= n3 <= k,
            -k <= l1 <= k,
            -k <= l2 <= k,
            -k <= l3 <= k,
            kk == k * k,
    ;
    assert(0 <= l1 * l1 <= kk && 0 <= l2 * l2 <= kk && 0 <= l3 * l3 <= kk) by (nonlinear_arith)
        requires
            -k <= l1 <= k,
            -k <= l2 <= k,
            -k <= l3 <= k,
            kk == k * k,
    ;
    assert(0 <= t_ccln <= 3 * kkk) by (nonlinear_arith)
        requires
            t_ccln == cc * ln,
            0 <= cc <= kk,
            0 <= ln <= 3 * k,
            kkk == kk * k,
            0 < k,
    ;
    assert(-3 * kkk <= t_csnl <= 3 * kkk) by (nonlinear_arith)
        requires
            t_csnl == c * s_nl,
            0 <= c <= k,
            -3 * kk <= s_nl <= 3 * kk,
            kkk == kk * k,
            kk == k * k,
    ;
    assert(-3 * kkk <= k * t_clb <= 3 * kkk && -3 * kkk <= k * s_ul <= 3 * kkk && s_ll <= 3 * kkk)
        by (nonlinear_arith)
        requires
            t_clb == c * lb,
            -3 * kk <= c * lb <= 3 * kk,
            -3 * kk <= s_ul <= 3 * kk,
            0 <= s_ll <= 3 * kk,
            kkk == kk * k,
            kk == k * k,
            1 <= k,
    ;
    assert(-27 * kkk < rest < 27 * kkk);
    let gu = magnitude(uu - k);
    let gn = magnitude(nn - k);
    let w = gu + gn + 27;
    assert(-gu * kkk <= kk * (k * (k - uu)) <= gu * kkk) by (nonlinear_arith)
        requires
            gu == magnitude(uu - k),
            kkk == kk * k,
            kk == k * k,
            0 < k,
    ;
    assert(-gn * kkk <= k * (cc * (k - nn)) <= gn * kkk) by (nonlinear_arith)
        requires
            gn == magnitude(nn - k),
            0 <= cc <= kk,
            kkk == kk * k,
            kk == k * k,
            0 < k,
    ;
    assert(-(k * w) < y - cc < k * w) by (nonlinear_arith)
        requires
            kk * (y - cc) == kk * (k * (k - uu)) + k * (cc * (k - nn)) + rest,
            -gu * kkk <= kk * (k * (k - uu)) <= gu * kkk,
            -gn * kkk <= k * (cc * (k - nn)) <= gn * kkk,
            -27 * kkk < rest < 27 * kkk,
            w == gu + gn + 27,
            kkk == kk * k,
            kk == k * k,
            0 < k,
    ;

    // From the squares to the roots.
    let x = magnitude(k - pp) * k;
    assert(x == magnitude(y)) by (nonlinear_arith)
        requires
            x == magnitude(k - pp) * k,
            y == k * (k - pp),
            0 < k,
    ;
    assert(-(k * w) < x - cc < k * w);
    let s = floor_sqrt(x);
    let t = floor_sqrt(k * w);
    assert(0 <= k * w) by (nonlinear_arith)
        requires
            0 < k,
            0 <= w,
    ;
    lemma_floor_sqrt(x);
    lemma_floor_sqrt(k * w);
    assert(s - c <= t + 1) by (nonlinear_arith)
        requires
            0 <= s,
            0 <= c,
            0 <= t,
            s * s <= x,
            k * w < (t + 1) * (t + 1),
            x - c * c < k * w,
    ;
    assert(c - s <= t + 1) by (nonlinear_arith)
        requires
            0 <= s,
            0 <= c,
            0 <= t,
            x < (s + 1) * (s + 1),
            k * w < (t + 1) * (t + 1),
            c * c - x < k * w,
    ;
}

/// Refraction between equal indices keeps the direction, within the
/// tolerance of the rounding: for `uv` and `n` with components between
/// minus one and one, and a cosine `-uv . n` between zero and one, each
/// component of `refract(uv, n, 1)` lies within `refract_tolerance(uv, n)`
/// steps of the grid of the same component of `uv`.
pub proof fn lemma_refract_keeps_direction(uv: Vec3, n: Vec3)
    requires
        in_unit_box(uv),
        in_unit_box(n),
        0 <= spec_dot(uv.spec_neg(), n).raw <= ONE_RAW,
    ensures
        within_steps(spec_refract(uv, n, Scalar::spec_one()), uv, refract_tolerance(uv, n)),
{
    let k = ONE_RAW as int;
    let one = Scalar::spec_one();
    let (u1, u2, u3) = (uv.x.raw as int, uv.y.raw as int, uv.z.raw as int);
    let (n1, n2, n3) = (n.x.raw as int, n.y.raw as int, n.z.raw as int);
    lemma_refract_between_equal_indices(uv, n);
    lemma_raw_mul_bound(u1, n1, k, k, k);
    lemma_raw_mul_bound(u2, n2, k, k, k);
    lemma_raw_mul_bound(u3, n3, k, k, k);
    lemma_dot_of_negation(n, uv);
    assert(raw_mul(-u1, n1) == -raw_mul(u1, n1)) by {
        assert((-u1) * n1 == -(u1 * n1)) by (nonlinear_arith);
    }
    assert(raw_mul(-u2, n2) == -raw_mul(u2, n2)) by {
        assert((-u2) * n2 == -(u2 * n2)) by (nonlinear_arith);
    }
    assert(raw_mul(-u3, n3) == -raw_mul(u3, n3)) by {
        assert((-u3) * n3 == -(u3 * n3)) by (nonlinear_arith);
    }
    let c = spec_refract_cos(uv, n);
    assert(c.raw == -(raw_mul(u1, n1) + raw_mul(u2, n2) + raw_mul(u3, n3)));
    lemma_refract_cosines_raw(u1, u2, u3, n1, n2, n3);
    lemma_raw_mul_bound(n1, c.raw as int, k, k, k);
    lemma_raw_mul_bound(n2, c.raw as int, k, k, k);
    lemma_raw_mul_bound(n3, c.raw as int, k, k, k);
    let inner = uv + n.spec_scale(c);
    assert(inner.x.raw == u1 + raw_mul(n1, c.raw as int));
    assert(inner.y.raw == u2 + raw_mul(n2, c.raw as int));
    assert(inner.z.raw == u3 + raw_mul(n3, c.raw as int));
    lemma_one_is_neutral(inner.x);
    lemma_one_is_neutral(inner.y);
    lemma_one_is_neutral(inner.z);
    let perp = inner.spec_scale(one);
    assert(perp == inner);
    lemma_raw_mul_bound(perp.x.raw as int, perp.x.raw as int, 2 * k, 2 * k, 4 * k);
    lemma_raw_mul_bound(perp.y.raw as int, perp.y.raw as int, 2 * k, 2 * k, 4 * k);
    lemma_raw_mul_bound(perp.z.raw as int, perp.z.raw as int, 2 * k, 2 * k, 4 * k);
    lemma_raw_mul_bound(u1, u1, k, k, k);
    lemma_raw_mul_bound(u2, u2, k, k, k);
    lemma_raw_mul_bound(u3, u3, k, k, k);
    lemma_raw_mul_bound(n1, n1, k, k, k);
    lemma_raw_mul_bound(n2, n2, k, k, k);
    lemma_raw_mul_bound(n3, n3, k, k, k);
    let pp = perp.spec_length_squared();
    assert(pp.raw == raw_mul(perp.x.raw as int, perp.x.raw as int) + raw_mul(
        perp.y.raw as int,
        perp.y.raw as int,
    ) + raw_mul(perp.z.raw as int, perp.z.raw as int));
    let rest = (Scalar::spec_from_int(1) - pp).spec_abs();
    assert(rest.raw == magnitude(ONE_RAW - pp.raw));
    let s = spec_refract_along(uv, n, one);
    assert(s == rest.spec_sqrt());
    lemma_sqrt_range(rest);
    assert(s.raw == floor_sqrt(magnitude(ONE_RAW - pp.raw) * ONE_RAW));
}

/// The product of two numbers between zero and one lies between zero and
/// the second of them.
pub proof fn lemma_mul_in_unit_range(x: Scalar, y: Scalar)
    requires
        0 <= x.raw <= ONE_RAW,
        0 <= y.raw <= ONE_RAW,
    ensures
        0 <= (x * y).raw <= y.raw,
{
    let k = ONE_RAW as int;
    lemma_product_sign(x.raw as int, y.raw as int);
    assert(0 <= x.raw * y.raw <= k * y.raw) by (nonlinear_arith)
        requires
            0 <= x.raw <= k,
            0 <= y.raw,
    ;
    lemma_div_is_ordered(x.raw * y.raw, k * y.raw, k);
    lemma_div_multiples_vanish(y.raw as int, k);
    lemma_div_is_ordered(0, x.raw * y.raw, k);
}

/// The product of two colours is a colour.
pub proof fn lemma_product_in_unit_range(a: Vec3, b: Vec3)
    requires
        in_unit_range(a),
        in_unit_range(b),
    ensures
        in_unit_range(a * b),
{
    lemma_mul_in_unit_range(a.x, b.x);
    lemma_mul_in_unit_range(a.y, b.y);
    lemma_mul_in_unit_range(a.z, b.z);
}

/// How far the laws of reflection may be off for the normal `n`, in steps
/// of the grid: 27 steps, and six times the distance of `n . n` from one.
pub open spec fn reflect_tolerance(n: Vec3) -> int {
    6 * magnitude(n.spec_length_squared().raw - ONE_RAW) + 27
}

/// Reflecting twice gives the vector back: for `v` and `n` with components
/// between minus one and one, each component of the mirror image of the
/// mirror image lies within one step and twice `reflect_tolerance(n)` of
/// the same component of `v`.
pub proof fn lemma_reflect_twice(v: Vec3, n: Vec3)
    requires
        in_unit_box(v),
        in_unit_box(n),
    ensures
        within_steps(spec_reflect(spec_reflect(v, n), n), v, 2 * reflect_tolerance(n) + 1),
{
    let k = ONE_RAW as int;
    let (v1, v2, v3) = (v.x.raw as int, v.y.raw as int, v.z.raw as int);
    let (n1, n2, n3) = (n.x.raw as int, n.y.raw as int, n.z.raw as int);
    lemma_reflect_turns_normal_component(v, n);
    lemma_raw_mul_bound(v1, n1, k, k, k);
    lemma_raw_mul_bound(v2, n2, k, k, k);
    lemma_raw_mul_bound(v3, n3, k, k, k);
    let d = spec_dot(v, n);
    let two_d = Scalar::spec_from_int(2) * d;
    assert(two_d.raw == 2 * d.raw) by {
        assert((2 * k) * d.raw == k * (2 * d.raw)) by (nonlinear_arith);
        assert(magnitude(k * (2 * d.raw)) == k * magnitude(2 * d.raw)) by (nonlinear_arith)
            requires
                k > 0,
        ;
        lemma_div_multiples_vanish(magnitude(2 * d.raw), k);
    }
    lemma_raw_mul_bound(n1, 2 * d.raw, k, 6 * k, 6 * k);
    lemma_raw_mul_bound(n2, 2 * d.raw, k, 6 * k, 6 * k);
    lemma_raw_mul_bound(n3, 2 * d.raw, k, 6 * k, 6 * k);
    let r = spec_reflect(v, n);
    assert(r.x.raw == v1 - raw_mul(n1, 2 * d.raw));
    assert(r.y.raw == v2 - raw_mul(n2, 2 * d.raw));
    assert(r.z.raw == v3 - raw_mul(n3, 2 * d.raw));
    let (r1, r2, r3) = (r.x.raw as int, r.y.raw as int, r.z.raw as int);
    lemma_raw_mul_bound(r1, n1, 7 * k, k, 7 * k);
    lemma_raw_mul_bound(r2, n2, 7 * k, k, 7 * k);
    lemma_raw_mul_bound(r3, n3, 7 * k, k, 7 * k);
    let e = spec_dot(r, n);
    assert(e.raw == raw_mul(r1, n1) + raw_mul(r2, n2) + raw_mul(r3, n3));
    let two_e = Scalar::spec_from_int(2) * e;
    assert(two_e.raw == 2 * e.raw) by {
        assert((2 * k) * e.raw == k * (2 * e.raw)) by (nonlinear_arith);
        assert(magnitude(k * (2 * e.raw)) == k * magnitude(2 * e.raw)) by (nonlinear_arith)
            requires
                k > 0,
        ;
        lemma_div_multiples_vanish(magnitude(2 * e.raw), k);
    }
    lemma_raw_mul_bound(n1, 2 * e.raw, k, 42 * k, 42 * k);
    lemma_raw_mul_bound(n2, 2 * e.raw, k, 42 * k, 42 * k);
    lemma_raw_mul_bound(n3, 2 * e.raw, k, 42 * k, 42 * k);
    let back = spec_reflect(r, n);
    assert(back.x.raw == r1 - raw_mul(n1, 2 * e.raw));
    assert(back.y.raw == r2 - raw_mul(n2, 2 * e.raw));
    assert(back.z.raw == r3 - raw_mul(n3, 2 * e.raw));
    assert(raw_mul(n1, 2 * e.raw) == -raw_mul(n1, -(2 * e.raw))) by {
        assert(n1 * (-(2 * e.raw)) == -(n1 * (2 * e.raw))) by (nonlinear_arith);
    }
    assert(raw_mul(n2, 2 * e.raw) == -raw_mul(n2, -(2 * e.raw))) by {
        assert(n2 * (-(2 * e.raw)) == -(n2 * (2 * e.raw))) by (nonlinear_arith);
    }
    assert(raw_mul(n3, 2 * e.raw) == -raw_mul(n3, -(2 * e.raw))) by {
        assert(n3 * (-(2 * e.raw)) == -(n3 * (2 * e.raw))) by (nonlinear_arith);
    }
    lemma_raw_mul_lipschitz(n1, 2 * d.raw, -(2 * e.raw));
    lemma_raw_mul_lipschitz(n2, 2 * d.raw, -(2 * e.raw));
    lemma_raw_mul_lipschitz(n3, 2 * d.raw, -(2 * e.raw));
}

} // verus!
