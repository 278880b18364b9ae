use raytracer::math::vec3::{cross, dot, reflect, refract, unit_vector, Vec3};
use raytracer::scalar::{Scalar, MAX_RAW, ONE_RAW};

fn s(x: f64) -> Scalar {
    Scalar::from_raw((x * 4294967296.0).round() as i64)
}

fn v(x: f64, y: f64, z: f64) -> Vec3 {
    Vec3::new(s(x), s(y), s(z))
}

fn raw(x: i64, y: i64, z: i64) -> Vec3 {
    Vec3::new(Scalar::from_raw(x), Scalar::from_raw(y), Scalar::from_raw(z))
}

fn f(a: Scalar) -> f64 {
    a.raw as f64 / 4294967296.0
}

#[test]
fn vector_arithmetic_is_componentwise() {
    let a = v(1.0, 2.0, 3.0);
    let b = v(4.0, -5.0, 0.5);
    assert_eq!(a + b, v(5.0, -3.0, 3.5));
    assert_eq!(a - b, v(-3.0, 7.0, 2.5));
    assert_eq!(a * b, v(4.0, -10.0, 1.5));
    assert_eq!(a / b, Vec3::new(s(1.0) / s(4.0), s(2.0) / s(-5.0), s(3.0) / s(0.5)));
    assert_eq!(-a, v(-1.0, -2.0, -3.0));
    assert_eq!(Vec3::default(), v(0.0, 0.0, 0.0));
}

#[test]
fn vector_and_scalar_arithmetic() {
    let a = v(1.0, 2.0, 3.0);
    let k = s(2.0);
    assert_eq!(a * k, v(2.0, 4.0, 6.0));
    assert_eq!(k * a, v(2.0, 4.0, 6.0));
    assert_eq!(a / k, v(0.5, 1.0, 1.5));
    assert_eq!(a + k, v(3.0, 4.0, 5.0));
    assert_eq!(k + a, v(3.0, 4.0, 5.0));
    assert_eq!(a - k, v(-1.0, 0.0, 1.0));
    assert_eq!(k - a, v(1.0, 0.0, -1.0));
    assert_eq!(k / a, Vec3::new(s(2.0), s(1.0), s(2.0) / s(3.0)));
}

#[test]
fn dot_and_cross_products() {
    assert_eq!(dot(v(1.0, 2.0, 3.0), v(4.0, -5.0, 6.0)).raw, 51539607552);
    assert_eq!(dot(v(1.0, 2.0, 3.0), v(4.0, -5.0, 6.0)), s(12.0));
    assert_eq!(cross(v(1.0, 0.0, 0.0), v(0.0, 1.0, 0.0)), v(0.0, 0.0, 1.0));
    assert_eq!(cross(v(1.0, 2.0, 3.0), v(4.0, 5.0, 6.0)), v(-3.0, 6.0, -3.0));
}

#[test]
fn lengths() {
    assert_eq!(v(3.0, 4.0, 0.0).length_squared(), s(25.0));
    assert_eq!(v(3.0, 4.0, 0.0).length(), s(5.0));
    assert_eq!(v(0.5, 0.5, 0.5).length_squared().raw, 3221225472);
    assert_eq!(v(0.0, 0.0, 0.0).length().raw, 0);
}

#[test]
fn short_vectors_keep_their_length() {
    assert_eq!(raw(3, 4, 0).length_squared().raw, 0);
    assert_eq!(raw(3, 4, 0).length().raw, 5);
    assert_eq!(raw(3, 4, 0).unit_vector(), raw(2576980377, 3435973836, 0));
}

#[test]
fn length_saturates() {
    assert_eq!(raw(MAX_RAW, MAX_RAW, MAX_RAW).length().raw, MAX_RAW);
    assert_eq!(raw(i64::MIN, i64::MIN, i64::MIN).length().raw, MAX_RAW);
}

#[test]
fn unit_vectors() {
    assert_eq!(unit_vector(v(3.0, 4.0, 0.0)), raw(2576980377, 3435973836, 0));
    assert_eq!(v(3.0, 4.0, 0.0).unit_vector(), unit_vector(v(3.0, 4.0, 0.0)));
    assert_eq!(unit_vector(v(1.0, -1.0, 0.0)), raw(3037000499, -3037000499, 0));
    assert_eq!(unit_vector(v(0.0, 0.0, 7.0)), v(0.0, 0.0, 1.0));
}

#[test]
fn the_zero_vector_stays_zero_when_normalised() {
    assert_eq!(unit_vector(v(0.0, 0.0, 0.0)), v(0.0, 0.0, 0.0));
}

#[test]
fn near_zero_means_below_one_in_a_hundred_million() {
    assert!(v(0.0, 0.0, 0.0).near_zero());
    assert!(raw(42, -42, 42).near_zero());
    assert!(!raw(43, 0, 0).near_zero());
    assert!(!raw(0, -43, 0).near_zero());
    assert!(!raw(0, 0, 43).near_zero());
    assert!(!v(1e-7, 0.0, 0.0).near_zero());
}

#[test]
fn reflection_about_an_axis() {
    assert_eq!(reflect(v(1.0, -1.0, 0.0), v(0.0, 1.0, 0.0)), v(1.0, 1.0, 0.0));
    let u = unit_vector(v(1.0, -1.0, 0.0));
    assert_eq!(reflect(u, v(0.0, 1.0, 0.0)), raw(3037000499, 3037000499, 0));
}

#[test]
fn reflection_turns_the_normal_component_around() {
    let n = unit_vector(v(1.0, 5.0, -1.0));
    let mut i = 0;
    while i < 200 {
        let u = Vec3::random_unit_vector();
        let before = dot(u, n);
        let after = dot(reflect(u, n), n);
        assert!((after.raw + before.raw).abs() <= 6 * (n.length_squared().raw - ONE_RAW).abs() + 27);
        i += 1;
    }
}

#[test]
fn refraction_into_glass() {
    let u = unit_vector(v(1.0, -1.0, 0.0));
    let n = v(0.0, 1.0, 0.0);
    let r = refract(u, n, s(1.0) / s(1.5));
    assert_eq!(r, raw(2024666998, -3787805119, 0));
    assert!((f(r.x) - 0.47140452).abs() < 1e-7);
    assert!((f(r.y) + 0.88191710).abs() < 1e-7);
}

#[test]
fn refraction_with_equal_indices_keeps_the_direction() {
    let u = unit_vector(v(1.0, -1.0, 0.0));
    let r = refract(u, v(0.0, 1.0, 0.0), s(1.0));
    assert_eq!(r, raw(3037000499, -3037000501, 0));
}

#[test]
fn random_vectors_of_the_unit_cube() {
    let mut i = 0;
    while i < 200 {
        let p = Vec3::random();
        assert!(0 <= p.x.raw && p.x.raw < ONE_RAW);
        assert!(0 <= p.y.raw && p.y.raw < ONE_RAW);
        assert!(0 <= p.z.raw && p.z.raw < ONE_RAW);
        let q = Vec3::random_range(s(0.5), s(1.0));
        assert!(ONE_RAW / 2 <= q.x.raw && q.x.raw < ONE_RAW);
        assert!(ONE_RAW / 2 <= q.y.raw && q.y.raw < ONE_RAW);
        assert!(ONE_RAW / 2 <= q.z.raw && q.z.raw < ONE_RAW);
        i += 1;
    }
}

#[test]
fn lerp_of_vectors_is_componentwise() {
    assert_eq!(Vec3::lerp(s(-1.0), s(1.0), v(0.0, 0.5, 0.25)), v(-1.0, 0.0, -0.5));
}

#[test]
fn random_points_of_the_unit_ball_and_disk() {
    let mut i = 0;
    let mut off_centre = false;
    while i < 200 {
        let p = Vec3::random_in_unit_sphere();
        assert!(p.length_squared().raw < ONE_RAW);
        let d = Vec3::random_in_unit_disk();
        assert!(d.length_squared().raw < ONE_RAW);
        assert_eq!(d.z.raw, 0);
        if p != Vec3::default() && d != Vec3::default() {
            off_centre = true;
        }
        i += 1;
    }
    assert!(off_centre);
}

#[test]
fn random_directions_have_unit_length() {
    let mut i = 0;
    while i < 200 {
        let u = Vec3::random_unit_vector();
        assert!((f(u.length()) - 1.0).abs() < 1e-6);
        i += 1;
    }
}

#[test]
fn random_points_of_a_hemisphere_point_to_the_side_of_the_normal() {
    let n = v(0.0, 1.0, 0.0);
    let mut i = 0;
    while i < 200 {
        let p = Vec3::random_in_hemisphere(&n);
        assert!(dot(p, n).raw >= 0);
        assert!(p.length_squared().raw < ONE_RAW);
        i += 1;
    }
}

#[test]
fn toward_turns_a_vector_to_the_side_of_the_normal() {
    let n = v(0.0, 1.0, 0.0);
    assert_eq!(Vec3::toward(v(0.5, 0.5, 0.0), n), v(0.5, 0.5, 0.0));
    assert_eq!(Vec3::toward(v(0.5, -0.5, 0.0), n), v(-0.5, 0.5, 0.0));
    assert_eq!(Vec3::toward(v(0.5, 0.0, 0.0), n), v(-0.5, 0.0, 0.0));
}

#[test]
fn normalised_vectors_stay_within_the_unit_box() {
    let mut i = 0;
    while i < 300 {
        let p = Vec3::random_range(s(-1000.0), s(1000.0));
        let u = unit_vector(p);
        assert!(u.x.raw.abs() <= ONE_RAW && u.y.raw.abs() <= ONE_RAW && u.z.raw.abs() <= ONE_RAW);
        i += 1;
    }
    let huge = unit_vector(raw(i64::MIN, MAX_RAW, 5));
    assert!(huge.x.raw.abs() <= ONE_RAW && huge.y.raw.abs() <= ONE_RAW);
    let tiny = unit_vector(raw(1, -1, 0));
    assert!(tiny.x.raw.abs() <= ONE_RAW && tiny.y.raw.abs() <= ONE_RAW);
}

#[test]
fn the_dot_product_with_a_negated_vector_is_negated() {
    let mut i = 0;
    while i < 300 {
        let a = Vec3::random_range(s(-50.0), s(50.0));
        let b = Vec3::random_range(s(-50.0), s(50.0));
        assert_eq!(dot(a, -b), -dot(a, b));
        i += 1;
    }
}

#[test]
fn refraction_between_equal_indices_keeps_the_direction_up_to_rounding() {
    let mut i = 0;
    while i < 300 {
        let n = Vec3::random_unit_vector();
        let u = -unit_vector(Vec3::random_in_hemisphere(&n));
        let out = refract(u, n, s(1.0));
        assert!(f((out - u).length()) < 2e-4);
        i += 1;
    }
}

#[test]
fn refraction_between_equal_indices_stays_within_its_tolerance() {
    let one = 1i128 << 32;
    let mut i = 0;
    while i < 300 {
        let n = Vec3::random_unit_vector();
        let u = -unit_vector(Vec3::random_in_hemisphere(&n));
        let cosine = dot(-u, n).raw;
        if 0 <= cosine && cosine <= ONE_RAW {
            let off_u = (u.length_squared().raw as i128 - one).abs();
            let off_n = (n.length_squared().raw as i128 - one).abs();
            let tolerance =
                raytracer::scalar::integer_sqrt((one * (off_u + off_n + 27)) as u128) as i64 + 2;
            let out = refract(u, n, s(1.0));
            assert!((out.x.raw - u.x.raw).abs() <= tolerance);
            assert!((out.y.raw - u.y.raw).abs() <= tolerance);
            assert!((out.z.raw - u.z.raw).abs() <= tolerance);
        }
        i += 1;
    }
}

#[test]
fn candidates_of_the_rejection_samplers() {
    assert_eq!(Vec3::ball_candidate(v(0.0, 0.5, 0.75)), v(-1.0, 0.0, 0.5));
    assert_eq!(Vec3::ball_candidate(raw(ONE_RAW - 1, 0, 1)), raw(ONE_RAW - 2, -ONE_RAW, -ONE_RAW + 2));
    assert_eq!(Vec3::disk_candidate(v(0.25, 1.0, 0.9)), v(-0.5, 1.0, 0.0));
    assert_eq!(Vec3::disk_candidate(v(0.5, 0.5, 0.5)), v(0.0, 0.0, 0.0));
}

#[test]
fn the_unit_ball_is_open() {
    assert!(v(0.0, 0.0, 0.0).lies_in_unit_ball());
    assert!(v(0.5, 0.5, 0.5).lies_in_unit_ball());
    assert!(raw(ONE_RAW - 1, 0, 0).lies_in_unit_ball());
    assert!(!v(1.0, 0.0, 0.0).lies_in_unit_ball());
    assert!(!v(0.6, 0.6, 0.6).lies_in_unit_ball());
    assert!(!v(-1.0, -1.0, -1.0).lies_in_unit_ball());
}

#[test]
fn random_points_of_the_unit_ball_are_candidates_of_its_cube() {
    let mut i = 0;
    while i < 300 {
        let p = Vec3::random_in_unit_sphere();
        assert!(p.lies_in_unit_ball());
        for c in [p.x.raw, p.y.raw, p.z.raw] {
            assert!(-ONE_RAW <= c && c < ONE_RAW);
            assert_eq!(c % 2, 0);
        }
        let d = Vec3::random_in_unit_disk();
        assert!(d.lies_in_unit_ball());
        assert_eq!(d.x.raw % 2, 0);
        assert_eq!(d.y.raw % 2, 0);
        i += 1;
    }
}

#[test]
fn short_vectors_are_normalised_to_unit_length() {
    assert_eq!(unit_vector(raw(1, 1, 0)), raw(3037000499, 3037000499, 0));
    assert_eq!(unit_vector(raw(2, 2, 2)), raw(2479700524, 2479700524, 2479700524));
    assert_eq!(unit_vector(raw(0, 0, -1)), v(0.0, 0.0, -1.0));
    let mut i = 0;
    while i < 300 {
        let p = Vec3::random_range(Scalar::from_raw(-40), Scalar::from_raw(40));
        if p != Vec3::default() {
            let len = unit_vector(p).length().raw;
            assert!(ONE_RAW - 4 <= len && len <= ONE_RAW);
        }
        let q = Vec3::random_range(s(-3000.0), s(3000.0));
        if q != Vec3::default() {
            let len = unit_vector(q).length().raw;
            assert!(ONE_RAW - 4 <= len && len <= ONE_RAW);
        }
        i += 1;
    }
}

#[test]
fn the_parameter_is_the_distance_over_the_length() {
    assert_eq!(v(0.0, 0.0, 2.0).parameter_at(s(4.0)), s(2.0));
    assert_eq!(v(3.0, 4.0, 0.0).parameter_at(s(-10.0)), s(-2.0));
    assert_eq!(raw(0, 0, -70000).parameter_at(s(2.0)).raw, 527049830677415);
    assert_eq!(raw(0, 0, 1).parameter_at(s(2.0)).raw, MAX_RAW);
    assert_eq!(raw(0, 0, 1).parameter_at(s(-2.0)).raw, -MAX_RAW);
    assert_eq!(v(0.0, 0.0, 0.0).parameter_at(s(2.0)).raw, 0);
}

#[test]
fn reflecting_twice_gives_the_vector_back_within_steps() {
    let mut i = 0;
    while i < 300 {
        let n = Vec3::random_unit_vector();
        let p = Vec3::random_in_unit_sphere();
        let back = reflect(reflect(p, n), n);
        let tolerance = 2 * (6 * (n.length_squared().raw - ONE_RAW).abs() + 27) + 1;
        assert!((back.x.raw - p.x.raw).abs() <= tolerance);
        assert!((back.y.raw - p.y.raw).abs() <= tolerance);
        assert!((back.z.raw - p.z.raw).abs() <= tolerance);
        i += 1;
    }
}

#[test]
fn reflection_of_a_vector_of_a_few_steps_is_off_by_steps_not_by_parts() {
    let r = reflect(raw(3, 0, 0), v(0.6, 0.8, 0.0));
    assert_eq!(r, raw(2, -1, 0));
}
