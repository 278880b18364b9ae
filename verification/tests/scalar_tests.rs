use raytracer::scalar::{integer_sqrt, Scalar, MAX_RAW, ONE_RAW};

fn sc(x: f64) -> Scalar {
    Scalar::from_raw((x * 4294967296.0).round() as i64)
}

fn fl(s: Scalar) -> f64 {
    s.raw as f64 / 4294967296.0
}

#[test]
fn one_has_32_fractional_bits() {
    assert_eq!(ONE_RAW, 1i64 << 32);
    assert_eq!(Scalar::from_int(1).raw, ONE_RAW);
    assert_eq!(Scalar::from_int(-3).raw, -3 * ONE_RAW);
    assert_eq!(Scalar::from_raw(17).raw, 17);
    assert_eq!(Scalar::default().raw, 0);
}

#[test]
fn from_int_saturates_at_the_lower_bound() {
    assert_eq!(Scalar::from_int(i32::MIN).raw, -MAX_RAW);
    assert_eq!(Scalar::from_int(i32::MAX).raw, (i32::MAX as i64) << 32);
}

#[test]
fn sums_and_differences_are_exact_within_range() {
    assert_eq!(sc(1.5) + sc(2.25), sc(3.75));
    assert_eq!(sc(1.5) - sc(2.25), sc(-0.75));
    assert_eq!(-sc(1.5), sc(-1.5));
}

#[test]
fn sums_and_differences_saturate() {
    let top = Scalar::from_raw(MAX_RAW);
    let bottom = Scalar::from_raw(-MAX_RAW);
    assert_eq!((top + Scalar::from_int(1)).raw, MAX_RAW);
    assert_eq!((bottom - Scalar::from_int(1)).raw, -MAX_RAW);
    assert_eq!((top - bottom).raw, MAX_RAW);
    assert_eq!((Scalar::from_raw(i64::MIN) + Scalar::from_raw(0)).raw, -MAX_RAW);
}

#[test]
fn negation_of_the_lowest_raw_value_saturates() {
    assert_eq!((-Scalar::from_raw(i64::MIN)).raw, MAX_RAW);
    assert_eq!((-Scalar::from_raw(MAX_RAW)).raw, -MAX_RAW);
}

#[test]
fn products_are_exact_where_they_fit_the_grid() {
    assert_eq!(Scalar::from_int(2) * Scalar::from_int(3), Scalar::from_int(6));
    assert_eq!((sc(1.5) * sc(1.5)).raw, 9663676416);
    assert_eq!(sc(-1.5) * sc(1.5), sc(-2.25));
    assert_eq!(sc(-1.5) * sc(-1.5), sc(2.25));
}

#[test]
fn products_round_toward_zero() {
    let half = Scalar::from_raw(ONE_RAW / 2);
    assert_eq!((Scalar::from_raw(3) * half).raw, 1);
    assert_eq!((Scalar::from_raw(-3) * half).raw, -1);
    assert_eq!((Scalar::from_raw(1) * half).raw, 0);
    assert_eq!((Scalar::from_raw(-1) * half).raw, 0);
}

#[test]
fn products_saturate() {
    let big = Scalar::from_int(100000);
    assert_eq!((big * big).raw, MAX_RAW);
    assert_eq!((big * -big).raw, -MAX_RAW);
    assert_eq!((Scalar::from_raw(i64::MIN) * Scalar::from_raw(i64::MIN)).raw, MAX_RAW);
}

#[test]
fn quotients_round_toward_zero() {
    assert_eq!((Scalar::from_int(1) / Scalar::from_int(3)).raw, 1431655765);
    assert_eq!((Scalar::from_int(-1) / Scalar::from_int(3)).raw, -1431655765);
    assert_eq!((Scalar::from_int(1) / Scalar::from_int(-3)).raw, -1431655765);
    assert_eq!((Scalar::from_int(7) / Scalar::from_int(2)).raw, 15032385536);
    assert_eq!(Scalar::from_int(7) / Scalar::from_int(2), sc(3.5));
}

#[test]
fn division_by_zero_gives_the_bound_on_the_side_of_the_dividend() {
    let zero = Scalar::from_raw(0);
    assert_eq!((Scalar::from_int(1) / zero).raw, MAX_RAW);
    assert_eq!((Scalar::from_int(-1) / zero).raw, -MAX_RAW);
    assert_eq!((zero / zero).raw, 0);
}

#[test]
fn quotients_saturate() {
    let tiny = Scalar::from_raw(1);
    assert_eq!((Scalar::from_int(1000) / tiny).raw, MAX_RAW);
    assert_eq!((Scalar::from_int(-1000) / tiny).raw, -MAX_RAW);
}

#[test]
fn square_roots_are_rounded_down() {
    assert_eq!(Scalar::from_int(4).sqrt(), Scalar::from_int(2));
    assert_eq!(Scalar::from_int(2).sqrt().raw, 6074000999);
    assert_eq!(sc(0.25).sqrt(), sc(0.5));
    assert_eq!(Scalar::from_int(1).sqrt(), Scalar::from_int(1));
}

#[test]
fn square_root_of_nothing_positive_is_zero() {
    assert_eq!(Scalar::from_raw(0).sqrt().raw, 0);
    assert_eq!(Scalar::from_int(-4).sqrt().raw, 0);
}

#[test]
fn square_root_of_the_upper_bound_fits() {
    let r = Scalar::from_raw(MAX_RAW).sqrt();
    assert!((fl(r) - 46340.95).abs() < 0.01);
}

#[test]
fn integer_square_root_is_the_floor() {
    assert_eq!(integer_sqrt(0), 0);
    assert_eq!(integer_sqrt(1), 1);
    assert_eq!(integer_sqrt(24), 4);
    assert_eq!(integer_sqrt(25), 5);
    assert_eq!(integer_sqrt(26), 5);
    assert_eq!(integer_sqrt(u128::MAX), (1u128 << 64) - 1);
}

#[test]
fn magnitude_and_minimum() {
    assert_eq!(sc(-2.5).abs(), sc(2.5));
    assert_eq!(sc(2.5).abs(), sc(2.5));
    assert_eq!(Scalar::from_raw(i64::MIN).abs().raw, MAX_RAW);
    assert_eq!(sc(1.0).min(sc(2.0)), sc(1.0));
    assert_eq!(sc(3.0).min(sc(2.0)), sc(2.0));
}

#[test]
fn bytes_are_the_whole_part_held_in_range() {
    assert_eq!(sc(255.744).to_u8(), 255);
    assert_eq!(sc(128.5).to_u8(), 128);
    assert_eq!(sc(0.9).to_u8(), 0);
    assert_eq!(sc(-1.0).to_u8(), 0);
    assert_eq!(sc(300.0).to_u8(), 255);
    assert_eq!(Scalar::from_raw(MAX_RAW).to_u8(), 255);
}

#[test]
fn sine_and_cosine_of_half_a_radian() {
    assert_eq!(sc(0.5).sin().raw, 2059117009);
    assert_eq!(sc(0.5).cos().raw, 3769188403);
}

#[test]
fn trigonometry_agrees_with_the_reals() {
    let mut k = -15;
    while k <= 15 {
        let x = k as f64 / 10.0;
        assert!((fl(sc(x).sin()) - x.sin()).abs() < 1e-8);
        assert!((fl(sc(x).cos()) - x.cos()).abs() < 1e-8);
        k += 1;
    }
    let mut d = 1;
    while d <= 85 {
        let x = (d as f64).to_radians();
        assert!((fl(sc(x).tan()) - x.tan()).abs() < 1e-6);
        d += 1;
    }
}

#[test]
fn tangent_of_ten_degrees() {
    let ten_degrees = Scalar::from_raw(13493037704) * Scalar::from_int(20) / Scalar::from_int(180)
        / Scalar::from_int(2);
    assert_eq!(ten_degrees.tan().raw, 757318614);
}

#[test]
fn from_raw_keeps_to_the_range() {
    assert_eq!(Scalar::from_raw(i64::MIN).raw, -MAX_RAW);
    assert_eq!(Scalar::from_raw(-MAX_RAW).raw, -MAX_RAW);
    assert_eq!(Scalar::from_raw(MAX_RAW).raw, MAX_RAW);
    assert_eq!(Scalar::from_raw(i64::MIN) * Scalar::from_int(1), Scalar::from_raw(i64::MIN));
}
