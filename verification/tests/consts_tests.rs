use raytracer::consts::{
    clamp, degrees_to_radians, infinity, lerp, pi, random, random_range, PI_RAW,
};
use raytracer::scalar::{Scalar, MAX_RAW, ONE_RAW};

fn num(x: f64) -> Scalar {
    Scalar::from_raw((x * 4294967296.0).round() as i64)
}

#[test]
fn infinity_is_the_upper_bound() {
    assert_eq!(infinity().raw, MAX_RAW);
    assert_eq!((infinity() + Scalar::from_int(1)).raw, MAX_RAW);
}

#[test]
fn pi_is_rounded_down() {
    assert_eq!(pi().raw, PI_RAW);
    assert_eq!(PI_RAW, (std::f64::consts::PI * 4294967296.0).floor() as i64);
}

#[test]
fn half_a_turn_is_pi() {
    assert_eq!(degrees_to_radians(Scalar::from_int(180)).raw, PI_RAW);
    assert_eq!(degrees_to_radians(Scalar::from_int(90)).raw, 6746518852);
    assert_eq!(degrees_to_radians(Scalar::from_int(0)).raw, 0);
}

#[test]
fn clamp_holds_a_number_between_the_bounds() {
    assert_eq!(clamp(num(0.5), num(0.0), num(0.999)), num(0.5));
    assert_eq!(clamp(num(-0.5), num(0.0), num(0.999)), num(0.0));
    assert_eq!(clamp(num(1.5), num(0.0), num(0.999)), num(0.999));
    assert_eq!(clamp(num(0.0), num(0.0), num(0.999)), num(0.0));
    assert_eq!(clamp(num(0.999), num(0.0), num(0.999)), num(0.999));
}

#[test]
fn clamp_prefers_the_lower_bound_where_the_bounds_cross() {
    assert_eq!(clamp(num(1.0), num(3.0), num(2.0)), num(3.0));
}

#[test]
fn lerp_is_min_plus_span_times_fraction() {
    assert_eq!(lerp(Scalar::from_int(-1), Scalar::from_int(1), num(0.25)).raw, -2147483648);
    assert_eq!(lerp(num(2.0), num(6.0), num(0.0)), num(2.0));
    assert_eq!(lerp(num(2.0), num(6.0), num(0.5)), num(4.0));
}

#[test]
fn random_numbers_lie_in_the_unit_interval() {
    let mut distinct = false;
    let first = random();
    let mut i = 0;
    while i < 1000 {
        let r = random();
        assert!(0 <= r.raw && r.raw < ONE_RAW);
        if r != first {
            distinct = true;
        }
        i += 1;
    }
    assert!(distinct);
}

#[test]
fn random_numbers_of_a_span_lie_in_it() {
    let mut i = 0;
    while i < 1000 {
        let r = random_range(num(-1.0), num(1.0));
        assert!(-ONE_RAW <= r.raw && r.raw < ONE_RAW);
        let s = random_range(num(0.5), num(1.0));
        assert!(ONE_RAW / 2 <= s.raw && s.raw < ONE_RAW);
        i += 1;
    }
}

#[test]
fn a_fraction_holds_its_bits() {
    assert_eq!(raytracer::consts::fraction(0).raw, 0);
    assert_eq!(raytracer::consts::fraction(1).raw, 1);
    assert_eq!(raytracer::consts::fraction(0x8000_0000), num(0.5));
    assert_eq!(raytracer::consts::fraction(u32::MAX).raw, ONE_RAW - 1);
}
