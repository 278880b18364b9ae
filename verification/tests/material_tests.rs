use raytracer::hittable::HitRecord;
use raytracer::material::{reflectance, Dielectric, Lambertian, Material, MaterialKind, Metal};
use raytracer::math::vec3::{dot, unit_vector, Vec3};
use raytracer::ray::Ray;
use raytracer::scalar::{Scalar, ONE_RAW};

fn a(x: f64) -> Scalar {
    Scalar::from_raw((x * 4294967296.0).round() as i64)
}

fn b(x: f64, y: f64, z: f64) -> Vec3 {
    Vec3::new(a(x), a(y), a(z))
}

fn r3(x: i64, y: i64, z: i64) -> Vec3 {
    Vec3::new(Scalar::from_raw(x), Scalar::from_raw(y), Scalar::from_raw(z))
}

fn g(s: Scalar) -> f64 {
    s.raw as f64 / 4294967296.0
}

fn record(point: Vec3, normal: Vec3, front_face: bool) -> HitRecord {
    let mut rec = HitRecord::default();
    rec.point = point;
    rec.normal = normal;
    rec.front_face = front_face;
    rec.t = a(1.0);
    rec
}

fn almost_one() -> Scalar {
    Scalar::from_raw(ONE_RAW - 1)
}

#[test]
fn lambertian_direction_is_normal_plus_unit() {
    let d = Lambertian::direction(b(0.0, 1.0, 0.0), b(0.6, 0.0, 0.8));
    assert_eq!(d, r3(2576980378, 4294967296, 3435973837));
}

#[test]
fn lambertian_falls_back_to_the_normal_where_the_sum_cancels() {
    let normal = b(0.0, 1.0, 0.0);
    assert_eq!(Lambertian::direction(normal, b(0.0, -1.0, 0.0)), normal);
    assert_eq!(Lambertian::direction(normal, r3(42, -ONE_RAW, -42)), normal);
    assert_eq!(Lambertian::direction(normal, r3(43, -ONE_RAW, 0)), r3(43, 0, 0));
}

#[test]
fn lambertian_always_scatters_with_its_albedo() {
    let m = Lambertian::new(b(0.4, 0.2, 0.1));
    assert_eq!(m.albedo, b(0.4, 0.2, 0.1));
    let rec = record(b(1.0, 2.0, 3.0), b(0.0, 1.0, 0.0), true);
    let r_in = Ray::new(b(1.0, 5.0, 3.0), b(0.0, -1.0, 0.0));
    let mut i = 0;
    while i < 200 {
        let mut attenuation = Vec3::default();
        let mut scattered = Ray::default();
        assert!(m.scatter(&r_in, &rec, &mut attenuation, &mut scattered));
        assert_eq!(attenuation, b(0.4, 0.2, 0.1));
        assert_eq!(scattered.origin, b(1.0, 2.0, 3.0));
        let offset = scattered.direction - rec.normal;
        assert!(scattered.direction == rec.normal || (g(offset.length()) - 1.0).abs() < 1e-6);
        assert!(dot(scattered.direction, rec.normal).raw >= 0);
        i += 1;
    }
}

#[test]
fn metal_holds_its_fuzz_between_zero_and_one() {
    assert_eq!(Metal::new(b(0.7, 0.6, 0.5), a(0.3)).fuzz, a(0.3));
    assert_eq!(Metal::new(b(0.7, 0.6, 0.5), a(7.0)).fuzz, a(1.0));
    assert_eq!(Metal::new(b(0.7, 0.6, 0.5), a(1.0)).fuzz, a(1.0));
    assert_eq!(Metal::new(b(0.7, 0.6, 0.5), a(-1.0)).fuzz, a(0.0));
    assert_eq!(Metal::new(b(0.7, 0.6, 0.5), a(0.0)).albedo, b(0.7, 0.6, 0.5));
}

#[test]
fn metal_direction_is_the_fuzzed_mirror_image() {
    let polished = Metal::new(b(0.8, 0.8, 0.8), a(0.0));
    let d = polished.direction(b(1.0, -1.0, 0.0), b(0.0, 1.0, 0.0), b(0.5, 0.0, 0.0));
    assert_eq!(d, r3(3037000499, 3037000499, 0));
    let rough = Metal::new(b(0.8, 0.8, 0.8), a(0.5));
    let d = rough.direction(b(1.0, -1.0, 0.0), b(0.0, 1.0, 0.0), b(0.5, 0.25, 0.0));
    assert_eq!(d, r3(4110742323, 3573871411, 0));
}

#[test]
fn polished_metal_mirrors_the_ray() {
    let m = Metal::new(b(0.8, 0.6, 0.2), a(0.0));
    let rec = record(b(0.0, 0.0, 0.0), b(0.0, 1.0, 0.0), true);
    let r_in = Ray::new(b(-1.0, 1.0, 0.0), b(1.0, -1.0, 0.0));
    let mut attenuation = Vec3::default();
    let mut scattered = Ray::default();
    assert!(m.scatter(&r_in, &rec, &mut attenuation, &mut scattered));
    assert_eq!(attenuation, b(0.8, 0.6, 0.2));
    assert_eq!(scattered.origin, b(0.0, 0.0, 0.0));
    assert_eq!(scattered.direction, r3(3037000499, 3037000499, 0));
}

#[test]
fn metal_absorbs_what_would_enter_the_surface() {
    let m = Metal::new(b(0.8, 0.6, 0.2), a(0.0));
    let rec = record(b(0.0, 0.0, 0.0), b(0.0, 1.0, 0.0), true);
    let r_in = Ray::new(b(-1.0, -1.0, 0.0), b(1.0, 1.0, 0.0));
    let mut attenuation = Vec3::default();
    let mut scattered = Ray::default();
    assert!(!m.scatter(&r_in, &rec, &mut attenuation, &mut scattered));
    assert_eq!(attenuation, b(0.8, 0.6, 0.2));
    assert_eq!(scattered.direction, r3(3037000499, -3037000499, 0));
}

#[test]
fn rough_metal_stays_within_its_fuzz_of_the_mirror_image() {
    let m = Metal::new(b(0.8, 0.6, 0.2), a(0.5));
    let rec = record(b(0.0, 0.0, 0.0), b(0.0, 1.0, 0.0), true);
    let r_in = Ray::new(b(-1.0, 1.0, 0.0), b(1.0, -1.0, 0.0));
    let mirror = r3(3037000499, 3037000499, 0);
    let mut i = 0;
    while i < 200 {
        let mut attenuation = Vec3::default();
        let mut scattered = Ray::default();
        let accepted = m.scatter(&r_in, &rec, &mut attenuation, &mut scattered);
        assert!(g((scattered.direction - mirror).length()) < 0.5 + 1e-6);
        assert_eq!(accepted, dot(scattered.direction, rec.normal).raw > 0);
        i += 1;
    }
}

#[test]
fn schlick_reflectance() {
    assert_eq!(reflectance(a(1.0), a(1.5)).raw, 171798691);
    assert_eq!(reflectance(a(0.0), a(1.5)), a(1.0));
    assert!((g(reflectance(a(0.5), a(1.5))) - 0.07).abs() < 1e-8);
    assert!((g(reflectance(a(1.0), a(1.5))) - 0.04).abs() < 1e-8);
    assert_eq!(reflectance(a(1.0), a(1.0)).raw, 0);
}

#[test]
fn glass_refracts_a_ray_that_enters() {
    let m = Dielectric::new(a(1.5));
    assert_eq!(m.ir, a(1.5));
    let d = m.direction(b(1.0, -1.0, 0.0), b(0.0, 1.0, 0.0), true, almost_one());
    assert_eq!(d, r3(2024666998, -3787805119, 0));
}

#[test]
fn glass_mirrors_where_the_sample_is_below_the_reflectance() {
    let m = Dielectric::new(a(1.5));
    let normal = b(0.0, 1.0, 0.0);
    let mirrored = r3(3037000499, 3037000499, 0);
    let refracted = r3(2024666998, -3787805119, 0);
    assert_eq!(m.direction(b(1.0, -1.0, 0.0), normal, true, a(0.0)), mirrored);
    assert_eq!(m.direction(b(1.0, -1.0, 0.0), normal, true, Scalar::from_raw(180686150)), mirrored);
    assert_eq!(m.direction(b(1.0, -1.0, 0.0), normal, true, Scalar::from_raw(180686151)), refracted);
}

#[test]
fn glass_mirrors_where_no_refraction_is_possible() {
    let m = Dielectric::new(a(1.5));
    let d = m.direction(b(1.0, -1.0, 0.0), b(0.0, 1.0, 0.0), false, almost_one());
    assert_eq!(d, r3(3037000499, 3037000499, 0));
}

#[test]
fn glass_always_scatters_without_a_filter() {
    let m = Dielectric::new(a(1.5));
    let rec = record(b(1.0, 2.0, 3.0), b(0.0, 1.0, 0.0), true);
    let r_in = Ray::new(b(0.0, 3.0, 3.0), b(1.0, -1.0, 0.0));
    let mut i = 0;
    while i < 200 {
        let mut attenuation = Vec3::default();
        let mut scattered = Ray::default();
        assert!(m.scatter(&r_in, &rec, &mut attenuation, &mut scattered));
        assert_eq!(attenuation, b(1.0, 1.0, 1.0));
        assert_eq!(scattered.origin, b(1.0, 2.0, 3.0));
        assert!(
            scattered.direction == r3(2024666998, -3787805119, 0)
                || scattered.direction == r3(3037000499, 3037000499, 0)
        );
        i += 1;
    }
}

#[test]
fn a_matched_index_does_not_bend_the_ray() {
    let m = Dielectric::new(a(1.0));
    let d = m.direction(b(1.0, -1.0, 0.0), b(0.0, 1.0, 0.0), true, almost_one());
    assert_eq!(d, r3(3037000499, -3037000501, 0));
    let d = m.direction(b(0.0, -2.0, 0.0), b(0.0, 1.0, 0.0), true, almost_one());
    assert_eq!(d, b(0.0, -1.0, 0.0));
    let d = m.direction(b(0.0, -2.0, 0.0), b(0.0, 1.0, 0.0), false, almost_one());
    assert_eq!(d, b(0.0, -1.0, 0.0));
}

#[test]
fn a_matched_index_does_not_bend_the_ray_at_any_angle() {
    let m = Dielectric::new(a(1.0));
    let mut i = 0;
    while i < 300 {
        let normal = Vec3::random_unit_vector();
        let incoming = -Vec3::random_in_hemisphere(&normal) * a(3.0);
        if incoming.length_squared().raw == 0 {
            i += 1;
            continue;
        }
        let straight = unit_vector(incoming);
        for front_face in [true, false] {
            let d = m.direction(incoming, normal, front_face, almost_one());
            assert!(g((d - straight).length()) < 2e-4);
        }
        i += 1;
    }
}

#[test]
fn a_matched_index_still_mirrors_where_the_sample_is_low() {
    let m = Dielectric::new(a(1.0));
    let d = m.direction(b(1.0, -1.0, 0.0), b(0.0, 1.0, 0.0), true, a(0.0));
    assert_eq!(d, r3(3037000499, 3037000499, 0));
}

#[test]
fn a_material_kind_scatters_as_what_it_holds() {
    let rec = record(b(0.0, 0.0, 0.0), b(0.0, 1.0, 0.0), true);
    let r_in = Ray::new(b(-1.0, 1.0, 0.0), b(1.0, -1.0, 0.0));
    let mut attenuation = Vec3::default();
    let mut scattered = Ray::default();

    let metal = MaterialKind::Metal(Metal::new(b(0.8, 0.6, 0.2), a(0.0)));
    assert!(metal.scatter(&r_in, &rec, &mut attenuation, &mut scattered));
    assert_eq!(attenuation, b(0.8, 0.6, 0.2));
    assert_eq!(scattered.direction, r3(3037000499, 3037000499, 0));

    let diffuse = MaterialKind::Lambertian(Lambertian::new(b(0.1, 0.2, 0.3)));
    assert!(diffuse.scatter(&r_in, &rec, &mut attenuation, &mut scattered));
    assert_eq!(attenuation, b(0.1, 0.2, 0.3));

    let glass = MaterialKind::Dielectric(Dielectric::new(a(1.5)));
    assert!(glass.scatter(&r_in, &rec, &mut attenuation, &mut scattered));
    assert_eq!(attenuation, b(1.0, 1.0, 1.0));
}

#[test]
fn scattered_directions_of_short_rays_have_unit_length() {
    let glass = Dielectric::new(a(1.5));
    let d = glass.direction(r3(1, 1, 0), b(0.0, 0.0, 1.0), true, almost_one());
    assert!((g(d.length()) - 1.0).abs() < 1e-8);
    let normal = unit_vector(b(1.0, 1.0, 1.0));
    let d = Lambertian::direction(normal, unit_vector(r3(2, 2, 2)));
    assert!(g(d.length()) <= 2.0 + 1e-8);
}
