use raytracer::consts::infinity;
use raytracer::hittable::{HitRecord, Hittable};
use raytracer::material::MaterialKind;
use raytracer::math::vec3::Vec3;
use raytracer::ray::Ray;
use raytracer::scalar::{Scalar, ONE_RAW};
use raytracer::scene::{random_scene, small_material, small_sphere, SMALL_RAW, SPREAD_RAW};

fn z(x: f64) -> Scalar {
    Scalar::from_raw((x * 4294967296.0).round() as i64)
}

fn y(a: f64, b: f64, c: f64) -> Vec3 {
    Vec3::new(z(a), z(b), z(c))
}

#[test]
fn the_scene_starts_with_the_ground_and_ends_with_the_three_large_spheres() {
    let world = random_scene();
    let n = world.objects.len();
    assert!(n >= 4 && n <= 488);
    let ground = world.objects[0];
    assert_eq!(ground.center, y(0.0, -1000.0, 0.0));
    assert_eq!(ground.radius, z(1000.0));
    match ground.mat {
        Some(MaterialKind::Lambertian(m)) => assert_eq!(m.albedo, y(0.5, 0.5, 0.5)),
        _ => panic!("the ground is diffuse"),
    }
    let glass = world.objects[n - 3];
    assert_eq!(glass.center, y(0.0, 1.0, 0.0));
    assert_eq!(glass.radius, z(1.0));
    match glass.mat {
        Some(MaterialKind::Dielectric(m)) => assert_eq!(m.ir, z(1.5)),
        _ => panic!("the middle sphere is glass"),
    }
    let diffuse = world.objects[n - 2];
    assert_eq!(diffuse.center, y(-4.0, 1.0, 0.0));
    match diffuse.mat {
        Some(MaterialKind::Lambertian(m)) => {
            assert_eq!(m.albedo.x.raw, 1717986918);
            assert_eq!(m.albedo.y.raw, 858993459);
            assert_eq!(m.albedo.z.raw, 429496729);
        }
        _ => panic!("the far sphere is diffuse"),
    }
    let metal = world.objects[n - 1];
    assert_eq!(metal.center, y(4.0, 1.0, 0.0));
    match metal.mat {
        Some(MaterialKind::Metal(m)) => {
            assert_eq!(m.albedo.x.raw, 3006477107);
            assert_eq!(m.albedo.y.raw, 2576980377);
            assert_eq!(m.albedo.z.raw, 2147483648);
            assert_eq!(m.fuzz.raw, 0);
        }
        _ => panic!("the near sphere is metal"),
    }
}

#[test]
fn the_small_spheres_rest_on_the_ground_within_the_field() {
    let world = random_scene();
    let n = world.objects.len();
    assert!(n > 400);
    for s in &world.objects[1..n - 3] {
        assert_eq!(s.radius.raw, SMALL_RAW);
        assert_eq!(s.center.y.raw, SMALL_RAW);
        assert!(-11 * ONE_RAW <= s.center.x.raw && s.center.x.raw < 11 * ONE_RAW);
        assert!(-11 * ONE_RAW <= s.center.z.raw && s.center.z.raw < 11 * ONE_RAW);
        let gap = s.center - Vec3::new(z(4.0), Scalar::from_raw(SMALL_RAW), z(0.0));
        assert!(gap.length().raw > SPREAD_RAW);
        assert!(s.mat.is_some());
    }
}

#[test]
fn a_small_sphere_lies_in_its_cell() {
    let mut i = 0;
    while i < 200 {
        if let Some(s) = small_sphere(-11, 10) {
            assert!(-11 * ONE_RAW <= s.center.x.raw && s.center.x.raw < -11 * ONE_RAW + SPREAD_RAW);
            assert!(10 * ONE_RAW <= s.center.z.raw && s.center.z.raw < 10 * ONE_RAW + SPREAD_RAW);
        } else {
            panic!("nothing crowds the far corner");
        }
        i += 1;
    }
}

#[test]
fn the_material_of_a_small_sphere_follows_the_choice() {
    let mut i = 0;
    while i < 100 {
        match small_material(z(0.5)) {
            MaterialKind::Lambertian(m) => {
                assert!(0 <= m.albedo.x.raw && m.albedo.x.raw < ONE_RAW);
                assert!(0 <= m.albedo.y.raw && m.albedo.y.raw < ONE_RAW);
                assert!(0 <= m.albedo.z.raw && m.albedo.z.raw < ONE_RAW);
            }
            _ => panic!("below 0.8 the sphere is diffuse"),
        }
        match small_material(z(0.9)) {
            MaterialKind::Metal(m) => {
                assert!(ONE_RAW / 2 <= m.albedo.x.raw && m.albedo.x.raw < ONE_RAW);
                assert!(ONE_RAW / 2 <= m.albedo.y.raw && m.albedo.y.raw < ONE_RAW);
                assert!(ONE_RAW / 2 <= m.albedo.z.raw && m.albedo.z.raw < ONE_RAW);
                assert!(0 <= m.fuzz.raw && m.fuzz.raw < ONE_RAW / 2);
            }
            _ => panic!("below 0.95 the sphere is metal"),
        }
        match small_material(z(0.97)) {
            MaterialKind::Dielectric(m) => assert_eq!(m.ir, z(1.5)),
            _ => panic!("from 0.95 on the sphere is glass"),
        }
        i += 1;
    }
    assert!(matches!(small_material(Scalar::from_raw(3435973835)), MaterialKind::Lambertian(_)));
    assert!(matches!(small_material(Scalar::from_raw(3435973836)), MaterialKind::Metal(_)));
    assert!(matches!(small_material(Scalar::from_raw(4080218930)), MaterialKind::Metal(_)));
    assert!(matches!(small_material(Scalar::from_raw(4080218931)), MaterialKind::Dielectric(_)));
}

#[test]
fn the_camera_of_the_scene_sees_the_ground() {
    let world = random_scene();
    let ray = Ray::new(y(13.0, 2.0, 3.0), y(-13.0, -2.3, -3.0));
    let mut rec = HitRecord::default();
    assert!(world.hit(&ray, Scalar::from_raw(4294967), infinity(), &mut rec));
    assert!(rec.t.raw > 0 && rec.t.raw < ONE_RAW);
}
