use raytracer::camera::Camera;
use raytracer::hittable_list::HittableList;
use raytracer::material::{Lambertian, MaterialKind, Metal};
use raytracer::math::vec3::Vec3;
use raytracer::ray::Ray;
use raytracer::scalar::{Scalar, ONE_RAW};
use raytracer::sphere::Sphere;
use raytracer::tracer::{background, ray_color};

fn k(x: f64) -> Scalar {
    Scalar::from_raw((x * 4294967296.0).round() as i64)
}

fn m(x: f64, y: f64, z: f64) -> Vec3 {
    Vec3::new(k(x), k(y), k(z))
}

fn exact(x: i64, y: i64, z: i64) -> Vec3 {
    Vec3::new(Scalar::from_raw(x), Scalar::from_raw(y), Scalar::from_raw(z))
}

fn black() -> Vec3 {
    m(0.0, 0.0, 0.0)
}

fn grey_sphere() -> HittableList<Sphere> {
    let mut world = HittableList::new();
    world.add(Sphere::new(
        m(0.0, 0.0, 0.0),
        k(1.0),
        MaterialKind::Lambertian(Lambertian::new(m(0.5, 0.5, 0.5))),
    ));
    world
}

#[test]
fn the_background_blends_white_into_sky_blue() {
    assert_eq!(background(&Ray::new(black(), m(0.0, 1.0, 0.0))), exact(2147483648, 3006477107, 4294967296));
    assert_eq!(background(&Ray::new(black(), m(0.0, -1.0, 0.0))), m(1.0, 1.0, 1.0));
    assert_eq!(background(&Ray::new(black(), m(1.0, 0.0, 0.0))), exact(3221225472, 3650722201, 4294967296));
    assert_eq!(background(&Ray::new(black(), m(1.0, 1.0, 0.0))), exact(2461975347, 3195172126, 4294967296));
    assert_eq!(background(&Ray::new(m(5.0, 6.0, 7.0), m(0.0, 9.0, 0.0))), exact(2147483648, 3006477107, 4294967296));
}

#[test]
fn without_a_bounce_left_the_radiance_is_black() {
    let empty: HittableList<Sphere> = HittableList::new();
    let world = grey_sphere();
    let rays = [
        Ray::new(m(0.0, 0.0, -5.0), m(0.0, 0.0, 1.0)),
        Ray::new(m(0.0, 0.0, -5.0), m(0.0, 1.0, 0.0)),
        Ray::new(m(0.0, 0.0, 0.0), m(0.0, 0.0, 0.0)),
        Ray::new(m(3.0, -2.0, 1.0), m(-1.0, 0.5, 0.25)),
    ];
    for ray in rays {
        assert_eq!(ray_color(&ray, &world, 0), black());
        assert_eq!(ray_color(&ray, &empty, 0), black());
        assert_eq!(ray_color(&ray, &world, -1), black());
        assert_eq!(ray_color(&ray, &world, i32::MIN), black());
    }
}

#[test]
fn a_ray_that_meets_nothing_sees_the_background() {
    let empty: HittableList<Sphere> = HittableList::new();
    let world = grey_sphere();
    let up = Ray::new(m(0.0, 0.0, -5.0), m(0.0, 1.0, 0.0));
    assert_eq!(ray_color(&up, &empty, 50), exact(2147483648, 3006477107, 4294967296));
    assert_eq!(ray_color(&up, &world, 50), exact(2147483648, 3006477107, 4294967296));
    assert_eq!(ray_color(&up, &world, 1), exact(2147483648, 3006477107, 4294967296));
    let mut i = 0;
    while i < 100 {
        let ray = Ray::new(m(0.0, 0.0, -5.0), Vec3::random_range(k(-1.0), k(1.0)));
        assert_eq!(ray_color(&ray, &empty, 7), background(&ray));
        let away = Ray::new(m(0.0, 3.0, 0.0), Vec3::random_range(k(0.5), k(1.0)));
        assert_eq!(ray_color(&away, &world, 7), background(&away));
        i += 1;
    }
}

#[test]
fn a_polished_mirror_filters_what_it_shows() {
    let mut world = HittableList::new();
    world.add(Sphere::new(
        m(0.0, 0.0, 0.0),
        k(1.0),
        MaterialKind::Metal(Metal::new(m(0.8, 0.6, 0.2), k(0.0))),
    ));
    let ray = Ray::new(m(0.0, 0.0, -5.0), m(0.0, 0.0, 1.0));
    assert_eq!(ray_color(&ray, &world, 50), exact(2576980377, 2190433320, 858993459));
    assert_eq!(ray_color(&ray, &world, 2), exact(2576980377, 2190433320, 858993459));
    assert_eq!(ray_color(&ray, &world, 1), black());
}

#[test]
fn a_grey_sphere_seen_down_the_z_axis_is_neither_black_nor_white() {
    let world = grey_sphere();
    let cam = Camera::new(
        m(0.0, 0.0, 3.0),
        m(0.0, 0.0, 0.0),
        m(0.0, 1.0, 0.0),
        k(90.0),
        k(1.0),
        k(0.0),
        k(3.0),
    );
    let mut i = 0;
    while i < 100 {
        let ray = cam.get_ray(k(0.5), k(0.5));
        let color = ray_color(&ray, &world, 50);
        for channel in [color.x, color.y, color.z] {
            assert!(channel.raw > 0);
            assert!(channel.raw < ONE_RAW);
            assert!(channel.raw >= ONE_RAW / 4 - 4);
            assert!(channel.raw <= ONE_RAW / 2);
        }
        i += 1;
    }
}

#[test]
fn the_radiance_of_the_random_scene_is_a_colour() {
    let world = raytracer::scene::random_scene();
    let mut i = 0;
    while i < 300 {
        let target = Vec3::random_range(k(-6.0), k(6.0));
        let origin = m(13.0, 2.0, 3.0);
        let color = ray_color(&Ray::new(origin, target - origin), &world, 12);
        for channel in [color.x, color.y, color.z] {
            assert!(0 <= channel.raw && channel.raw <= ONE_RAW);
        }
        i += 1;
    }
}

#[test]
fn one_bounce_off_the_grey_sphere_is_half_the_sky() {
    let world = grey_sphere();
    let ray = Ray::new(m(0.0, 0.0, -3.0), m(0.0, 0.0, 1.0));
    let mut i = 0;
    while i < 300 {
        let color = ray_color(&ray, &world, 2);
        assert!(ONE_RAW / 4 <= color.x.raw && color.x.raw <= ONE_RAW / 2);
        assert!(ONE_RAW / 4 <= color.y.raw && color.y.raw <= ONE_RAW / 2);
        assert_eq!(color.z.raw, ONE_RAW / 2);
        i += 1;
    }
    assert_eq!(ray_color(&ray, &world, 1), black());
}

#[test]
fn the_sky_is_bright() {
    let mut i = 0;
    while i < 300 {
        let ray = Ray::new(black(), Vec3::random_range(k(-2.0), k(2.0)));
        let sky = background(&ray);
        assert!(ONE_RAW / 2 <= sky.x.raw && sky.x.raw <= ONE_RAW);
        assert!(ONE_RAW / 2 <= sky.y.raw && sky.y.raw <= ONE_RAW);
        assert_eq!(sky.z.raw, ONE_RAW);
        i += 1;
    }
}
