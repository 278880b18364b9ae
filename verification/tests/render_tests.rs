use raytracer::camera::Camera;
use raytracer::color::Rgb8;
use raytracer::hittable_list::HittableList;
use raytracer::material::{Lambertian, MaterialKind};
use raytracer::math::vec3::Vec3;
use raytracer::render::{image_coordinate, pixel_ray, render, render_pixel};
use raytracer::scalar::{Scalar, ONE_RAW};
use raytracer::sphere::Sphere;

fn j(x: f64) -> Scalar {
    Scalar::from_raw((x * 4294967296.0).round() as i64)
}

fn o(x: f64, y: f64, z: f64) -> Vec3 {
    Vec3::new(j(x), j(y), j(z))
}

fn pinhole() -> Camera {
    Camera::new(o(0.0, 0.0, 3.0), o(0.0, 0.0, 0.0), o(0.0, 1.0, 0.0), j(90.0), j(1.0), j(0.0), j(3.0))
}

fn one_sphere() -> HittableList<Sphere> {
    let mut world = HittableList::new();
    world.add(Sphere::new(
        o(0.0, 0.0, 0.0),
        j(1.0),
        MaterialKind::Lambertian(Lambertian::new(o(0.5, 0.5, 0.5))),
    ));
    world
}

#[test]
fn image_coordinates_are_fractions_of_the_extent() {
    assert_eq!(image_coordinate(3, j(0.5), 7), j(0.5));
    assert_eq!(image_coordinate(0, j(0.0), 4), j(0.0));
    assert_eq!(image_coordinate(3, j(0.0), 4), j(0.75));
}

#[test]
fn pixel_rays_pass_through_their_pixel() {
    let cam = pinhole();
    let mut i = 0;
    while i < 100 {
        let ray = pixel_ray(&cam, 1, 2, 4, 4);
        assert_eq!(ray.origin, cam.origin);
        let at_focus = ray.origin + ray.direction;
        assert!(at_focus.x.raw >= -3 * ONE_RAW / 2 - 16 && at_focus.x.raw <= 16);
        assert!(at_focus.y.raw >= -16 && at_focus.y.raw <= 3 * ONE_RAW / 2 + 16);
        assert_eq!(at_focus.z.raw, 0);
        i += 1;
    }
}

#[test]
fn a_picture_has_its_rows_and_columns() {
    let world = one_sphere();
    let image = render(&world, &pinhole(), 5, 3, 2, 4);
    assert_eq!(image.len(), 3);
    for row in &image {
        assert_eq!(row.len(), 5);
    }
}

#[test]
fn a_picture_without_extent_is_empty() {
    let world = one_sphere();
    assert_eq!(render(&world, &pinhole(), 5, 0, 2, 4).len(), 0);
    assert_eq!(render(&world, &pinhole(), 5, -3, 2, 4).len(), 0);
    let image = render(&world, &pinhole(), 0, 2, 2, 4);
    assert_eq!(image.len(), 2);
    assert_eq!(image[0].len(), 0);
    assert_eq!(image[1].len(), 0);
    let image = render(&world, &pinhole(), -1, 2, 2, 4);
    assert_eq!(image.len(), 2);
    assert_eq!(image[0].len(), 0);
}

#[test]
fn the_sky_is_bluer_at_the_top_of_the_picture() {
    let empty: HittableList<Sphere> = HittableList::new();
    let image = render(&empty, &pinhole(), 3, 9, 4, 4);
    for x in 0..3 {
        assert!(image[0][x].r < image[8][x].r);
        assert!(image[0][x].g < image[8][x].g);
        assert_eq!(image[0][x].b, 255);
        assert_eq!(image[8][x].b, 255);
    }
}

#[test]
fn the_sphere_in_the_middle_is_darker_than_the_sky() {
    let world = one_sphere();
    let image = render(&world, &pinhole(), 9, 9, 8, 10);
    let middle = image[4][4];
    let corner = image[0][0];
    assert!(middle.r > 0 && middle.r < 255);
    assert!(middle.r < corner.r);
    assert!(middle.g < corner.g);
    assert!(middle.b < corner.b);
}

#[test]
fn a_pixel_without_samples_or_bounces_is_black() {
    let world = one_sphere();
    let cam = pinhole();
    assert_eq!(render_pixel(&world, &cam, 1, 1, 3, 3, 0, 10), Rgb8 { r: 0, g: 0, b: 0 });
    assert_eq!(render_pixel(&world, &cam, 1, 1, 3, 3, -5, 10), Rgb8 { r: 0, g: 0, b: 0 });
    assert_eq!(render_pixel(&world, &cam, 1, 1, 3, 3, 10, 0), Rgb8 { r: 0, g: 0, b: 0 });
}

#[test]
fn a_pixel_of_the_sky_straight_ahead() {
    let empty: HittableList<Sphere> = HittableList::new();
    let cam = pinhole();
    let p = render_pixel(&empty, &cam, 50, 50, 101, 101, 10, 5);
    assert!(p.r >= 219 && p.r <= 223);
    assert!(p.g >= 234 && p.g <= 238);
    assert_eq!(p.b, 255);
}
