use raytracer::camera::Camera;
use raytracer::math::vec3::{dot, Vec3};
use raytracer::scalar::{Scalar, ONE_RAW};

fn c(x: f64) -> Scalar {
    Scalar::from_raw((x * 4294967296.0).round() as i64)
}

fn e(x: f64, y: f64, z: f64) -> Vec3 {
    Vec3::new(c(x), c(y), c(z))
}

fn ints(x: i64, y: i64, z: i64) -> Vec3 {
    Vec3::new(Scalar::from_raw(x), Scalar::from_raw(y), Scalar::from_raw(z))
}

fn h(s: Scalar) -> f64 {
    s.raw as f64 / 4294967296.0
}

fn near(v: Vec3, x: f64, y: f64, z: f64) -> bool {
    (h(v.x) - x).abs() < 1e-6 && (h(v.y) - y).abs() < 1e-6 && (h(v.z) - z).abs() < 1e-6
}

fn down_the_z_axis() -> Camera {
    Camera::new(e(0.0, 0.0, 3.0), e(0.0, 0.0, 0.0), e(0.0, 1.0, 0.0), c(90.0), c(1.0), c(0.0), c(3.0))
}

#[test]
fn a_camera_down_the_z_axis() {
    let cam = down_the_z_axis();
    assert_eq!(cam.origin, e(0.0, 0.0, 3.0));
    assert_eq!(cam.w, e(0.0, 0.0, 1.0));
    assert_eq!(cam.u, e(1.0, 0.0, 0.0));
    assert_eq!(cam.v, e(0.0, 1.0, 0.0));
    assert_eq!(cam.horizontal, ints(25769803764, 0, 0));
    assert_eq!(cam.vertical, ints(0, 25769803764, 0));
    assert_eq!(cam.lower_left_corner, ints(-12884901882, -12884901882, 0));
    assert_eq!(cam.lens_radius.raw, 0);
}

#[test]
fn the_viewport_follows_the_field_of_view() {
    let cam = down_the_z_axis();
    assert!(near(cam.horizontal, 6.0, 0.0, 0.0));
    assert!(near(cam.vertical, 0.0, 6.0, 0.0));
    let wide = Camera::new(
        e(0.0, 0.0, 1.0),
        e(0.0, 0.0, 0.0),
        e(0.0, 1.0, 0.0),
        c(60.0),
        c(2.0),
        c(0.0),
        c(1.0),
    );
    let height = 2.0 * (30.0f64).to_radians().tan();
    assert!(near(wide.vertical, 0.0, height, 0.0));
    assert!(near(wide.horizontal, 2.0 * height, 0.0, 0.0));
}

#[test]
fn the_basis_of_a_camera_is_orthonormal() {
    let cam = Camera::new(
        e(13.0, 2.0, 3.0),
        e(0.0, 0.0, 0.0),
        e(0.0, 1.0, 0.0),
        c(20.0),
        c(1.5),
        c(0.1),
        c(10.0),
    );
    assert!(near(cam.w, 0.9636241116, 0.1482498632, 0.2223747948));
    assert!(near(cam.u, 0.2248595064, 0.0, -0.9743911957));
    assert!(near(cam.v, -0.1444533614, 0.9889499366, -0.0333353910));
    assert!(h(dot(cam.u, cam.v)).abs() < 1e-8);
    assert!(h(dot(cam.u, cam.w)).abs() < 1e-8);
    assert!(h(dot(cam.v, cam.w)).abs() < 1e-8);
    assert!((h(cam.u.length()) - 1.0).abs() < 1e-8);
    assert!((h(cam.v.length()) - 1.0).abs() < 1e-8);
    assert!((h(cam.w.length()) - 1.0).abs() < 1e-8);
    assert!((h(cam.lens_radius) - 0.05).abs() < 1e-8);
    assert!(near(cam.lower_left_corner, 3.0237371677, -1.2262841919, 3.4122031985));
}

#[test]
fn rays_through_the_image() {
    let cam = down_the_z_axis();
    let centre = cam.ray_through(c(0.5), c(0.5), e(0.0, 0.0, 0.0));
    assert_eq!(centre.origin, e(0.0, 0.0, 3.0));
    assert_eq!(centre.direction, e(0.0, 0.0, -3.0));
    let corner = cam.ray_through(c(0.0), c(0.0), e(0.0, 0.0, 0.0));
    assert_eq!(corner.origin, e(0.0, 0.0, 3.0));
    assert_eq!(corner.direction, ints(-12884901882, -12884901882, -12884901888));
}

#[test]
fn a_ray_from_a_point_of_the_lens() {
    let cam = Camera::new(
        e(13.0, 2.0, 3.0),
        e(0.0, 0.0, 0.0),
        e(0.0, 1.0, 0.0),
        c(20.0),
        c(1.5),
        c(0.1),
        c(10.0),
    );
    let ray = cam.ray_through(c(0.25), c(0.75), e(0.5, -0.5, 0.0));
    assert_eq!(ray.origin, ints(55874229514, 8483746902, 12783856791));
    assert_eq!(ray.direction, ints(-43251158386, -2516344474, -4041672749));
}

#[test]
fn a_pinhole_camera_has_one_ray_for_each_point() {
    let cam = down_the_z_axis();
    let mut i = 0;
    while i < 100 {
        let ray = cam.get_ray(c(0.25), c(0.75));
        assert_eq!(ray.origin, cam.origin);
        assert_eq!(ray.direction, cam.ray_through(c(0.25), c(0.75), e(0.0, 0.0, 0.0)).direction);
        i += 1;
    }
}

#[test]
fn rays_of_an_open_lens_start_within_it_and_meet_in_the_plane_of_focus() {
    let cam = Camera::new(
        e(0.0, 0.0, 3.0),
        e(0.0, 0.0, 0.0),
        e(0.0, 1.0, 0.0),
        c(90.0),
        c(1.0),
        c(2.0),
        c(3.0),
    );
    assert_eq!(cam.lens_radius.raw, ONE_RAW);
    let mut moved = false;
    let mut i = 0;
    while i < 100 {
        let ray = cam.get_ray(c(0.5), c(0.5));
        let offset = ray.origin - cam.origin;
        assert!(offset.length_squared().raw < ONE_RAW);
        assert_eq!(offset.z.raw, 0);
        assert!(near(ray.origin + ray.direction, 0.0, 0.0, 0.0));
        if ray.origin != cam.origin {
            moved = true;
        }
        i += 1;
    }
    assert!(moved);
}

#[test]
fn a_camera_one_step_from_what_it_looks_at_has_an_orthonormal_frame() {
    let cam = Camera::new(ints(1, 1, 0), ints(0, 0, 0), e(0.0, 0.0, 1.0), c(90.0), c(1.0), c(0.0), c(1.0));
    assert_eq!(cam.w, ints(3037000499, 3037000499, 0));
    assert_eq!(cam.u, ints(-3037000499, 3037000499, 0));
    assert_eq!(cam.v, ints(0, 0, 4294967292));
    assert_eq!(cam.vertical, ints(0, 0, 8589934580));
    assert!((h(cam.vertical.length()) - 2.0).abs() < 1e-8);
    assert!((h(cam.horizontal.length()) - 2.0).abs() < 1e-8);
    assert_eq!(dot(cam.u, cam.w).raw, 0);
}
