use raytracer::consts::infinity;
use raytracer::hittable::{HitRecord, Hittable};
use raytracer::material::{Lambertian, MaterialKind};
use raytracer::math::vec3::Vec3;
use raytracer::ray::Ray;
use raytracer::scalar::Scalar;
use raytracer::sphere::Sphere;

fn n(x: f64) -> Scalar {
    Scalar::from_raw((x * 4294967296.0).round() as i64)
}

fn p(x: f64, y: f64, z: f64) -> Vec3 {
    Vec3::new(n(x), n(y), n(z))
}

fn rawv(x: i64, y: i64, z: i64) -> Vec3 {
    Vec3::new(Scalar::from_raw(x), Scalar::from_raw(y), Scalar::from_raw(z))
}

fn grey() -> MaterialKind {
    MaterialKind::Lambertian(Lambertian::new(p(0.5, 0.5, 0.5)))
}

fn unit_sphere() -> Sphere {
    Sphere::new(p(0.0, 0.0, 0.0), n(1.0), grey())
}

fn t_min() -> Scalar {
    Scalar::from_raw(4294967)
}

#[test]
fn a_new_sphere_holds_what_it_was_given() {
    let s = Sphere::new(p(1.0, 2.0, 3.0), n(0.5), grey());
    assert_eq!(s.center, p(1.0, 2.0, 3.0));
    assert_eq!(s.radius, n(0.5));
    assert!(matches!(s.mat, Some(MaterialKind::Lambertian(_))));
}

#[test]
fn a_ray_aimed_at_the_centre_hits_at_distance_less_radius() {
    let ray = Ray::new(p(0.0, 0.0, -5.0), p(0.0, 0.0, 1.0));
    let mut rec = HitRecord::default();
    assert!(unit_sphere().hit(&ray, t_min(), infinity(), &mut rec));
    assert_eq!(rec.t, n(4.0));
    assert_eq!(rec.point, p(0.0, 0.0, -1.0));
    assert_eq!(rec.normal, p(0.0, 0.0, -1.0));
    assert_eq!(rec.normal, -ray.direction);
    assert!(rec.front_face);
    assert!(matches!(rec.mat, Some(MaterialKind::Lambertian(_))));
}

#[test]
fn head_on_hits_along_each_axis_and_for_several_radii() {
    let radii = [0.5, 1.0, 2.0, 3.25];
    let dirs = [p(1.0, 0.0, 0.0), p(0.0, 1.0, 0.0), p(0.0, 0.0, 1.0), p(0.0, 0.0, -1.0)];
    for r in radii {
        for d in dirs {
            let centre = p(1.0, -2.0, 3.0);
            let sphere = Sphere::new(centre, n(r), grey());
            let ray = Ray::new(centre - d * n(7.0), d);
            let mut rec = HitRecord::default();
            assert!(sphere.hit(&ray, t_min(), infinity(), &mut rec));
            assert_eq!(rec.t, n(7.0 - r));
            assert_eq!(rec.normal, -d);
            assert!(rec.front_face);
        }
    }
}

#[test]
fn the_parameter_scales_with_the_length_of_the_direction() {
    let ray = Ray::new(p(0.0, 0.0, -5.0), p(0.0, 0.0, 2.0));
    let mut rec = HitRecord::default();
    assert!(unit_sphere().hit(&ray, t_min(), infinity(), &mut rec));
    assert_eq!(rec.t, n(2.0));
    assert_eq!(rec.point, p(0.0, 0.0, -1.0));
}

#[test]
fn a_ray_that_passes_beyond_the_radius_misses() {
    let ray = Ray::new(p(2.0, 0.0, -5.0), p(0.0, 0.0, 1.0));
    let mut rec = HitRecord::default();
    rec.t = n(42.0);
    assert!(!unit_sphere().hit(&ray, t_min(), infinity(), &mut rec));
    assert_eq!(rec.t, n(42.0));
    assert_eq!(rec.point, p(0.0, 0.0, 0.0));
    assert!(rec.mat.is_none());
}

#[test]
fn rays_with_an_offset_beyond_the_radius_miss() {
    let mut k = 0;
    while k < 50 {
        let offset = 1.01 + 0.37 * k as f64;
        let ray = Ray::new(p(offset, 0.0, -5.0), p(0.0, 0.0, 1.0));
        let mut rec = HitRecord::default();
        assert!(!unit_sphere().hit(&ray, t_min(), infinity(), &mut rec));
        let slanted = Ray::new(p(0.0, offset, -5.0), p(0.0, 0.0, 3.0));
        assert!(!unit_sphere().hit(&slanted, t_min(), infinity(), &mut rec));
        k += 1;
    }
}

#[test]
fn a_tangent_ray_touches_the_sphere() {
    let ray = Ray::new(p(1.0, 0.0, -5.0), p(0.0, 0.0, 1.0));
    let mut rec = HitRecord::default();
    assert!(unit_sphere().hit(&ray, t_min(), infinity(), &mut rec));
    assert_eq!(rec.t, n(5.0));
    assert_eq!(rec.point, p(1.0, 0.0, 0.0));
    assert!(!rec.front_face);
    assert_eq!(rec.normal, p(-1.0, 0.0, 0.0));
}

#[test]
fn from_inside_the_larger_root_is_taken_and_the_normal_is_turned() {
    let ray = Ray::new(p(0.0, 0.0, 0.0), p(0.0, 0.0, 1.0));
    let mut rec = HitRecord::default();
    assert!(unit_sphere().hit(&ray, t_min(), infinity(), &mut rec));
    assert_eq!(rec.t, n(1.0));
    assert_eq!(rec.point, p(0.0, 0.0, 1.0));
    assert_eq!(rec.normal, p(0.0, 0.0, -1.0));
    assert!(!rec.front_face);
}

#[test]
fn the_bounds_are_closed() {
    let ray = Ray::new(p(0.0, 0.0, -5.0), p(0.0, 0.0, 1.0));
    let mut rec = HitRecord::default();
    assert!(unit_sphere().hit(&ray, t_min(), n(4.0), &mut rec));
    assert_eq!(rec.t, n(4.0));
    let mut rec = HitRecord::default();
    assert!(unit_sphere().hit(&ray, n(4.0), infinity(), &mut rec));
    assert_eq!(rec.t, n(4.0));
}

#[test]
fn a_root_beyond_the_upper_bound_is_no_hit() {
    let ray = Ray::new(p(0.0, 0.0, -5.0), p(0.0, 0.0, 1.0));
    let mut rec = HitRecord::default();
    assert!(!unit_sphere().hit(&ray, t_min(), n(3.9), &mut rec));
}

#[test]
fn the_larger_root_is_taken_where_the_smaller_lies_below_the_lower_bound() {
    let ray = Ray::new(p(0.0, 0.0, -5.0), p(0.0, 0.0, 1.0));
    let mut rec = HitRecord::default();
    assert!(unit_sphere().hit(&ray, n(4.5), n(10.0), &mut rec));
    assert_eq!(rec.t, n(6.0));
    assert_eq!(rec.point, p(0.0, 0.0, 1.0));
    assert_eq!(rec.normal, p(0.0, 0.0, -1.0));
    assert!(!rec.front_face);
}

#[test]
fn a_sphere_behind_the_ray_is_not_hit() {
    let ray = Ray::new(p(0.0, 0.0, 5.0), p(0.0, 0.0, 1.0));
    let mut rec = HitRecord::default();
    assert!(!unit_sphere().hit(&ray, t_min(), infinity(), &mut rec));
}

#[test]
fn a_ray_without_direction_hits_nothing() {
    let mut rec = HitRecord::default();
    let still = Ray::new(p(0.0, 0.0, -5.0), p(0.0, 0.0, 0.0));
    assert!(!unit_sphere().hit(&still, t_min(), infinity(), &mut rec));
    let inside = Ray::new(p(0.0, 0.0, 0.0), p(0.0, 0.0, 0.0));
    assert!(!unit_sphere().hit(&inside, t_min(), infinity(), &mut rec));
}

#[test]
fn a_ray_of_a_short_direction_hits_as_one_of_a_long_direction() {
    for dz in [-30000i64, -70000, -1000000, -(1 << 32), -(1 << 40)] {
        let ray = Ray::new(p(0.0, 0.0, 3.0), rawv(0, 0, dz));
        let mut rec = HitRecord::default();
        assert!(unit_sphere().hit(&ray, t_min(), infinity(), &mut rec));
        assert!((rec.point.z.raw - (1i64 << 32)).abs() <= 2 + (dz.abs() >> 32));
        assert_eq!(rec.point.x.raw, 0);
        assert!((rec.normal.z.raw - (1i64 << 32)).abs() <= 2 + (dz.abs() >> 32));
        assert!(rec.front_face);
        assert_eq!(rec.point, ray.at(rec.t));
    }
    let ray = Ray::new(p(0.0, 0.0, 3.0), rawv(0, 0, -70000));
    let mut rec = HitRecord::default();
    assert!(unit_sphere().hit(&ray, t_min(), infinity(), &mut rec));
    assert_eq!(rec.t.raw, 527049830677415);
    assert_eq!(rec.point, rawv(0, 0, 4294967297));
    assert_eq!(rec.normal, rawv(0, 0, 4294967297));
}

#[test]
fn a_meeting_whose_parameter_is_beyond_the_numbers_is_no_hit() {
    let ray = Ray::new(p(0.0, 0.0, 3.0), rawv(0, 0, -1));
    let mut rec = HitRecord::default();
    assert!(!unit_sphere().hit(&ray, t_min(), infinity(), &mut rec));
}

#[test]
fn the_default_sphere_is_a_point_without_material() {
    let s = Sphere::default();
    assert_eq!(s.center, p(0.0, 0.0, 0.0));
    assert_eq!(s.radius.raw, 0);
    assert!(s.mat.is_none());
}

#[test]
fn an_oblique_hit() {
    let sphere = Sphere::new(p(1.0, 2.0, 3.0), n(0.5), grey());
    let ray = Ray::new(p(4.0, 6.0, 3.0), p(-3.0, -4.0, 0.0));
    let mut rec = HitRecord::default();
    assert!(sphere.hit(&ray, t_min(), infinity(), &mut rec));
    assert_eq!(rec.t.raw, 3865470575);
    assert_eq!(rec.point, rawv(5583457459, 10307921476, 12884901888));
    assert_eq!(rec.normal, rawv(2576980326, 3435973768, 0));
    assert!(rec.front_face);
}

#[test]
fn the_ground_sphere_is_hit_from_the_camera() {
    let ground = Sphere::new(p(0.0, -1000.0, 0.0), n(1000.0), grey());
    let ray = Ray::new(p(13.0, 2.0, 3.0), p(-13.0, -2.0, -3.0));
    let mut rec = HitRecord::default();
    assert!(ground.hit(&ray, t_min(), infinity(), &mut rec));
    assert_eq!(rec.t.raw, 4294967300);
    assert_eq!(rec.point, rawv(-52, -8, -12));
    assert_eq!(rec.normal, rawv(0, 4294967295, 0));
    assert!(rec.front_face);
}

#[test]
fn set_face_normal_turns_the_normal_against_the_ray() {
    let ray = Ray::new(p(0.0, 0.0, 0.0), p(0.0, 0.0, 1.0));
    let mut rec = HitRecord::default();
    rec.t = n(3.0);
    rec.set_face_normal(&ray, &p(0.0, 0.0, -1.0));
    assert!(rec.front_face);
    assert_eq!(rec.normal, p(0.0, 0.0, -1.0));
    rec.set_face_normal(&ray, &p(0.0, 0.0, 1.0));
    assert!(!rec.front_face);
    assert_eq!(rec.normal, p(0.0, 0.0, -1.0));
    rec.set_face_normal(&ray, &p(1.0, 0.0, 0.0));
    assert!(!rec.front_face);
    assert_eq!(rec.normal, p(-1.0, 0.0, 0.0));
    assert_eq!(rec.t, n(3.0));
}

#[test]
fn ray_at_is_origin_plus_parameter_times_direction() {
    let ray = Ray::new(p(1.0, 2.0, 3.0), p(0.5, -1.0, 2.0));
    assert_eq!(ray.at(n(0.0)), p(1.0, 2.0, 3.0));
    assert_eq!(ray.at(n(2.0)), p(2.0, 0.0, 7.0));
    assert_eq!(ray.at(n(-1.0)), p(0.5, 3.0, 1.0));
    assert_eq!(Ray::default().origin, p(0.0, 0.0, 0.0));
    assert_eq!(Ray::default().direction, p(0.0, 0.0, 0.0));
}

#[test]
fn the_normal_of_a_hit_never_points_along_the_ray() {
    let sphere = Sphere::new(p(0.5, -0.25, 1.0), n(1.5), grey());
    let mut hits = 0;
    let mut i = 0;
    while i < 500 {
        let origin = Vec3::random_range(n(-4.0), n(4.0));
        let target = Vec3::random_range(n(-1.0), n(2.0));
        let ray = Ray::new(origin, target - origin);
        let mut rec = HitRecord::default();
        if sphere.hit(&ray, t_min(), infinity(), &mut rec) {
            hits += 1;
            assert!(raytracer::math::vec3::dot(ray.direction, rec.normal).raw <= 0);
            assert!(rec.t.raw >= t_min().raw);
        }
        i += 1;
    }
    assert!(hits > 50);
}

#[test]
fn head_on_hits_stay_within_a_step_for_any_radius_from_one_half_on() {
    let radii = [0.5, 0.7, 0.9, 1.3, 2.000001, 17.77, 1000.3];
    for r in radii {
        let centre = p(3.0, -2.0, 40.0);
        let sphere = Sphere::new(centre, n(r), grey());
        let ray = Ray::new(p(3.0, -2.0, -2000.0), p(0.0, 0.0, 1.0));
        let mut rec = HitRecord::default();
        assert!(sphere.hit(&ray, t_min(), infinity(), &mut rec));
        let reach = n(2040.0).raw - n(r).raw;
        assert!(reach <= rec.t.raw && rec.t.raw <= reach + 1);
        assert!(rec.front_face);
        assert_eq!(rec.point, ray.at(rec.t));
        assert_eq!(rec.normal.x.raw, 0);
        assert_eq!(rec.normal.y.raw, 0);
        assert!((rec.normal.z.raw + (1i64 << 32)).abs() <= 2);
    }
}

#[test]
fn every_hit_lies_on_the_surface_with_a_normal_of_unit_length() {
    let sphere = Sphere::new(p(0.5, -0.25, 1.0), n(1.5), grey());
    let scales = [1i64, 1 << 8, 1 << 16, 1 << 24, 1 << 32];
    let mut hits = 0;
    let mut i = 0;
    while i < 500 {
        let origin = Vec3::random_range(n(-4.0), n(4.0));
        let target = Vec3::random_range(n(-1.0), n(2.0));
        let full = target - origin;
        let shrink = scales[i % 5];
        let direction = rawv(full.x.raw / shrink, full.y.raw / shrink, full.z.raw / shrink);
        let ray = Ray::new(origin, direction);
        let mut rec = HitRecord::default();
        if sphere.hit(&ray, t_min(), infinity(), &mut rec) {
            hits += 1;
            assert_eq!(rec.point, ray.at(rec.t));
            let from_centre = (rec.point - sphere.center).length().raw as f64 / 4294967296.0;
            assert!((from_centre - 1.5).abs() < 1e-6);
            let normal = rec.normal.length().raw as f64 / 4294967296.0;
            assert!((normal - 1.0).abs() < 1e-6);
        }
        i += 1;
    }
    assert!(hits > 50);
}

#[test]
fn a_ray_whose_line_passes_beyond_the_radius_misses_whatever_its_length() {
    let sphere = Sphere::new(p(0.5, -0.25, 1.0), n(1.5), grey());
    let scales = [1i64, 1 << 12, 1 << 24];
    let mut misses = 0;
    let mut i = 0;
    while i < 600 {
        let origin = Vec3::random_range(n(-4.0), n(4.0));
        let full = Vec3::random_range(n(-1.0), n(1.0));
        let shrink = scales[i % 3];
        let direction = rawv(full.x.raw / shrink, full.y.raw / shrink, full.z.raw / shrink);
        i += 1;
        if direction == Vec3::default() {
            continue;
        }
        let f = |v: Vec3| [v.x.raw as f64, v.y.raw as f64, v.z.raw as f64];
        let oc = f(origin - sphere.center);
        let d = f(direction);
        let cross = [
            oc[1] * d[2] - oc[2] * d[1],
            oc[2] * d[0] - oc[0] * d[2],
            oc[0] * d[1] - oc[1] * d[0],
        ];
        let norm = |v: [f64; 3]| (v[0] * v[0] + v[1] * v[1] + v[2] * v[2]).sqrt();
        let offset = norm(cross) / norm(d) / 4294967296.0;
        if offset > 1.5 + 1e-6 {
            misses += 1;
            let mut rec = HitRecord::default();
            assert!(!sphere.hit(&Ray::new(origin, direction), t_min(), infinity(), &mut rec));
        }
    }
    assert!(misses > 50);
}
