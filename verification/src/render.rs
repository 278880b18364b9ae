//! The picture: every pixel is the tone-mapped mean of the radiance along
//! jittered rays through it.
use crate::camera::Camera;
use crate::color::{spec_to_rgb, spec_write_color, to_rgb, write_color, Rgb8};
use crate::consts::{in_unit_interval, random};
use crate::hittable::Hittable;
use crate::math::vec3::{in_unit_disk, Vec3};
use crate::ray::Ray;
use crate::scalar::Scalar;
use crate::tracer::{is_radiance, ray_color};
use vstd::prelude::*;

verus! {

/// The place of a sample on one axis of the image, as a fraction of its
/// extent: `(index + jitter) / extent`.
pub open spec fn spec_image_coordinate(index: int, jitter: Scalar, extent: int) -> Scalar {
    (Scalar::spec_from_int(index) + jitter).spec_div(Scalar::spec_from_int(extent))
}

/// The random draws behind one camera ray, named so that a proof can point
/// at them: the two jitters and the point of the lens.
pub open spec fn lens_sample(ju: Scalar, jv: Scalar, p: Vec3) -> bool {
    in_unit_interval(ju) && in_unit_interval(jv) && in_unit_disk(p)
}

/// Whether `ray` is a camera ray through the pixel `(x, y)`: the ray
/// through a point of the pixel, jittered within it, from a point of the
/// lens.
pub open spec fn is_pixel_ray(cam: &Camera, x: int, y: int, width: int, height: int, ray: Ray) -> bool {
    exists|ju: Scalar, jv: Scalar, p: Vec3| #[trigger]
        lens_sample(ju, jv, p) && ray == cam.spec_ray_through(
            spec_image_coordinate(x, ju, width),
            spec_image_coordinate(y, jv, height),
            p,
        )
}

/// The values of one sample, named so that a proof can point at them: the
/// sum so far, the camera ray and the radiance along it.
pub open spec fn sample(sum: Vec3, ray: Ray, radiance: Vec3) -> bool {
    true
}

/// Whether `sum` may be the sum of the radiance along `n` camera rays
/// through the pixel `(x, y)`, added one after the other.
pub open spec fn is_sample_sum<W: Hittable>(
    world: &W,
    cam: &Camera,
    x: int,
    y: int,
    width: int,
    height: int,
    depth: int,
    n: int,
    sum: Vec3,
) -> bool
    decreases n,
{
    if n <= 0 {
        sum == Vec3::spec_zero()
    } else {
        exists|prev: Vec3, ray: Ray, radiance: Vec3| #[trigger]
            sample(prev, ray, radiance) && is_sample_sum(
                world,
                cam,
                x,
                y,
                width,
                height,
                depth,
                n - 1,
                prev,
            ) && is_pixel_ray(
                cam,
                x,
                y,
                width,
                height,
                ray,
            ) && is_radiance(world, ray, depth, radiance) && sum == prev + radiance
    }
}

/// Whether `pixel` may be the pixel `(x, y)` of the picture: the
/// tone-mapped sum of `samples` samples, cut to bytes.
pub open spec fn is_pixel<W: Hittable>(
    world: &W,
    cam: &Camera,
    x: int,
    y: int,
    width: int,
    height: int,
    samples: int,
    depth: int,
    pixel: Rgb8,
) -> bool {
    exists|sum: Vec3| #[trigger]
        is_sample_sum(world, cam, x, y, width, height, depth, samples, sum) && pixel
            == spec_to_rgb(spec_write_color(sum, samples))
}

/// The place of a sample on one axis of the image.
pub fn image_coordinate(index: i32, jitter: Scalar, extent: i32) -> (c: Scalar)
    ensures
        c == spec_image_coordinate(index as int, jitter, extent as int),
{
    (Scalar::from_int(index) + jitter) / Scalar::from_int(extent)
}

/// A camera ray through the pixel `(x, y)` of an image of the given size,
/// jittered within the pixel.
pub fn pixel_ray(cam: &Camera, x: i32, y: i32, image_width: i32, image_height: i32) -> (ray: Ray)
    ensures
        is_pixel_ray(cam, x as int, y as int, image_width as int, image_height as int, ray),
{
    let ju = random();
    let jv = random();
    let u = image_coordinate(x, ju, image_width);
    let v = image_coordinate(y, jv, image_height);
    let ray = cam.get_ray(u, v);
    proof {
        let p = choose|p: Vec3| #[trigger] in_unit_disk(p) && ray == cam.spec_ray_through(u, v, p);
        assert(lens_sample(ju, jv, p));
    }
    ray
}

/// The pixel `(x, y)` of the picture of `world` through `cam`: the sum of
/// the radiance along `samples_per_pixel` camera rays, each followed over at
/// most `max_depth` bounces, tone-mapped and cut to bytes.
pub fn render_pixel<W: Hittable>(
    world: &W,
    cam: &Camera,
    x: i32,
    y: i32,
    image_width: i32,
    image_height: i32,
    samples_per_pixel: i32,
    max_depth: i32,
) -> (pixel: Rgb8)
    ensures
        is_pixel(
            world,
            cam,
            x as int,
            y as int,
            image_width as int,
            image_height as int,
            samples_per_pixel as int,
            max_depth as int,
            pixel,
        ),
{
    let mut pixel_color = Vec3::default();
    let mut k: i32 = 0;
    while k < samples_per_pixel
        invariant
            0 <= k,
            k <= samples_per_pixel || k == 0,
            is_sample_sum(
                world,
                cam,
                x as int,
                y as int,
                image_width as int,
                image_height as int,
                max_depth as int,
                k as int,
                pixel_color,
            ),
        decreases samples_per_pixel - k,
    {
        let r = pixel_ray(cam, x, y, image_width, image_height);
        let radiance = ray_color(&r, world, max_depth);
        proof {
            assert(sample(pixel_color, r, radiance));
        }
        pixel_color = pixel_color + radiance;
        k = k + 1;
    }
    write_color(&mut pixel_color, samples_per_pixel);
    to_rgb(pixel_color)
}

/// The picture of `world` through `cam`: `image_height` rows from the top
/// down, each of `image_width` pixels from the left. A size below one
/// gives no rows, or empty ones.
pub fn render<W: Hittable>(
    world: &W,
    cam: &Camera,
    image_width: i32,
    image_height: i32,
    samples_per_pixel: i32,
    max_depth: i32,
) -> (image: Vec<Vec<Rgb8>>)
    ensures
        image.len() == if image_height > 0 {
            image_height as int
        } else {
            0
        },
        forall|row: int|
            0 <= row < image.len() ==> (#[trigger] image[row]).len() == if image_width > 0 {
                image_width as int
            } else {
                0
            },
        forall|row: int, x: int|
            0 <= row < image.len() && 0 <= x < image[row].len() ==> is_pixel(
                world,
                cam,
                x,
                image_height - 1 - row,
                image_width as int,
                image_height as int,
                samples_per_pixel as int,
                max_depth as int,
                #[trigger] image[row][x],
            ),
{
    let mut image: Vec<Vec<Rgb8>> = Vec::new();
    let mut row: i32 = 0;
    while row < image_height
        invariant
            0 <= row,
            row <= image_height || row == 0,
            image.len() == row,
            forall|r: int|
                0 <= r < image.len() ==> (#[trigger] image[r]).len() == if image_width > 0 {
                    image_width as int
                } else {
                    0
                },
            forall|r: int, c: int|
                0 <= r < image.len() && 0 <= c < image[r].len() ==> is_pixel(
                    world,
                    cam,
                    c,
                    image_height - 1 - r,
                    image_width as int,
                    image_height as int,
                    samples_per_pixel as int,
                    max_depth as int,
                    #[trigger] image[r][c],
                ),
        decreases image_height - row,
    {
        let y: i32 = image_height - 1 - row;
        let mut line: Vec<Rgb8> = Vec::new();
        let mut x: i32 = 0;
        while x < image_width
            invariant
                0 <= x,
                x <= image_width || x == 0,
                line.len() == x,
                y == image_height - 1 - row,
                forall|c: int|
                    0 <= c < line.len() ==> is_pixel(
                        world,
                        cam,
                        c,
                        y as int,
                        image_width as int,
                        image_height as int,
                        samples_per_pixel as int,
                        max_depth as int,
                        #[trigger] line[c],
                    ),
            decreases image_width - x,
        {
            let pixel = render_pixel(
                world,
                cam,
                x,
                y,
                image_width,
                image_height,
                samples_per_pixel,
                max_depth,
            );
            line.push(pixel);
            x = x + 1;
        }
        image.push(line);
        row = row + 1;
    }
    image
}

} // verus!
