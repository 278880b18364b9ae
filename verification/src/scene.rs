//! A scene to look at: a large ground sphere, a field of small spheres of
//! random place and material, and three large spheres in the middle.
use crate::consts::{in_unit_interval, random};
use crate::hittable::Hittable;
use crate::hittable_list::{is_first_nearest, HittableList};
use crate::material::{is_filter, Dielectric, Lambertian, MaterialKind, Metal};
use crate::tracer::{has_filters, spec_first_hit, T_MIN_RAW};
use crate::math::vec3::Vec3;
use crate::ray::Ray;
use crate::scalar::{lemma_fraction_of, Scalar, HALF_RAW, MAX_RAW, ONE_RAW};
use crate::sphere::Sphere;
use vstd::prelude::*;

verus! {

/// The raw value of `0.2`, rounded down: the radius of a small sphere, and
/// the height of its centre.
pub const SMALL_RAW: i64 = 858993459;

/// The raw value of `0.9`, rounded down: how far a small sphere may lie
/// from the corner of its cell, and how far it must stay from the point
/// `(4, 0.2, 0)`.
pub const SPREAD_RAW: i64 = 3865470566;

/// The raw value of `0.8`, rounded down: the share of diffuse spheres.
pub const DIFFUSE_SHARE_RAW: i64 = 3435973836;

/// The raw value of `0.95`, rounded down: the share of diffuse and metal
/// spheres together.
pub const METAL_SHARE_RAW: i64 = 4080218931;

/// The raw value of `1.5`: the index of refraction of glass.
pub const GLASS_RAW: i64 = 6442450944;

/// The number of cells on each side of the field, counted from the middle.
pub const FIELD: i32 = 11;

/// The vector of the given raw components.
pub open spec fn raw_vec(x: int, y: int, z: int) -> Vec3 {
    Vec3 { x: Scalar { raw: x as i64 }, y: Scalar { raw: y as i64 }, z: Scalar { raw: z as i64 } }
}

/// The ground: a diffuse grey sphere of radius 1000 under the field.
pub open spec fn spec_ground() -> Sphere {
    Sphere {
        center: raw_vec(0, -1000 * ONE_RAW, 0),
        radius: Scalar { raw: (1000 * ONE_RAW) as i64 },
        mat: Some(
            MaterialKind::Lambertian(Lambertian { albedo: raw_vec(HALF_RAW as int, HALF_RAW as int, HALF_RAW as int) }),
        ),
    }
}

/// The large glass sphere in the middle.
pub open spec fn spec_glass_ball() -> Sphere {
    Sphere {
        center: raw_vec(0, ONE_RAW as int, 0),
        radius: Scalar { raw: ONE_RAW },
        mat: Some(MaterialKind::Dielectric(Dielectric { ir: Scalar { raw: GLASS_RAW } })),
    }
}

/// The large diffuse sphere behind it, of the colour `(0.4, 0.2, 0.1)`.
pub open spec fn spec_diffuse_ball() -> Sphere {
    Sphere {
        center: raw_vec(-4 * ONE_RAW, ONE_RAW as int, 0),
        radius: Scalar { raw: ONE_RAW },
        mat: Some(
            MaterialKind::Lambertian(Lambertian { albedo: raw_vec(1717986918, 858993459, 429496729) }),
        ),
    }
}

/// The large polished metal sphere in front, of the colour
/// `(0.7, 0.6, 0.5)`.
pub open spec fn spec_metal_ball() -> Sphere {
    Sphere {
        center: raw_vec(4 * ONE_RAW, ONE_RAW as int, 0),
        radius: Scalar { raw: ONE_RAW },
        mat: Some(
            MaterialKind::Metal(
                Metal { albedo: raw_vec(3006477107, 2576980377, HALF_RAW as int), fuzz: Scalar { raw: 0 } },
            ),
        ),
    }
}

/// Whether `mat` is a material that a small sphere may have: a diffuse one
/// with an albedo of the unit cube, a metal with an albedo between one half
/// and one and a fuzz up to one half, or glass.
pub open spec fn is_small_material(mat: MaterialKind) -> bool {
    match mat {
        MaterialKind::Lambertian(m) => {
            &&& 0 <= m.albedo.x.raw < ONE_RAW
            &&& 0 <= m.albedo.y.raw < ONE_RAW
            &&& 0 <= m.albedo.z.raw < ONE_RAW
        },
        MaterialKind::Metal(m) => {
            &&& HALF_RAW <= m.albedo.x.raw < ONE_RAW
            &&& HALF_RAW <= m.albedo.y.raw < ONE_RAW
            &&& HALF_RAW <= m.albedo.z.raw < ONE_RAW
            &&& 0 <= m.fuzz.raw < HALF_RAW
        },
        MaterialKind::Dielectric(m) => m.ir.raw == GLASS_RAW,
    }
}

/// Whether `s` is a small sphere of the cell `(a, b)` of the field: of the
/// radius 0.2, resting on the ground within 0.9 of the corner of the cell,
/// farther than 0.9 from the point `(4, 0.2, 0)`, of a material that small
/// spheres may have.
pub open spec fn is_small_sphere_of(s: Sphere, a: int, b: int) -> bool {
    &&& s.radius.raw == SMALL_RAW
    &&& s.center.y.raw == SMALL_RAW
    &&& a * ONE_RAW <= s.center.x.raw < a * ONE_RAW + SPREAD_RAW
    &&& b * ONE_RAW <= s.center.z.raw < b * ONE_RAW + SPREAD_RAW
    &&& (s.center - raw_vec(4 * ONE_RAW, SMALL_RAW as int, 0)).length().raw > SPREAD_RAW
    &&& s.mat matches Some(mat) && is_small_material(mat)
}

/// The centre of the small sphere of the cell `(a, b)` for the random
/// fractions `ux` and `uz`: `(a + 0.9 * ux, 0.2, b + 0.9 * uz)`.
pub open spec fn spec_small_center(a: int, b: int, ux: Scalar, uz: Scalar) -> Vec3 {
    Vec3 {
        x: Scalar::spec_from_int(a) + Scalar { raw: SPREAD_RAW } * ux,
        y: Scalar { raw: SMALL_RAW },
        z: Scalar::spec_from_int(b) + Scalar { raw: SPREAD_RAW } * uz,
    }
}

/// Whether a small sphere around `center` keeps clear of the large metal
/// sphere: whether `center` lies farther than 0.9 from `(4, 0.2, 0)`.
pub open spec fn spec_keeps_clear(center: Vec3) -> bool {
    (center - raw_vec(4 * ONE_RAW, SMALL_RAW as int, 0)).length().raw > SPREAD_RAW
}

/// Whether `s` is what the cell `(a, b)` gets for the random fractions `ux`
/// and `uz`: a small sphere around the centre that they give, or nothing
/// where that would crowd the large metal sphere.
pub open spec fn is_placed(s: Option<Sphere>, a: int, b: int, ux: Scalar, uz: Scalar) -> bool {
    match s {
        Some(sphere) => sphere.center == spec_small_center(a, b, ux, uz) && spec_keeps_clear(
            sphere.center,
        ),
        None => !spec_keeps_clear(spec_small_center(a, b, ux, uz)),
    }
}

/// Whether `s` is a small sphere of some cell of the field.
pub open spec fn is_small_sphere(s: Sphere) -> bool {
    exists|a: int, b: int|
        -FIELD <= a < FIELD && -FIELD <= b < FIELD && #[trigger] is_small_sphere_of(s, a, b)
}

/// The row of the cell that is visited as the `j`th: the field has 22 rows
/// of 22 cells, from `-FIELD` up to `FIELD`.
pub open spec fn cell_row(j: int) -> int {
    j / 22 - 11
}

/// The column of the cell that is visited as the `j`th.
pub open spec fn cell_column(j: int) -> int {
    j % 22 - 11
}

/// Whether `s` is what the cell `(a, b)` may get: a small sphere of the
/// cell at the place that two random fractions give, or nothing where that
/// place would crowd the large metal sphere.
pub open spec fn is_cell_outcome(s: Option<Sphere>, a: int, b: int) -> bool {
    &&& s matches Some(sphere) ==> is_small_sphere_of(sphere, a, b)
    &&& exists|ux: Scalar, uz: Scalar|
        in_unit_interval(ux) && in_unit_interval(uz) && #[trigger] is_placed(s, a, b, ux, uz)
}

/// Whether `cells` holds an outcome for each cell of the field, row by
/// row.
pub open spec fn is_field(cells: Seq<Option<Sphere>>) -> bool {
    &&& cells.len() == 484
    &&& forall|j: int|
        0 <= j < cells.len() ==> is_cell_outcome(#[trigger] cells[j], cell_row(j), cell_column(j))
}

/// The spheres of the first `n` cells, in the order of the cells.
pub open spec fn gather(cells: Seq<Option<Sphere>>, n: int) -> Seq<Sphere>
    decreases n,
{
    if n <= 0 {
        Seq::empty()
    } else {
        match cells[n - 1] {
            Some(sphere) => gather(cells, n - 1).push(sphere),
            None => gather(cells, n - 1),
        }
    }
}

/// What is gathered from the first cells does not depend on a cell that
/// comes after them.
pub proof fn lemma_gather_prefix(cells: Seq<Option<Sphere>>, last: Option<Sphere>, n: int)
    requires
        n <= cells.len(),
    ensures
        gather(cells.push(last), n) == gather(cells, n),
    decreases n,
{
    if n > 0 {
        lemma_gather_prefix(cells, last, n - 1);
    }
}

/// Whether `objects` is a scene as `random_scene` lays it out: the ground
/// first, then at most one small sphere for each cell of the field, then
/// the three large spheres.
pub open spec fn is_random_scene(objects: Seq<Sphere>) -> bool {
    &&& 4 <= objects.len() <= 4 + 4 * FIELD * FIELD
    &&& exists|cells: Seq<Option<Sphere>>| #[trigger]
        is_field(cells) && objects.subrange(1, objects.len() - 3) == gather(
            cells,
            cells.len() as int,
        )
    &&& objects[0] == spec_ground()
    &&& forall|i: int| 1 <= i < objects.len() - 3 ==> is_small_sphere(#[trigger] objects[i])
    &&& objects[objects.len() - 3] == spec_glass_ball()
    &&& objects[objects.len() - 2] == spec_diffuse_ball()
    &&& objects[objects.len() - 1] == spec_metal_ball()
}

/// A random material for a small sphere: diffuse for a `choice` below 0.8,
/// metal below 0.95, else glass.
pub fn small_material(choice: Scalar) -> (mat: MaterialKind)
    ensures
        is_small_material(mat),
        choice.raw < DIFFUSE_SHARE_RAW ==> mat is Lambertian,
        DIFFUSE_SHARE_RAW <= choice.raw < METAL_SHARE_RAW ==> mat is Metal,
        METAL_SHARE_RAW <= choice.raw ==> mat is Dielectric,
{
    let half = Scalar { raw: HALF_RAW };
    let one = Scalar { raw: ONE_RAW };
    if choice.raw < DIFFUSE_SHARE_RAW {
        let p = Vec3::random();
        let q = Vec3::random();
        proof {
            lemma_fraction_of(p.x, q.x);
            lemma_fraction_of(p.y, q.y);
            lemma_fraction_of(p.z, q.z);
        }
        MaterialKind::Lambertian(Lambertian::new(p * q))
    } else if choice.raw < METAL_SHARE_RAW {
        let s = Vec3::random();
        let albedo = Vec3::lerp(half, one, s);
        let u = random();
        let fuzz = crate::consts::lerp(Scalar { raw: 0 }, half, u);
        proof {
            lemma_fraction_of(half, s.x);
            lemma_fraction_of(half, s.y);
            lemma_fraction_of(half, s.z);
            lemma_fraction_of(half, u);
        }
        MaterialKind::Metal(Metal::new(albedo, fuzz))
    } else {
        MaterialKind::Dielectric(Dielectric::new(Scalar { raw: GLASS_RAW }))
    }
}

/// The centre of the small sphere of the cell `(a, b)` for the random
/// fractions `ux` and `uz`.
pub fn small_center(a: i32, b: i32, ux: Scalar, uz: Scalar) -> (center: Vec3)
    ensures
        center == spec_small_center(a as int, b as int, ux, uz),
{
    let spread = Scalar { raw: SPREAD_RAW };
    Vec3::new(
        Scalar::from_int(a) + spread * ux,
        Scalar { raw: SMALL_RAW },
        Scalar::from_int(b) + spread * uz,
    )
}

/// Whether a small sphere around `center` keeps clear of the large metal
/// sphere.
pub fn keeps_clear(center: Vec3) -> (clear: bool)
    ensures
        clear == spec_keeps_clear(center),
{
    let small = Scalar { raw: SMALL_RAW };
    (center - Vec3::new(Scalar::from_int(4), small, Scalar { raw: 0 })).length().raw > SPREAD_RAW
}

/// The small sphere of the cell `(a, b)`, at a random place in it and of a
/// random material, unless it would crowd the large metal sphere.
pub fn small_sphere(a: i32, b: i32) -> (s: Option<Sphere>)
    requires
        -FIELD <= a < FIELD,
        -FIELD <= b < FIELD,
    ensures
        s matches Some(sphere) ==> is_small_sphere_of(sphere, a as int, b as int),
        exists|ux: Scalar, uz: Scalar|
            in_unit_interval(ux) && in_unit_interval(uz) && #[trigger] is_placed(
                s,
                a as int,
                b as int,
                ux,
                uz,
            ),
{
    let small = Scalar { raw: SMALL_RAW };
    let spread = Scalar { raw: SPREAD_RAW };
    let choose_mat = random();
    let ux = random();
    let uz = random();
    proof {
        lemma_fraction_of(spread, ux);
        lemma_fraction_of(spread, uz);
    }
    let center = small_center(a, b, ux, uz);

    let s = if keeps_clear(center) {
        let sphere_material = small_material(choose_mat);
        Some(Sphere::new(center, small, sphere_material))
    } else {
        None
    };
    assert(is_placed(s, a as int, b as int, ux, uz));
    s
}

/// The scene: the ground, the field of small spheres, and the three large
/// spheres.
pub fn random_scene() -> (world: HittableList<Sphere>)
    ensures
        is_random_scene(world.objects@),
{
    let zero = Scalar { raw: 0 };
    let one = Scalar { raw: ONE_RAW };
    let half = Scalar { raw: HALF_RAW };
    let mut world = HittableList::new();

    let ground_material = MaterialKind::Lambertian(Lambertian::new(Vec3::new(half, half, half)));
    world.add(Sphere::new(Vec3::new(zero, Scalar::from_int(-1000), zero), Scalar::from_int(1000), ground_material));

    let ghost ground = world.objects@;
    let mut cells: Ghost<Seq<Option<Sphere>>> = Ghost(Seq::empty());
    assert(world.objects@ =~= ground + gather(cells@, 0));
    let mut a: i32 = -FIELD;
    while a < FIELD
        invariant
            -FIELD <= a <= FIELD,
            ground.len() == 1,
            cells@.len() == 22 * (a + 11),
            forall|j: int|
                0 <= j < cells@.len() ==> is_cell_outcome(
                    #[trigger] cells@[j],
                    cell_row(j),
                    cell_column(j),
                ),
            world.objects@ == ground + gather(cells@, cells@.len() as int),
            1 <= world.objects@.len() <= 1 + (a + FIELD) * 2 * FIELD,
            world.objects@[0] == spec_ground(),
            forall|i: int| 1 <= i < world.objects@.len() ==> is_small_sphere(#[trigger] world.objects@[i]),
        decreases FIELD - a,
    {
        let mut b: i32 = -FIELD;
        while b < FIELD
            invariant
                -FIELD <= a < FIELD,
                -FIELD <= b <= FIELD,
                ground.len() == 1,
                cells@.len() == 22 * (a + 11) + (b + 11),
                forall|j: int|
                    0 <= j < cells@.len() ==> is_cell_outcome(
                        #[trigger] cells@[j],
                        cell_row(j),
                        cell_column(j),
                    ),
                world.objects@ == ground + gather(cells@, cells@.len() as int),
                1 <= world.objects@.len() <= 1 + (a + FIELD) * 2 * FIELD + (b + FIELD),
                world.objects@[0] == spec_ground(),
                forall|i: int| 1 <= i < world.objects@.len() ==> is_small_sphere(#[trigger] world.objects@[i]),
            decreases FIELD - b,
        {
            let outcome = small_sphere(a, b);
            proof {
                let before = cells@;
                lemma_gather_prefix(before, outcome, before.len() as int);
                cells@ = before.push(outcome);
                assert(cell_row(before.len() as int) == a && cell_column(before.len() as int) == b);
            }
            match outcome {
                Some(sphere) => {
                    world.add(sphere);
                    assert(world.objects@ =~= ground + gather(cells@, cells@.len() as int));
                },
                None => {},
            }
            b = b + 1;
        }
        a = a + 1;
    }

    let material1 = MaterialKind::Dielectric(Dielectric::new(Scalar { raw: GLASS_RAW }));
    world.add(Sphere::new(Vec3::new(zero, one, zero), one, material1));

    let material2 = MaterialKind::Lambertian(
        Lambertian::new(
            Vec3::new(Scalar { raw: 1717986918 }, Scalar { raw: 858993459 }, Scalar { raw: 429496729 }),
        ),
    );
    world.add(Sphere::new(Vec3::new(Scalar::from_int(-4), one, zero), one, material2));

    let material3 = MaterialKind::Metal(
        Metal::new(Vec3::new(Scalar { raw: 3006477107 }, Scalar { raw: 2576980377 }, half), zero),
    );
    world.add(Sphere::new(Vec3::new(Scalar::from_int(4), one, zero), one, material3));

    assert(is_field(cells@));
    assert(world.objects@.subrange(1, world.objects@.len() - 3) =~= gather(
        cells@,
        cells@.len() as int,
    ));
    world
}

/// Whether no sphere of `objects` adds light: whether the material of each
/// is a filter.
pub open spec fn all_filters(objects: Seq<Sphere>) -> bool {
    forall|i: int|
        0 <= i < objects.len() ==> match (#[trigger] objects[i]).mat {
            Some(mat) => is_filter(mat),
            None => true,
        }
}

/// A scene of spheres that add no light is a world that adds no light.
pub proof fn lemma_spheres_have_filters(world: &HittableList<Sphere>)
    requires
        all_filters(world.objects@),
    ensures
        has_filters(world),
{
    let t_min = Scalar { raw: T_MIN_RAW };
    let t_max = Scalar { raw: MAX_RAW };
    let objects = world.objects@;
    assert forall|ray: Ray|
        match #[trigger] spec_first_hit(world, ray) {
            Some(rec) => match rec.mat {
                Some(mat) => is_filter(mat),
                None => true,
            },
            None => true,
        } by {
        world.lemma_hit_is_nearest(ray, t_min, t_max);
        match spec_first_hit(world, ray) {
            Some(rec) => {
                let j = choose|j: int| #[trigger]
                    is_first_nearest(objects, objects.len() as int, j, ray, t_min, t_max, rec);
                assert(objects[j].spec_hit(ray, t_min, t_max) == Some(rec));
                assert(rec.mat == objects[j].mat);
            },
            None => {},
        }
    }
}

/// The scene that `random_scene` lays out adds no light.
pub proof fn lemma_random_scene_has_filters(world: &HittableList<Sphere>)
    requires
        is_random_scene(world.objects@),
    ensures
        has_filters(world),
{
    let objects = world.objects@;
    assert forall|i: int| 0 <= i < objects.len() implies match (#[trigger] objects[i]).mat {
        Some(mat) => is_filter(mat),
        None => true,
    } by {
        if 1 <= i < objects.len() - 3 {
            assert(is_small_sphere(objects[i]));
        }
    }
    lemma_spheres_have_filters(world);
}

} // verus!
