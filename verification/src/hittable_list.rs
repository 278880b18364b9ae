//! Scenes: a list of surfaces that answers with the nearest intersection.
use crate::hittable::{prune, HitRecord, Hittable};
use crate::math::vec3::{dot, unit_vector};
use crate::ray::Ray;
use crate::scalar::Scalar;
use vstd::prelude::*;

verus! {

/// A list of surfaces, itself a surface.
pub struct HittableList<H: Hittable> {
    pub objects: Vec<H>,
}

/// The upper bound that is left once `best` has been found: its parameter,
/// or `t_max` where nothing has been found yet.
pub open spec fn upper_bound(best: Option<HitRecord>, t_max: Scalar) -> Scalar {
    match best {
        Some(rec) => rec.t,
        None => t_max,
    }
}

/// The intersection that a walk over the first `n` surfaces ends with: each
/// surface is asked with the upper bound that the walk has reached, and an
/// answer replaces the one at hand only where it is strictly nearer.
pub open spec fn closest_hit<H: Hittable>(
    objects: Seq<H>,
    n: int,
    ray: Ray,
    t_min: Scalar,
    t_max: Scalar,
) -> Option<HitRecord>
    decreases n,
{
    if n <= 0 {
        None
    } else {
        let prev = closest_hit(objects, n - 1, ray, t_min, t_max);
        let bound = upper_bound(prev, t_max);
        match objects[n - 1].spec_hit(ray, t_min, bound) {
            Some(rec) => if prev.is_none() || rec.t.raw < bound.raw {
                Some(rec)
            } else {
                prev
            },
            None => prev,
        }
    }
}

/// Whether `rec` is what the surface `j` answers on its own, no surface
/// among the first `n` answers with a smaller parameter, and none before
/// `j` with an equal one.
pub open spec fn is_first_nearest<H: Hittable>(
    objects: Seq<H>,
    n: int,
    j: int,
    ray: Ray,
    t_min: Scalar,
    t_max: Scalar,
    rec: HitRecord,
) -> bool {
    &&& 0 <= j < n
    &&& objects[j].spec_hit(ray, t_min, t_max) == Some(rec)
    &&& forall|i: int|
        0 <= i < n ==> (#[trigger] objects[i].spec_hit(ray, t_min, t_max) matches Some(other)
            ==> rec.t.raw <= other.t.raw && (i < j ==> rec.t.raw < other.t.raw))
}

/// Whether `best` is the nearest of the intersections that the first `n`
/// surfaces answer with, each asked on its own with the full bounds: the
/// first of the nearest ones, or nothing where every surface is missed.
pub open spec fn is_nearest<H: Hittable>(
    objects: Seq<H>,
    n: int,
    ray: Ray,
    t_min: Scalar,
    t_max: Scalar,
    best: Option<HitRecord>,
) -> bool {
    match best {
        Some(rec) => exists|j: int| #[trigger]
            is_first_nearest(objects, n, j, ray, t_min, t_max, rec),
        None => forall|i: int|
            0 <= i < n ==> (#[trigger] objects[i].spec_hit(ray, t_min, t_max)).is_none(),
    }
}

/// The walk ends within the bounds.
pub proof fn lemma_closest_in_range<H: Hittable>(
    objects: Seq<H>,
    n: int,
    ray: Ray,
    t_min: Scalar,
    t_max: Scalar,
)
    requires
        0 <= n <= objects.len(),
    ensures
        closest_hit(objects, n, ray, t_min, t_max) matches Some(rec) ==> t_min.raw <= rec.t.raw
            <= t_max.raw,
    decreases n,
{
    if n > 0 {
        lemma_closest_in_range(objects, n - 1, ray, t_min, t_max);
        let prev = closest_hit(objects, n - 1, ray, t_min, t_max);
        objects[n - 1].lemma_hit_in_range(ray, t_min, upper_bound(prev, t_max));
    }
}

/// The normal of what the walk ends with never points along the ray.
pub proof fn lemma_closest_faces_ray<H: Hittable>(
    objects: Seq<H>,
    n: int,
    ray: Ray,
    t_min: Scalar,
    t_max: Scalar,
)
    requires
        0 <= n <= objects.len(),
    ensures
        closest_hit(objects, n, ray, t_min, t_max) matches Some(rec) ==> dot(
            unit_vector(ray.direction),
            rec.normal,
        ).raw <= 0,
    decreases n,
{
    if n > 0 {
        lemma_closest_faces_ray(objects, n - 1, ray, t_min, t_max);
        let prev = closest_hit(objects, n - 1, ray, t_min, t_max);
        objects[n - 1].lemma_hit_faces_ray(ray, t_min, upper_bound(prev, t_max));
    }
}

/// A lower upper bound only removes what the walk ends with, where that
/// lies beyond the new bound.
pub proof fn lemma_closest_prune<H: Hittable>(
    objects: Seq<H>,
    n: int,
    ray: Ray,
    t_min: Scalar,
    bound: Scalar,
    t_max: Scalar,
)
    requires
        0 <= n <= objects.len(),
        bound.raw <= t_max.raw,
    ensures
        closest_hit(objects, n, ray, t_min, bound) == prune(
            closest_hit(objects, n, ray, t_min, t_max),
            bound,
        ),
    decreases n,
{
    if n > 0 {
        lemma_closest_prune(objects, n - 1, ray, t_min, bound, t_max);
        lemma_closest_in_range(objects, n - 1, ray, t_min, t_max);
        lemma_closest_in_range(objects, n - 1, ray, t_min, bound);
        let wide = upper_bound(closest_hit(objects, n - 1, ray, t_min, t_max), t_max);
        let narrow = upper_bound(closest_hit(objects, n - 1, ray, t_min, bound), bound);
        let object = objects[n - 1];
        assert(narrow.raw <= wide.raw);
        object.lemma_hit_in_range(ray, t_min, wide);
        object.lemma_hit_in_range(ray, t_min, narrow);
        object.lemma_hit_prune(ray, t_min, narrow, wide);
    }
}

/// The walk ends with the nearest of the intersections that the surfaces
/// answer with on their own, and with the first of them where several are
/// equally near.
pub proof fn lemma_closest_is_nearest<H: Hittable>(
    objects: Seq<H>,
    n: int,
    ray: Ray,
    t_min: Scalar,
    t_max: Scalar,
)
    requires
        0 <= n <= objects.len(),
    ensures
        is_nearest(objects, n, ray, t_min, t_max, closest_hit(objects, n, ray, t_min, t_max)),
    decreases n,
{
    if n > 0 {
        lemma_closest_is_nearest(objects, n - 1, ray, t_min, t_max);
        lemma_closest_in_range(objects, n - 1, ray, t_min, t_max);
        let prev = closest_hit(objects, n - 1, ray, t_min, t_max);
        let bound = upper_bound(prev, t_max);
        let object = objects[n - 1];
        object.lemma_hit_prune(ray, t_min, bound, t_max);
        object.lemma_hit_in_range(ray, t_min, t_max);
        let cur = closest_hit(objects, n, ray, t_min, t_max);
        match prev {
            None => {
                match cur {
                    Some(rec) => {
                        assert(is_first_nearest(objects, n, n - 1, ray, t_min, t_max, rec));
                    },
                    None => {},
                }
            },
            Some(p) => {
                let j = choose|j: int| #[trigger]
                    is_first_nearest(objects, n - 1, j, ray, t_min, t_max, p);
                match object.spec_hit(ray, t_min, bound) {
                    Some(rec) => {
                        if rec.t.raw < bound.raw {
                            assert(is_first_nearest(objects, n, n - 1, ray, t_min, t_max, rec));
                        } else {
                            assert(is_first_nearest(objects, n, j, ray, t_min, t_max, p));
                        }
                    },
                    None => {
                        assert(is_first_nearest(objects, n, j, ray, t_min, t_max, p));
                    },
                }
            },
        }
    }
}

impl<H: Hittable> HittableList<H> {
    /// The empty scene.
    pub fn new() -> (list: Self)
        ensures
            list.objects@ == Seq::<H>::empty(),
    {
        HittableList { objects: Vec::new() }
    }

    /// Adds `object` behind the surfaces that the scene holds.
    pub fn add(&mut self, object: H)
        ensures
            final(self).objects@ == old(self).objects@.push(object),
    {
        self.objects.push(object);
    }

    /// Removes every surface.
    pub fn clear(&mut self)
        ensures
            final(self).objects@ == Seq::<H>::empty(),
    {
        self.objects.clear();
    }

    /// What the scene answers with is the nearest of the intersections that
    /// its surfaces answer with on their own, and the first of them where
    /// several are equally near; it answers with nothing exactly where
    /// every surface is missed.
    pub proof fn lemma_hit_is_nearest(&self, ray: Ray, t_min: Scalar, t_max: Scalar)
        ensures
            is_nearest(
                self.objects@,
                self.objects@.len() as int,
                ray,
                t_min,
                t_max,
                self.spec_hit(ray, t_min, t_max),
            ),
    {
        lemma_closest_is_nearest(self.objects@, self.objects@.len() as int, ray, t_min, t_max);
    }
}

impl<H: Hittable> Hittable for HittableList<H> {
    /// What the walk over all the surfaces ends with.
    open spec fn spec_hit(&self, ray: Ray, t_min: Scalar, t_max: Scalar) -> Option<HitRecord> {
        closest_hit(self.objects@, self.objects@.len() as int, ray, t_min, t_max)
    }

    proof fn lemma_hit_in_range(&self, ray: Ray, t_min: Scalar, t_max: Scalar) {
        lemma_closest_in_range(self.objects@, self.objects@.len() as int, ray, t_min, t_max);
    }

    proof fn lemma_hit_prune(&self, ray: Ray, t_min: Scalar, bound: Scalar, t_max: Scalar) {
        lemma_closest_prune(self.objects@, self.objects@.len() as int, ray, t_min, bound, t_max);
    }

    proof fn lemma_hit_faces_ray(&self, ray: Ray, t_min: Scalar, t_max: Scalar) {
        lemma_closest_faces_ray(self.objects@, self.objects@.len() as int, ray, t_min, t_max);
    }

    fn hit(&self, ray: &Ray, t_min: Scalar, t_max: Scalar, record: &mut HitRecord) -> (found: bool) {
        let mut temp_rec = HitRecord::default();
        let mut hit_anything = false;
        let mut closest_so_far = t_max;

        let mut i: usize = 0;
        while i < self.objects.len()
            invariant
                0 <= i <= self.objects.len(),
                hit_anything == closest_hit(self.objects@, i as int, *ray, t_min, t_max).is_some(),
                hit_anything ==> Some(*record) == closest_hit(
                    self.objects@,
                    i as int,
                    *ray,
                    t_min,
                    t_max,
                ),
                !hit_anything ==> *record == *old(record),
                closest_so_far == upper_bound(
                    closest_hit(self.objects@, i as int, *ray, t_min, t_max),
                    t_max,
                ),
            decreases self.objects.len() - i,
        {
            if self.objects[i].hit(ray, t_min, closest_so_far, &mut temp_rec) {
                if !hit_anything || temp_rec.t.raw < closest_so_far.raw {
                    hit_anything = true;
                    closest_so_far = temp_rec.t;
                    *record = temp_rec;
                }
            }
            i = i + 1;
        }
        hit_anything
    }
}

} // verus!
