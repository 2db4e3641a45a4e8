//! Scene objects: parameter intervals, hit records and the world aggregate.

use vstd::prelude::*;
use crate::material::{Material, material_ok};
use crate::scalar::{NORM_LIMIT, POS_LIMIT, T_LIMIT, mag};
use crate::vector::{Point3, Vec3, in_box, ls_spec};
use crate::ray::{Ray, ray_ok};

pub mod sphere;

pub use sphere::{Sphere, sphere_hit_spec, sphere_ok};

verus! {

/// The outcome of one intersection query: hit point, surface normal,
/// parameter `t`, and the hit primitive's material, borrowed for the
/// query's lifetime.
#[derive(Debug)]
pub struct HitData<'a> {
    pub point: Point3,
    pub normal: Vec3,
    pub t: i64,
    pub material: &'a Material,
}

impl<'a> Clone for HitData<'a> {
    fn clone(&self) -> (r: Self)
        ensures
            r == *self,
    {
        HitData { point: self.point, normal: self.normal, t: self.t, material: self.material }
    }
}

impl<'a> Copy for HitData<'a> {

}

/// An ordered collection of primitives; insertion order only breaks ties
/// between equally near hits.
#[derive(Debug)]
pub struct World {
    pub objects: Vec<Sphere>,
}

/// The `t` parameter of a sphere's hit, where there is one.
pub open spec fn sh_t(s: Sphere, r: Ray, lo: int, hi: int) -> int {
    sphere_hit_spec(s, r, lo, hi).unwrap().2
}

/// The nearest hit among the first `n` primitives, with the index of the
/// primitive that produced it; a strictly nearer hit from a later primitive
/// replaces an earlier one, so ties keep the first.
pub open spec fn world_hit_upto(objs: Seq<Sphere>, r: Ray, lo: int, hi: int, n: nat) -> Option<
    (((int, int, int), (int, int, int), int), int),
>
    decreases n,
{
    if n == 0 {
        None
    } else {
        let prev = world_hit_upto(objs, r, lo, hi, (n - 1) as nat);
        let cur = sphere_hit_spec(objs[n - 1], r, lo, hi);
        match cur {
            Option::None => prev,
            Option::Some(c) => match prev {
                Option::None => Some((c, n - 1)),
                Option::Some(p) => if c.2 < p.0.2 {
                    Some((c, n - 1))
                } else {
                    prev
                },
            },
        }
    }
}

/// The nearest hit among all primitives.
pub open spec fn world_hit_spec(objs: Seq<Sphere>, r: Ray, lo: int, hi: int) -> Option<
    (((int, int, int), (int, int, int), int), int),
> {
    world_hit_upto(objs, r, lo, hi, objs.len())
}

impl World {
    /// The nearest hit of `ray` among all primitives with a parameter in
    /// `t_range`: the hit with the strictly smallest `t`, ties broken by
    /// the first primitive in the list.
    pub fn hit(&self, ray: &Ray, t_range: Interval) -> (res: Option<HitData>)
        ensures
            match res {
                Some(h) => {
                    &&& exists|i: int|
                        0 <= i < self.objects@.len() && #[trigger] world_hit_spec(
                            self.objects@,
                            *ray,
                            t_range.0 as int,
                            t_range.1 as int,
                        ) == Some(((
                            (h.point.x as int, h.point.y as int, h.point.z as int),
                            (h.normal.x as int, h.normal.y as int, h.normal.z as int),
                            h.t as int,
                        ), i)) && *h.material == self.objects@[i].material
                    &&& exists|i: int|
                        0 <= i < self.objects@.len() && #[trigger] sphere_hit_spec(
                            self.objects@[i],
                            *ray,
                            t_range.0 as int,
                            t_range.1 as int,
                        ) == Some((
                            (h.point.x as int, h.point.y as int, h.point.z as int),
                            (h.normal.x as int, h.normal.y as int, h.normal.z as int),
                            h.t as int,
                        )) && *h.material == self.objects@[i].material && material_ok(
                            self.objects@[i].material,
                        ) && (forall|j: int|
                            0 <= j < i ==> !(#[trigger] sphere_hit_spec(
                                self.objects@[j],
                                *ray,
                                t_range.0 as int,
                                t_range.1 as int,
                            ) is Some) || sh_t(
                                self.objects@[j],
                                *ray,
                                t_range.0 as int,
                                t_range.1 as int,
                            ) > h.t)
                    &&& forall|j: int|
                        0 <= j < self.objects@.len() && #[trigger] sphere_hit_spec(
                            self.objects@[j],
                            *ray,
                            t_range.0 as int,
                            t_range.1 as int,
                        ) is Some ==> sh_t(
                            self.objects@[j],
                            *ray,
                            t_range.0 as int,
                            t_range.1 as int,
                        ) >= h.t
                    &&& in_box(h.point, POS_LIMIT as int)
                    &&& in_box(h.normal, NORM_LIMIT as int)
                    &&& t_range.0 < h.t < t_range.1
                    &&& mag(h.t as int) <= T_LIMIT as int
                    &&& ls_spec(ray.direction) >= 1
                    &&& ray_ok(*ray)
                },
                None => world_hit_spec(self.objects@, *ray, t_range.0 as int, t_range.1 as int)
                    is None && forall|j: int|
                    0 <= j < self.objects@.len() ==> #[trigger] sphere_hit_spec(
                        self.objects@[j],
                        *ray,
                        t_range.0 as int,
                        t_range.1 as int,
                    ) is None,
            },
    {
        let ghost lo: int = t_range.0 as int;
        let ghost hi: int = t_range.1 as int;
        let mut min_hit: Option<HitData> = None;
        let ghost mut best: int = 0;
        let mut i: usize = 0;
        while i < self.objects.len()
            invariant
                0 <= i <= self.objects@.len(),
                lo == t_range.0 as int,
                hi == t_range.1 as int,
                match min_hit {
                    Some(h) => {
                        &&& 0 <= best < i
                        &&& world_hit_upto(self.objects@, *ray, lo, hi, i as nat) == Some(((
                            (h.point.x as int, h.point.y as int, h.point.z as int),
                            (h.normal.x as int, h.normal.y as int, h.normal.z as int),
                            h.t as int,
                        ), best))
                        &&& sphere_hit_spec(self.objects@[best], *ray, lo, hi) == Some((
                            (h.point.x as int, h.point.y as int, h.point.z as int),
                            (h.normal.x as int, h.normal.y as int, h.normal.z as int),
                            h.t as int,
                        ))
                        &&& *h.material == self.objects@[best].material
                        &&& material_ok(self.objects@[best].material)
                        &&& forall|j: int|
                            0 <= j < i && #[trigger] sphere_hit_spec(self.objects@[j], *ray, lo, hi)
                                is Some ==> sh_t(self.objects@[j], *ray, lo, hi) >= h.t && (j < best
                                ==> sh_t(self.objects@[j], *ray, lo, hi) > h.t)
                        &&& in_box(h.point, POS_LIMIT as int)
                        &&& in_box(h.normal, NORM_LIMIT as int)
                        &&& t_range.0 < h.t < t_range.1
                        &&& mag(h.t as int) <= T_LIMIT as int
                        &&& ls_spec(ray.direction) >= 1
                        &&& ray_ok(*ray)
                    },
                    None => world_hit_upto(self.objects@, *ray, lo, hi, i as nat) is None
                        && forall|j: int|
                        0 <= j < i ==> #[trigger] sphere_hit_spec(self.objects@[j], *ray, lo, hi)
                            is None,
                },
            decreases self.objects@.len() - i,
        {
            let cur: Option<HitData> = self.objects[i].hit(ray, t_range);
            match cur {
                Some(h) => {
                    match min_hit {
                        Some(old_h) => {
                            if h.t < old_h.t {
                                min_hit = Some(h);
                                proof {
                                    best = i as int;
                                }
                            }
                        },
                        None => {
                            min_hit = Some(h);
                            proof {
                                best = i as int;
                            }
                        },
                    }
                },
                None => {
                },
            }
            i = i + 1;
        }
        min_hit
    }
}

/// A closed range of fixed-point scalars, `(min, max)`.
#[derive(Debug, Clone, Copy, PartialEq, Eq, Structural)]
pub struct Interval(pub i64, pub i64);

/// Saturation of `v` to the range `[lo, hi]`.
pub open spec fn clamp_spec(lo: int, hi: int, v: int) -> int {
    if v < lo {
        lo
    } else if hi < v {
        hi
    } else {
        v
    }
}

impl Interval {
    /// The whole axis.
    pub fn universe() -> (r: Interval)
        ensures
            r == (Interval(i64::MIN, i64::MAX)),
    {
        Interval(i64::MIN, i64::MAX)
    }

    /// Everything at or above zero.
    pub fn positive() -> (r: Interval)
        ensures
            r == (Interval(0, i64::MAX)),
    {
        Interval(0, i64::MAX)
    }

    /// Everything at or below zero.
    pub fn negative() -> (r: Interval)
        ensures
            r == (Interval(i64::MIN, 0)),
    {
        Interval(i64::MIN, 0)
    }

    /// The empty range.
    pub fn empty() -> (r: Interval)
        ensures
            r == (Interval(0, 0)),
    {
        Interval(0, 0)
    }

    /// Strict containment: `min < value < max`.
    pub fn contains(&self, value: i64) -> (r: bool)
        ensures
            r == (self.0 < value && value < self.1),
    {
        self.0 < value && value < self.1
    }

    /// Saturates `value` to the range.
    pub fn clamp(&self, value: i64) -> (r: i64)
        ensures
            r == clamp_spec(self.0 as int, self.1 as int, value as int),
    {
        if value < self.0 {
            self.0
        } else if self.1 < value {
            self.1
        } else {
            value
        }
    }
}

} // verus!
