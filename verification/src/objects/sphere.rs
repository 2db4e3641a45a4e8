//! Spheres and their ray-intersection rule.

use vstd::prelude::*;
use crate::scalar::{
    DIR_LIMIT, NORM_LIMIT, POS_LIMIT, SCALE, T_LIMIT, fxdiv, fxmul, fxsqrt, lemma_fxmul_bound,
    lemma_fxsq_nonneg, mag,
};
use crate::vector::{
    Float3, Point3, dot3, dot_spec, in_box, lemma_dot_box2, lemma_ls_fits, ls3, ls_spec,
};
use crate::material::{Material, material_ok};
use crate::objects::{HitData, Interval};
use crate::ray::{Ray, ray_ok};

verus! {

/// A sphere: center, signed radius and a material.  A negative radius
/// models a hollow, inward-facing shell; the sign only flips the reported
/// normal.
#[derive(Debug)]
pub struct Sphere {
    pub center: Point3,
    pub radius: i64,
    pub material: Material,
}

impl Clone for Sphere {
    fn clone(&self) -> (r: Self)
        ensures
            r == *self,
    {
        Sphere { center: self.center, radius: self.radius, material: self.material }
    }
}

impl Copy for Sphere {

}

/// The sphere lies on the scene grid: its whole surface stays inside the
/// position box, so every true hit point is representable.
pub open spec fn sphere_ok(s: Sphere) -> bool {
    mag(s.center.x as int) + mag(s.radius as int) <= POS_LIMIT as int && mag(s.center.y as int)
        + mag(s.radius as int) <= POS_LIMIT as int && mag(s.center.z as int) + mag(
        s.radius as int,
    ) <= POS_LIMIT as int && s.radius != 0 && material_ok(s.material)
}

/// The intersection rule, componentwise: solve the quadratic
/// `|O + t*D - C|^2 = r^2` without normalizing `D`, prefer the smaller
/// root, fall back to the larger one, and report hit point, outward normal
/// `(P - C) / radius` and parameter `t`.  No hit is reported for a negative
/// discriminant or when both roots fall outside the open interval, and also
/// at the machine limits of the grid: a sphere or ray off the grid, a
/// direction too short to square on the grid, a root beyond [`T_LIMIT`], or
/// a computed point or normal that rounding pushes out of its box (the
/// true values lie inside for every on-grid sphere, so only rounding at a
/// box edge can trigger these).
pub open spec fn sphere_hit_spec(s: Sphere, r: Ray, lo: int, hi: int) -> Option<
    ((int, int, int), (int, int, int), int),
> {
    if !(sphere_ok(s) && ray_ok(r)) {
        None
    } else {
        let ocx = r.origin.x - s.center.x;
        let ocy = r.origin.y - s.center.y;
        let ocz = r.origin.z - s.center.z;
        let dx = r.direction.x as int;
        let dy = r.direction.y as int;
        let dz = r.direction.z as int;
        let a = ls3(dx, dy, dz);
        let b = dot3(ocx, ocy, ocz, dx, dy, dz);
        let c = ls3(ocx, ocy, ocz) - fxmul(s.radius as int, s.radius as int);
        if a < 1 {
            None
        } else {
            let disc = fxmul(b, b) - fxmul(a, c);
            if disc < 0 {
                None
            } else {
                let sd = fxsqrt(disc);
                let t0 = fxdiv(-b - sd, a);
                let t = if lo < t0 && t0 < hi {
                    t0
                } else {
                    t0 + fxdiv(2 * sd, a)
                };
                if !(lo < t && t < hi) {
                    None
                } else if mag(t) > T_LIMIT as int {
                    None
                } else {
                    let px = r.origin.x + fxmul(t, dx);
                    let py = r.origin.y + fxmul(t, dy);
                    let pz = r.origin.z + fxmul(t, dz);
                    if !(mag(px) <= POS_LIMIT as int && mag(py) <= POS_LIMIT as int && mag(pz)
                        <= POS_LIMIT as int) {
                        None
                    } else {
                        let nx = fxdiv(px - s.center.x, s.radius as int);
                        let ny = fxdiv(py - s.center.y, s.radius as int);
                        let nz = fxdiv(pz - s.center.z, s.radius as int);
                        if !(mag(nx) <= NORM_LIMIT as int && mag(ny) <= NORM_LIMIT as int && mag(
                        nz) <= NORM_LIMIT as int) {
                            None
                        } else {
                            Some(((px, py, pz), (nx, ny, nz), t))
                        }
                    }
                }
            }
        }
    }
}

/// A ray aimed straight at a sphere's center meets it at the distance to
/// the center minus the radius: in exact arithmetic, with a unit direction
/// `d` (squared length one) and a center offset `oc = O - C = -k d` for a
/// distance `k` beyond the radius, the quadratic's linear coefficient `b`
/// has value `-k`, the offset's squared length has value `k^2`, so the
/// discriminant `b^2 - a c` has value `k^2 - (k^2 - r^2) = r^2` and the
/// nearer root `(-b - sqrt(disc)) / a` has value `k - r`.  The executable
/// intersection tracks this up to grid rounding.  Components are scaled by
/// `SCALE`, so a unit vector squares to `SCALE * SCALE` exactly.
pub proof fn lemma_head_on_root(
    ocx: int, ocy: int, ocz: int,
    dx: int, dy: int, dz: int,
    k: int, r: int,
)
    requires
        (SCALE as int) * ocx == -(k * dx),
        (SCALE as int) * ocy == -(k * dy),
        (SCALE as int) * ocz == -(k * dz),
        dx * dx + dy * dy + dz * dz == (SCALE as int) * (SCALE as int),
        0 <= r < k,
    ensures
        (SCALE as int) * (ocx * dx + ocy * dy + ocz * dz) == -(k * ((SCALE as int) * (
        SCALE as int))),
        ((SCALE as int) * (SCALE as int)) * (ocx * ocx + ocy * ocy + ocz * ocz) == (k * k) * ((
        SCALE as int) * (SCALE as int)),
        k * k - (k * k - r * r) == r * r,
        k - (k - r) == r,
{
    let s = SCALE as int;
    assert(s * (ocx * dx) == -(k * (dx * dx))) by (nonlinear_arith)
        requires s * ocx == -(k * dx);
    assert(s * (ocy * dy) == -(k * (dy * dy))) by (nonlinear_arith)
        requires s * ocy == -(k * dy);
    assert(s * (ocz * dz) == -(k * (dz * dz))) by (nonlinear_arith)
        requires s * ocz == -(k * dz);
    assert(s * (ocx * dx + ocy * dy + ocz * dz) == s * (ocx * dx) + s * (ocy * dy) + s * (ocz
        * dz)) by (nonlinear_arith);
    assert(-(k * (dx * dx)) + -(k * (dy * dy)) + -(k * (dz * dz)) == -(k * (dx * dx + dy * dy
        + dz * dz))) by (nonlinear_arith);
    assert((s * ocx) * (s * ocx) == (k * k) * (dx * dx)) by (nonlinear_arith)
        requires s * ocx == -(k * dx);
    assert((s * ocy) * (s * ocy) == (k * k) * (dy * dy)) by (nonlinear_arith)
        requires s * ocy == -(k * dy);
    assert((s * ocz) * (s * ocz) == (k * k) * (dz * dz)) by (nonlinear_arith)
        requires s * ocz == -(k * dz);
    assert((s * s) * (ocx * ocx) == (s * ocx) * (s * ocx)) by (nonlinear_arith);
    assert((s * s) * (ocy * ocy) == (s * ocy) * (s * ocy)) by (nonlinear_arith);
    assert((s * s) * (ocz * ocz) == (s * ocz) * (s * ocz)) by (nonlinear_arith);
    assert((s * s) * (ocx * ocx + ocy * ocy + ocz * ocz) == (s * s) * (ocx * ocx) + (s * s) * (
    ocy * ocy) + (s * s) * (ocz * ocz)) by (nonlinear_arith);
    assert((k * k) * (dx * dx) + (k * k) * (dy * dy) + (k * k) * (dz * dz) == (k * k) * (dx * dx
        + dy * dy + dz * dz)) by (nonlinear_arith);
}

impl Sphere {
    /// The sphere lies on the scene grid.
    pub fn is_valid(&self) -> (b: bool)
        ensures
            b == sphere_ok(*self),
    {
        if self.radius == 0 || self.radius < -POS_LIMIT || self.radius > POS_LIMIT {
            return false;
        }
        let rr: i64 = if self.radius >= 0 {
            self.radius
        } else {
            -self.radius
        };
        let lim: i64 = POS_LIMIT - rr;
        -lim <= self.center.x && self.center.x <= lim && -lim <= self.center.y && self.center.y
            <= lim && -lim <= self.center.z && self.center.z <= lim && self.material.is_valid()
    }

    /// The nearest intersection of `ray` with this sphere at a parameter
    /// inside `t_range`, if any, exactly as [`sphere_hit_spec`] prescribes.
    pub fn hit(&self, ray: &Ray, t_range: Interval) -> (res: Option<HitData>)
        ensures
            match res {
                Some(h) => {
                    &&& sphere_hit_spec(*self, *ray, t_range.0 as int, t_range.1 as int)
                        == Some((
                        (h.point.x as int, h.point.y as int, h.point.z as int),
                        (h.normal.x as int, h.normal.y as int, h.normal.z as int),
                        h.t as int,
                    ))
                    &&& *h.material == self.material
                    &&& material_ok(self.material)
                    &&& in_box(h.point, POS_LIMIT as int)
                    &&& in_box(h.normal, NORM_LIMIT as int)
                    &&& t_range.0 < h.t < t_range.1
                    &&& mag(h.t as int) <= T_LIMIT as int
                    &&& ls_spec(ray.direction) >= 1
                    &&& ray_ok(*ray)
                },
                None => sphere_hit_spec(*self, *ray, t_range.0 as int, t_range.1 as int)
                    is None,
            },
    {
        let rb: bool = -POS_LIMIT <= ray.origin.x && ray.origin.x <= POS_LIMIT
            && -POS_LIMIT <= ray.origin.y && ray.origin.y <= POS_LIMIT
            && -POS_LIMIT <= ray.origin.z && ray.origin.z <= POS_LIMIT
            && -DIR_LIMIT <= ray.direction.x && ray.direction.x <= DIR_LIMIT
            && -DIR_LIMIT <= ray.direction.y && ray.direction.y <= DIR_LIMIT
            && -DIR_LIMIT <= ray.direction.z && ray.direction.z <= DIR_LIMIT;
        if !(self.is_valid() && rb) {
            return None;
        }
        let oc: Point3 = ray.origin.sub(&self.center);
        proof {
            lemma_ls_fits(
                ray.direction.x as int,
                ray.direction.y as int,
                ray.direction.z as int,
                DIR_LIMIT as int,
            );
            lemma_ls_fits(oc.x as int, oc.y as int, oc.z as int, 2 * (POS_LIMIT as int));
            lemma_dot_box2(oc, ray.direction, 2 * (POS_LIMIT as int), DIR_LIMIT as int);
            assert(3int * ((2int * 1099511627776int * 68719476736int) / 4294967296int)
                == 105553116266496int) by (nonlinear_arith);
            lemma_fxmul_bound(
                self.radius as int,
                self.radius as int,
                POS_LIMIT as int,
                POS_LIMIT as int,
                281474976710656int,
            );
            lemma_fxsq_nonneg(ray.direction.x as int);
            lemma_fxsq_nonneg(ray.direction.y as int);
            lemma_fxsq_nonneg(ray.direction.z as int);
        }
        let a: i64 = ray.direction.length_squared();
        let b: i64 = oc.dot(&ray.direction);
        let c: i64 = oc.length_squared() - crate::scalar::fx_mul(self.radius, self.radius);
        if a < 1 {
            return None;
        }
        proof {
            lemma_fxmul_bound(
                b as int,
                b as int,
                105553116266496int,
                105553116266496int,
                2594073385365405696int,
            );
            assert(3int * ((68719476736int * 68719476736int) / 4294967296int)
                == 3298534883328int) by (nonlinear_arith);
            assert(3int * ((2int * 1099511627776int * (2int * 1099511627776int))
                / 4294967296int) == 3377699720527872int) by (nonlinear_arith);
            lemma_fxmul_bound(
                a as int,
                c as int,
                4398046511104int,
                4503599627370496int,
                4611686018427387904int,
            );
            assert(4398046511104int * 4503599627370496int == 4611686018427387904int
                * 4294967296int) by (nonlinear_arith);
        }
        let disc: i64 = crate::scalar::fx_mul(b, b) - crate::scalar::fx_mul(a, c);
        if disc < 0 {
            return None;
        }
        let sd: i64 = crate::scalar::fx_sqrt(disc);
        proof {
            assert(sd <= 0x1_0000_0000_0000) by (nonlinear_arith)
                requires
                    (sd as int) * (sd as int) <= (disc as int) * 4294967296,
                    0 <= disc as int <= 0x7fff_ffff_ffff_ffff,
                    sd >= 0;
        }
        let numer: i64 = -b - sd;
        let t0w: i128 = crate::vector::div_wide(numer, a);
        let addw: i128 = crate::vector::div_wide(2 * sd, a);
        let lo: i128 = t_range.0 as i128;
        let hi: i128 = t_range.1 as i128;
        let tw: i128 = if lo < t0w && t0w < hi {
            t0w
        } else {
            t0w + addw
        };
        if !(lo < tw && tw < hi) {
            return None;
        }
        if tw > T_LIMIT as i128 || tw < -(T_LIMIT as i128) {
            return None;
        }
        let t: i64 = tw as i64;
        let pxw: i128 = ray.origin.x as i128 + crate::vector::term(t, ray.direction.x);
        let pyw: i128 = ray.origin.y as i128 + crate::vector::term(t, ray.direction.y);
        let pzw: i128 = ray.origin.z as i128 + crate::vector::term(t, ray.direction.z);
        if !(-(POS_LIMIT as i128) <= pxw && pxw <= POS_LIMIT as i128 && -(POS_LIMIT as i128)
            <= pyw && pyw <= POS_LIMIT as i128 && -(POS_LIMIT as i128) <= pzw && pzw
            <= POS_LIMIT as i128) {
            return None;
        }
        let point: Point3 = Float3::new(pxw as i64, pyw as i64, pzw as i64);
        let nxw: i128 = crate::vector::div_wide(point.x - self.center.x, self.radius);
        let nyw: i128 = crate::vector::div_wide(point.y - self.center.y, self.radius);
        let nzw: i128 = crate::vector::div_wide(point.z - self.center.z, self.radius);
        if !(-(NORM_LIMIT as i128) <= nxw && nxw <= NORM_LIMIT as i128 && -(NORM_LIMIT as i128)
            <= nyw && nyw <= NORM_LIMIT as i128 && -(NORM_LIMIT as i128) <= nzw && nzw
            <= NORM_LIMIT as i128) {
            return None;
        }
        let normal: crate::vector::Vec3 = Float3::new(nxw as i64, nyw as i64, nzw as i64);
        Some(HitData { point, normal, t, material: &self.material })
    }
}

} // verus!
