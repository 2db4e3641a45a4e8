//! Surface materials and their scattering rules.
//!
//! Scattering rewrites a ray in place into its next bounce and returns an
//! attenuation color.  Each rule is deterministic once its random draws are
//! fixed, so [`Material::scatter_with`] takes the draws as an explicit
//! [`ScatterSample`] and has an exact contract; [`Material::scatter`] draws
//! the sample itself and states what holds of every possible draw.

use vstd::prelude::*;
use crate::scalar::{
    DIR_LIMIT, NORM_LIMIT, POS_LIMIT, SCALE, fxdiv, fxmul, fxsqrt, lemma_fxmul_bound,
    lemma_fxsq_nonneg, lemma_mul_mag, lemma_tdiv_mag, lemma_tdiv_nonneg, mag, fx_div, fx_mul,
    fx_sqrt,
};
use crate::vector::{
    Color, Float3, Vec3, dot3, dot_spec, in_box, is_zero_spec, len_spec, lemma_dot_box2,
    ls_spec, refract3, reflect_comp, unit_comp,
};
use crate::objects::{HitData, Interval, clamp_spec};
use crate::ray::{Ray, ray_ok};
use crate::sampling::Sampler;
use crate::EPS;

verus! {

/// Largest fuzz factor the grid admits; values beyond one are accepted
/// unvalidated, as an artistic looseness of the model.
pub const FUZZ_LIMIT: i64 = 17179869184;

/// Smallest index-of-refraction ratio the grid admits: one quarter.
pub const IR_MIN: i64 = 1073741824;

/// Largest index-of-refraction ratio the grid admits: four.
pub const IR_MAX: i64 = 17179869184;

/// A surface material: diffuse, metallic, or refractive.
#[derive(Debug)]
pub enum Material {
    Lambertian { albedo: Color },
    Metallic { albedo: Color, fuzz: i64 },
    Dielectric { ir: i64 },
}

impl Clone for Material {
    fn clone(&self) -> (r: Self)
        ensures
            r == *self,
    {
        match self {
            Material::Lambertian { albedo } => Material::Lambertian { albedo: *albedo },
            Material::Metallic { albedo, fuzz } => Material::Metallic {
                albedo: *albedo,
                fuzz: *fuzz,
            },
            Material::Dielectric { ir } => Material::Dielectric { ir: *ir },
        }
    }
}

impl Copy for Material {

}

/// Every channel lies in the unit interval.
pub open spec fn color_ok(c: Color) -> bool {
    0 <= c.x <= SCALE && 0 <= c.y <= SCALE && 0 <= c.z <= SCALE
}

/// The material's parameters lie on the grid.
pub open spec fn material_ok(m: Material) -> bool {
    match m {
        Material::Lambertian { albedo } => color_ok(albedo),
        Material::Metallic { albedo, fuzz } => color_ok(albedo) && 0 <= fuzz <= FUZZ_LIMIT,
        Material::Dielectric { ir } => IR_MIN <= ir <= IR_MAX,
    }
}

/// The random draws one bounce consumes: a unit direction and a coin in
/// `[0, 1)`.
#[derive(Debug)]
pub struct ScatterSample {
    pub unit: Vec3,
    pub coin: i64,
}

impl Clone for ScatterSample {
    fn clone(&self) -> (r: Self)
        ensures
            r == *self,
    {
        ScatterSample { unit: self.unit, coin: self.coin }
    }
}

impl Copy for ScatterSample {

}

/// The sample's fields lie on the grid.
pub open spec fn sample_ok(d: ScatterSample) -> bool {
    in_box(d.unit, 2 * (SCALE as int)) && 0 <= d.coin < SCALE
}

/// A direction component saturated to the direction box.
pub open spec fn dir_clamp(v: int) -> int {
    clamp_spec(-(DIR_LIMIT as int), DIR_LIMIT as int, v)
}

/// The fifth power of a scalar, in the order the code multiplies.
pub open spec fn pow5_spec(t: int) -> int {
    let t2 = fxmul(t, t);
    let t4 = fxmul(t2, t2);
    fxmul(t4, t)
}

/// Schlick's reflectance approximation.
pub open spec fn reflectance_spec(cos: int, coef: int) -> int {
    let r0 = fxdiv((SCALE as int) - coef, (SCALE as int) + coef);
    let r0s = fxmul(r0, r0);
    r0s + fxmul((SCALE as int) - r0s, pow5_spec((SCALE as int) - cos))
}

/// The next bounce direction and the attenuation of one scattering event,
/// componentwise, for material `m`, incoming ray `r0`, surface normal `hn`
/// and random draws `d`.  The new origin is always the hit point.
pub open spec fn scatter_spec(m: Material, r0: Ray, hn: Vec3, d: ScatterSample) -> (
    (int, int, int),
    (int, int, int),
) {
    match m {
        Material::Lambertian { albedo } => {
            let ox = hn.x + d.unit.x;
            let oy = hn.y + d.unit.y;
            let oz = hn.z + d.unit.z;
            let degenerate = mag(ox) < EPS && mag(oy) < EPS && mag(oz) < EPS;
            let dir = if degenerate {
                (hn.x as int, hn.y as int, hn.z as int)
            } else {
                (ox, oy, oz)
            };
            (
                (dir_clamp(dir.0), dir_clamp(dir.1), dir_clamp(dir.2)),
                (albedo.x as int, albedo.y as int, albedo.z as int),
            )
        },
        Material::Metallic { albedo, fuzz } => {
            let l = len_spec(r0.direction);
            let ux = unit_comp(r0.direction.x as int, l);
            let uy = unit_comp(r0.direction.y as int, l);
            let uz = unit_comp(r0.direction.z as int, l);
            let dp = dot3(ux, uy, uz, hn.x as int, hn.y as int, hn.z as int);
            let ox = reflect_comp(ux, hn.x as int, dp) + fxmul(d.unit.x as int, fuzz as int);
            let oy = reflect_comp(uy, hn.y as int, dp) + fxmul(d.unit.y as int, fuzz as int);
            let oz = reflect_comp(uz, hn.z as int, dp) + fxmul(d.unit.z as int, fuzz as int);
            (
                (dir_clamp(ox), dir_clamp(oy), dir_clamp(oz)),
                (albedo.x as int, albedo.y as int, albedo.z as int),
            )
        },
        Material::Dielectric { ir } => {
            let l = len_spec(r0.direction);
            let ux = unit_comp(r0.direction.x as int, l);
            let uy = unit_comp(r0.direction.y as int, l);
            let uz = unit_comp(r0.direction.z as int, l);
            let cos0 = dot3(ux, uy, uz, hn.x as int, hn.y as int, hn.z as int);
            let entering = cos0 >= 0;
            let coef = if entering {
                ir as int
            } else {
                fxdiv(SCALE as int, ir as int)
            };
            let nx = if entering { hn.x as int } else { -(hn.x as int) };
            let ny = if entering { hn.y as int } else { -(hn.y as int) };
            let nz = if entering { hn.z as int } else { -(hn.z as int) };
            let cos = if entering { cos0 } else { -cos0 };
            let sarg0 = (SCALE as int) - fxmul(cos, cos);
            let sarg = if sarg0 >= 0 { sarg0 } else { 0 };
            let sin = fxsqrt(sarg);
            let dir = if fxmul(coef, sin) > SCALE || reflectance_spec(cos, coef) > d.coin {
                (
                    reflect_comp(ux, hn.x as int, cos0),
                    reflect_comp(uy, hn.y as int, cos0),
                    reflect_comp(uz, hn.z as int, cos0),
                )
            } else {
                refract3(ux, uy, uz, nx, ny, nz, coef)
            };
            (
                (dir_clamp(dir.0), dir_clamp(dir.1), dir_clamp(dir.2)),
                (SCALE as int, SCALE as int, SCALE as int),
            )
        },
    }
}

/// The scattering relation: the new ray and attenuation are exactly what
/// [`scatter_spec`] prescribes, with the origin moved to the hit point.
pub open spec fn scatter_rel(
    m: Material,
    r0: Ray,
    hp: crate::vector::Point3,
    hn: Vec3,
    d: ScatterSample,
    r1: Ray,
    att: Color,
) -> bool {
    let out = scatter_spec(m, r0, hn, d);
    r1.origin == hp && r1.direction.x as int == out.0.0 && r1.direction.y as int == out.0.1
        && r1.direction.z as int == out.0.2 && att.x as int == out.1.0 && att.y as int == out.1.1
        && att.z as int == out.1.2
}

/// Saturates a direction to the direction box of the grid.
fn clamp_dir(v: Vec3) -> (r: Vec3)
    ensures
        r.x as int == dir_clamp(v.x as int),
        r.y as int == dir_clamp(v.y as int),
        r.z as int == dir_clamp(v.z as int),
        in_box(r, DIR_LIMIT as int),
{
    let b: Interval = Interval(-DIR_LIMIT, DIR_LIMIT);
    Float3::new(b.clamp(v.x), b.clamp(v.y), b.clamp(v.z))
}

impl Material {
    /// The material's parameters lie on the grid.
    pub fn is_valid(&self) -> (b: bool)
        ensures
            b == material_ok(*self),
    {
        match self {
            Material::Lambertian { albedo } => {
                0 <= albedo.x && albedo.x <= SCALE && 0 <= albedo.y && albedo.y <= SCALE
                    && 0 <= albedo.z && albedo.z <= SCALE
            },
            Material::Metallic { albedo, fuzz } => {
                0 <= albedo.x && albedo.x <= SCALE && 0 <= albedo.y && albedo.y <= SCALE
                    && 0 <= albedo.z && albedo.z <= SCALE && 0 <= *fuzz && *fuzz <= FUZZ_LIMIT
            },
            Material::Dielectric { ir } => IR_MIN <= *ir && *ir <= IR_MAX,
        }
    }

    /// Scatters `r` off the surface described by `hit`, drawing this
    /// bounce's randomness from `smp`; returns the attenuation.  Every
    /// possible draw yields a ray and color related to the inputs by
    /// [`scatter_rel`].
    pub fn scatter(&self, r: &mut Ray, hit: HitData, smp: &mut Sampler) -> (att: Color)
        requires
            material_ok(*self),
            ray_ok(*old(r)),
            ls_spec(old(r).direction) >= 1,
            in_box(hit.point, POS_LIMIT as int),
            in_box(hit.normal, NORM_LIMIT as int),
        ensures
            exists|d: ScatterSample|
                #[trigger] sample_ok(d) && scatter_rel(
                    *self,
                    *old(r),
                    hit.point,
                    hit.normal,
                    d,
                    *final(r),
                    att,
                ),
            ray_ok(*final(r)),
            final(r).origin == hit.point,
            (*self matches Material::Lambertian { albedo } ==> att == albedo),
            (*self matches Material::Metallic { albedo, fuzz } ==> att == albedo),
            (*self matches Material::Dielectric { ir } ==> att.x == SCALE && att.y == SCALE
                && att.z == SCALE),
            0 <= att.x <= SCALE && 0 <= att.y <= SCALE && 0 <= att.z <= SCALE,
    {
        let unit: Vec3 = Float3::random_unit(smp);
        let coin: i64 = smp.unit_fraction();
        let d: ScatterSample = ScatterSample { unit, coin };
        let att: Color = self.scatter_with(r, hit, d);
        proof {
            assert(sample_ok(d) && scatter_rel(
                *self,
                *old(r),
                hit.point,
                hit.normal,
                d,
                *r,
                att,
            ));
        }
        att
    }

    /// Scatters `r` with the bounce's random draws given explicitly, so the
    /// outcome is pinned exactly by [`scatter_rel`].
    pub fn scatter_with(&self, r: &mut Ray, hit: HitData, d: ScatterSample) -> (att: Color)
        requires
            material_ok(*self),
            ray_ok(*old(r)),
            ls_spec(old(r).direction) >= 1,
            in_box(hit.point, POS_LIMIT as int),
            in_box(hit.normal, NORM_LIMIT as int),
            sample_ok(d),
        ensures
            scatter_rel(*self, *old(r), hit.point, hit.normal, d, *final(r), att),
            ray_ok(*final(r)),
            final(r).origin == hit.point,
            (*self matches Material::Lambertian { albedo } ==> att == albedo),
            (*self matches Material::Metallic { albedo, fuzz } ==> att == albedo),
            (*self matches Material::Dielectric { ir } ==> att.x == SCALE && att.y == SCALE
                && att.z == SCALE),
            0 <= att.x <= SCALE && 0 <= att.y <= SCALE && 0 <= att.z <= SCALE,
    {
        match self {
            Material::Lambertian { albedo } => {
                let raw: Vec3 = hit.normal.add(&d.unit);
                let dir: Vec3 = if raw.is_zero() {
                    hit.normal
                } else {
                    raw
                };
                r.direction = clamp_dir(dir);
                r.origin = hit.point;
                *albedo
            },
            Material::Metallic { albedo, fuzz } => {
                let du: Vec3 = r.direction.normalized();
                proof {
                    lemma_dot_box2(du, hit.normal, 2 * (SCALE as int), NORM_LIMIT as int);
                    assert(3int * ((2int * 4294967296int * 5368709120int) / 4294967296int)
                        == 32212254720int) by (nonlinear_arith);
                    lemma_fxmul_bound(dot_spec(du, hit.normal), hit.normal.x as int,
                        32212254720int, NORM_LIMIT as int, 40265318400int);
                    lemma_fxmul_bound(dot_spec(du, hit.normal), hit.normal.y as int,
                        32212254720int, NORM_LIMIT as int, 40265318400int);
                    lemma_fxmul_bound(dot_spec(du, hit.normal), hit.normal.z as int,
                        32212254720int, NORM_LIMIT as int, 40265318400int);
                    lemma_fxmul_bound(d.unit.x as int, *fuzz as int, 2 * (SCALE as int),
                        FUZZ_LIMIT as int, 34359738368int);
                    lemma_fxmul_bound(d.unit.y as int, *fuzz as int, 2 * (SCALE as int),
                        FUZZ_LIMIT as int, 34359738368int);
                    lemma_fxmul_bound(d.unit.z as int, *fuzz as int, 2 * (SCALE as int),
                        FUZZ_LIMIT as int, 34359738368int);
                }
                let refl: Vec3 = du.reflect(&hit.normal);
                let fuzzed: Vec3 = d.unit.scale(*fuzz);
                let dir: Vec3 = refl.add(&fuzzed);
                r.direction = clamp_dir(dir);
                r.origin = hit.point;
                *albedo
            },
            Material::Dielectric { ir } => {
                let du: Vec3 = r.direction.normalized();
                proof {
                    lemma_dot_box2(du, hit.normal, 2 * (SCALE as int), NORM_LIMIT as int);
                    assert(3int * ((2int * 4294967296int * 5368709120int) / 4294967296int)
                        == 32212254720int) by (nonlinear_arith);
                }
                let cos0: i64 = du.dot(&hit.normal);
                let entering: bool = cos0 >= 0;
                let coef: i64 = if entering {
                    *ir
                } else {
                    proof {
                        lemma_mul_mag(SCALE as int, SCALE as int, SCALE as int, SCALE as int);
                        lemma_tdiv_mag(
                            (SCALE as int) * (SCALE as int),
                            *ir as int,
                            (SCALE as int) * (SCALE as int),
                        );
                        assert((4294967296int * 4294967296int) / (*ir as int) <= 4int
                            * 4294967296int) by (nonlinear_arith)
                            requires *ir as int >= 1073741824;
                        assert((4294967296int * 4294967296int) / (*ir as int) >= 1int)
                            by (nonlinear_arith)
                            requires 1073741824 <= *ir as int <= 17179869184;
                        lemma_tdiv_nonneg((SCALE as int) * (SCALE as int), *ir as int);
                    }
                    fx_div(SCALE, *ir)
                };
                let n: Vec3 = if entering {
                    hit.normal
                } else {
                    hit.normal.neg()
                };
                let cos: i64 = if entering {
                    cos0
                } else {
                    -cos0
                };
                proof {
                    lemma_fxmul_bound(cos as int, cos as int, 32212254720int, 32212254720int,
                        241591910400int);
                    lemma_fxsq_nonneg(cos as int);
                }
                let c2: i64 = fx_mul(cos, cos);
                let sarg0: i64 = SCALE - c2;
                let sarg: i64 = if sarg0 >= 0 {
                    sarg0
                } else {
                    0
                };
                let sin: i64 = fx_sqrt(sarg);
                proof {
                    assert(sin <= 0x2_0000_0000) by (nonlinear_arith)
                        requires
                            (sin as int) * (sin as int) <= (sarg as int) * 4294967296,
                            0 <= sarg as int <= 4294967296,
                            sin >= 0;
                    lemma_fxmul_bound(coef as int, sin as int, 4 * (SCALE as int),
                        0x2_0000_0000int, 0x8_0000_0000int);
                }
                let tir: bool = fx_mul(coef, sin) > SCALE;
                let refl: i64 = reflectance(cos, coef);
                let out: Vec3 = if tir || refl > d.coin {
                    du.reflect(&hit.normal)
                } else {
                    du.refract(&n, coef)
                };
                r.direction = clamp_dir(out);
                r.origin = hit.point;
                Float3::new(SCALE, SCALE, SCALE)
            },
        }
    }
}

/// Schlick's reflectance approximation, tracking [`reflectance_spec`].
fn reflectance(cos: i64, coef: i64) -> (r: i64)
    requires
        mag(cos as int) <= 32212254720,
        0 < coef <= 4 * SCALE,
    ensures
        r as int == reflectance_spec(cos as int, coef as int),
{
    proof {
        lemma_mul_mag((SCALE as int) - coef, SCALE as int, 3 * (SCALE as int), SCALE as int);
        lemma_tdiv_mag(
            ((SCALE as int) - coef) * (SCALE as int),
            (SCALE as int) + coef,
            3 * (SCALE as int) * (SCALE as int),
        );
        assert((3int * 4294967296int * 4294967296int) / (4294967296int + coef) <= 3int
            * 4294967296int) by (nonlinear_arith)
            requires coef > 0;
    }
    let r0: i64 = fx_div(SCALE - coef, SCALE + coef);
    proof {
        lemma_fxmul_bound(r0 as int, r0 as int, 3 * (SCALE as int), 3 * (SCALE as int),
            9 * (SCALE as int));
    }
    let r0s: i64 = fx_mul(r0, r0);
    let t: i64 = SCALE - cos;
    proof {
        lemma_fxmul_bound(t as int, t as int, 0x10_0000_0000int, 0x10_0000_0000int,
            0x100_0000_0000int);
    }
    let t2: i64 = fx_mul(t, t);
    proof {
        lemma_fxmul_bound(t2 as int, t2 as int, 0x100_0000_0000int, 0x100_0000_0000int,
            0x1_0000_0000_0000int);
    }
    let t4: i64 = fx_mul(t2, t2);
    proof {
        lemma_fxmul_bound(t4 as int, t as int, 0x1_0000_0000_0000int, 0x10_0000_0000int,
            0x10_0000_0000_0000int);
    }
    let t5: i64 = fx_mul(t4, t);
    proof {
        lemma_fxmul_bound((SCALE as int) - r0s, t5 as int, 0x10_0000_0000int,
            0x10_0000_0000_0000int, 0x100_0000_0000_0000int);
    }
    let tail: i64 = fx_mul(SCALE - r0s, t5);
    r0s + tail
}

} // verus!
