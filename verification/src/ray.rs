//! Rays and the path integrator.
//!
//! A ray is mutated in place by each material bounce, so one ray value
//! traces a whole light path; the integrator folds the bounce attenuations
//! into a pixel color.

use vstd::prelude::*;
use crate::scalar::{
    DIR_LIMIT, POS_LIMIT, SCALE, T_LIMIT, fits, fxmul, lemma_cancel, lemma_mul_mag,
    lemma_tdiv_mag, lemma_unit_prod, mag,
};
use crate::vector::{
    Color, Float3, Point3, Vec3, in_box, len_spec, lemma_ls_fits, ls_spec, make, unit_comp,
};
use crate::objects::{Interval, World, clamp_spec, world_hit_spec};
use crate::objects::sphere::Sphere;
use crate::material::{ScatterSample, sample_ok, scatter_rel, scatter_spec};
use crate::sampling::Sampler;
use crate::EPS;

verus! {

/// The bounce budget of the path integrator.
pub const MAX_BOUNCES: usize = 50;

/// Sky gradient endpoint at the zenith: a light blue, `(0.5, 0.7, 1.0)` on
/// the fixed-point grid.
pub const SKY_R: i64 = 2147483648;

pub const SKY_G: i64 = 3006477107;

pub const SKY_B: i64 = 4294967296;

/// A half, for centering the background gradient.
pub const HALF: i64 = 2147483648;

/// Origin plus direction, each on the scene grid.
#[derive(Debug)]
pub struct Ray {
    pub origin: Point3,
    pub direction: Vec3,
}

impl Clone for Ray {
    fn clone(&self) -> (r: Self)
        ensures
            r == *self,
    {
        Ray { origin: self.origin, direction: self.direction }
    }
}

impl Copy for Ray {

}

/// The ray lies on the scene grid: origin within the position box and
/// direction within the direction box.
pub open spec fn ray_ok(r: Ray) -> bool {
    in_box(r.origin, POS_LIMIT as int) && in_box(r.direction, DIR_LIMIT as int)
}

/// The point the ray reaches at parameter `t`, componentwise.
pub open spec fn at_spec(r: Ray, t: int) -> (int, int, int) {
    (
        r.origin.x + fxmul(t, r.direction.x as int),
        r.origin.y + fxmul(t, r.direction.y as int),
        r.origin.z + fxmul(t, r.direction.z as int),
    )
}

/// The background gradient for a ray: white at the horizon blended toward
/// the sky blue at the zenith, keyed by the normalized direction's vertical
/// component.  A direction too short to normalize on the grid yields plain
/// white.
pub open spec fn bg_spec(r: Ray) -> (int, int, int) {
    if ls_spec(r.direction) < 1 {
        (SCALE as int, SCALE as int, SCALE as int)
    } else {
        let uy = unit_comp(r.direction.y as int, len_spec(r.direction));
        let a = clamp_spec(0, SCALE as int, fxmul(HALF as int, uy + SCALE));
        (
            fxmul(SCALE as int, (SCALE as int) - a) + fxmul(SKY_R as int, a),
            fxmul(SCALE as int, (SCALE as int) - a) + fxmul(SKY_G as int, a),
            fxmul(SCALE as int, (SCALE as int) - a) + fxmul(SKY_B as int, a),
        )
    }
}

/// Componentwise product of two color triples.
pub open spec fn mul3(c: (int, int, int), a: (int, int, int)) -> (int, int, int) {
    (fxmul(c.0, a.0), fxmul(c.1, a.1), fxmul(c.2, a.2))
}

/// The color the path integrator computes for ray `r` over scene `objs`,
/// when the random draws of the bounces are `draws`: starting from the
/// accumulator `acc`, each bounce multiplies in its scattering attenuation;
/// a miss multiplies in the background and stops; an exhausted bounce
/// budget yields black.
pub open spec fn integrate_spec(
    r: Ray,
    objs: Seq<Sphere>,
    draws: Seq<ScatterSample>,
    acc: (int, int, int),
    fuel: nat,
) -> (int, int, int)
    decreases fuel,
{
    if fuel == 0 {
        (0, 0, 0)
    } else {
        match world_hit_spec(objs, r, EPS as int, i64::MAX as int) {
            Option::None => mul3(acc, bg_spec(r)),
            Option::Some(hw) => {
                let m = objs[hw.1].material;
                let hp: Point3 = make(hw.0.0.0 as i64, hw.0.0.1 as i64, hw.0.0.2 as i64);
                let hn: Vec3 = make(hw.0.1.0 as i64, hw.0.1.1 as i64, hw.0.1.2 as i64);
                let out = scatter_spec(m, r, hn, draws[0]);
                let r2 = Ray {
                    origin: hp,
                    direction: make(out.0.0 as i64, out.0.1 as i64, out.0.2 as i64),
                };
                integrate_spec(
                    r2,
                    objs,
                    draws.drop_first(),
                    mul3(acc, out.1),
                    (fuel - 1) as nat,
                )
            },
        }
    }
}

impl Ray {
    /// The point reached at parameter `t`.
    pub fn at(&self, t: i64) -> (p: Point3)
        requires
            ray_ok(*self),
            mag(t as int) <= T_LIMIT as int,
        ensures
            (p.x as int, p.y as int, p.z as int) == at_spec(*self, t as int),
    {
        proof {
            lemma_mul_mag(t as int, self.direction.x as int, T_LIMIT as int, DIR_LIMIT as int);
            lemma_mul_mag(t as int, self.direction.y as int, T_LIMIT as int, DIR_LIMIT as int);
            lemma_mul_mag(t as int, self.direction.z as int, T_LIMIT as int, DIR_LIMIT as int);
            lemma_tdiv_mag(
                (t as int) * (self.direction.x as int),
                SCALE as int,
                (T_LIMIT as int) * (DIR_LIMIT as int),
            );
            lemma_tdiv_mag(
                (t as int) * (self.direction.y as int),
                SCALE as int,
                (T_LIMIT as int) * (DIR_LIMIT as int),
            );
            lemma_tdiv_mag(
                (t as int) * (self.direction.z as int),
                SCALE as int,
                (T_LIMIT as int) * (DIR_LIMIT as int),
            );
            assert((72057594037927936int * 68719476736int) / 4294967296int
                == 0x1000_0000_0000_0000int) by (nonlinear_arith);
        }
        let step: Vec3 = self.direction.scale(t);
        proof {
            assert((self.direction.x as int) * (t as int) == (t as int) * (self.direction.x as int))
                by (nonlinear_arith);
            assert((self.direction.y as int) * (t as int) == (t as int) * (self.direction.y as int))
                by (nonlinear_arith);
            assert((self.direction.z as int) * (t as int) == (t as int) * (self.direction.z as int))
                by (nonlinear_arith);
        }
        self.origin.add(&step)
    }

    /// The background gradient color of the ray's direction.
    pub fn bg_color(&self) -> (c: Color)
        requires
            in_box(self.direction, DIR_LIMIT as int),
        ensures
            (c.x as int, c.y as int, c.z as int) == bg_spec(*self),
            0 <= c.x <= SCALE && 0 <= c.y <= SCALE && 0 <= c.z <= SCALE,
    {
        proof {
            lemma_ls_fits(
                self.direction.x as int,
                self.direction.y as int,
                self.direction.z as int,
                DIR_LIMIT as int,
            );
        }
        let ls: i64 = self.direction.length_squared();
        if ls < 1 {
            return Float3::new(SCALE, SCALE, SCALE);
        }
        let unit_dir: Vec3 = self.direction.normalized();
        let sum: i64 = unit_dir.y + SCALE;
        proof {
            lemma_mul_mag(HALF as int, sum as int, HALF as int, 3 * (SCALE as int));
            lemma_tdiv_mag(
                (HALF as int) * (sum as int),
                SCALE as int,
                (HALF as int) * 3 * (SCALE as int),
            );
            assert(((HALF as int) * 3 * (SCALE as int)) / (SCALE as int) == 3 * (HALF as int))
                by (nonlinear_arith);
        }
        let a0: i64 = crate::scalar::fx_mul(HALF, sum);
        let a: i64 = Interval(0, SCALE).clamp(a0);
        let white: Color = Float3::new(SCALE, SCALE, SCALE);
        let sky: Color = Float3::new(SKY_R, SKY_G, SKY_B);
        let c: Color = white.lerp(&sky, a);
        proof {
            lemma_cancel((SCALE as int) - a);
            lemma_unit_prod(SKY_R as int, a as int);
            lemma_unit_prod(SKY_G as int, a as int);
            lemma_unit_prod(SKY_B as int, a as int);
        }
        c
    }

    /// The color gathered along this ray: up to [`MAX_BOUNCES`] scattering
    /// events, then the background on escape, or black once the bounce
    /// budget is exhausted.  The result is the integral of the scene under
    /// the sequence of random draws the bounces consumed; a ray that hits
    /// nothing takes exactly the background gradient.
    #[verifier::rlimit(100)]
    pub fn color(self, world: &World, smp: &mut Sampler) -> (c: Color)
        requires
            ray_ok(self),
        ensures
            0 <= c.x <= SCALE && 0 <= c.y <= SCALE && 0 <= c.z <= SCALE,
            exists|draws: Seq<ScatterSample>|
                draws.len() == MAX_BOUNCES && (forall|q: int|
                    0 <= q < draws.len() ==> sample_ok(#[trigger] draws[q])) && (
                c.x as int,
                c.y as int,
                c.z as int,
                ) == integrate_spec(
                    self,
                    world.objects@,
                    draws,
                    (SCALE as int, SCALE as int, SCALE as int),
                    MAX_BOUNCES as nat,
                ),
            world_hit_spec(world.objects@, self, EPS as int, i64::MAX as int) is None ==> (
            c.x as int, c.y as int, c.z as int) == bg_spec(self),
    {
        let ghost objs: Seq<Sphere> = world.objects@;
        let ghost white3: (int, int, int) = (SCALE as int, SCALE as int, SCALE as int);
        let mut ray: Ray = self;
        let mut color: Color = Float3::new(SCALE, SCALE, SCALE);
        let ghost mut taken: Seq<ScatterSample> = Seq::empty();
        let mut k: usize = 0;
        while k < MAX_BOUNCES
            invariant
                k <= MAX_BOUNCES,
                taken.len() == k,
                objs == world.objects@,
                white3 == (SCALE as int, SCALE as int, SCALE as int),
                forall|q: int| 0 <= q < taken.len() ==> sample_ok(#[trigger] taken[q]),
                ray_ok(ray),
                0 <= color.x <= SCALE && 0 <= color.y <= SCALE && 0 <= color.z <= SCALE,
                k == 0 ==> ray == self,
                k > 0 ==> !(world_hit_spec(objs, self, EPS as int, i64::MAX as int) is None),
                forall|rest: Seq<ScatterSample>|
                    rest.len() == MAX_BOUNCES - k ==> #[trigger] integrate_spec(
                        self,
                        objs,
                        taken + rest,
                        white3,
                        MAX_BOUNCES as nat,
                    ) == integrate_spec(
                        ray,
                        objs,
                        rest,
                        (color.x as int, color.y as int, color.z as int),
                        (MAX_BOUNCES - k) as nat,
                    ),
            decreases MAX_BOUNCES - k,
        {
            let hit_res: Option<crate::objects::HitData> = world.hit(&ray, Interval(EPS, i64::MAX));
            match hit_res {
                Some(hit) => {
                    let ghost pre_ray: Ray = ray;
                    let ghost pre_color: Color = color;
                    let att: Color = hit.material.scatter(&mut ray, hit, smp);
                    proof {
                        lemma_unit_prod(pre_color.x as int, att.x as int);
                        lemma_unit_prod(pre_color.y as int, att.y as int);
                        lemma_unit_prod(pre_color.z as int, att.z as int);
                    }
                    color = color.mul(&att);
                    proof {
                        let d = choose|d: ScatterSample|
                            #[trigger] sample_ok(d) && scatter_rel(
                                *hit.material,
                                pre_ray,
                                hit.point,
                                hit.normal,
                                d,
                                ray,
                                att,
                            );
                        let i = choose|i: int|
                            0 <= i < objs.len() && #[trigger] world_hit_spec(
                                objs,
                                pre_ray,
                                EPS as int,
                                i64::MAX as int,
                            ) == Some(((
                                (hit.point.x as int, hit.point.y as int, hit.point.z as int),
                                (hit.normal.x as int, hit.normal.y as int, hit.normal.z as int),
                                hit.t as int,
                            ), i)) && *hit.material == objs[i].material;
                        assert forall|rest2: Seq<ScatterSample>|
                            rest2.len() == MAX_BOUNCES - (k + 1) implies #[trigger] integrate_spec(
                            self,
                            objs,
                            taken.push(d) + rest2,
                            white3,
                            MAX_BOUNCES as nat,
                        ) == integrate_spec(
                            ray,
                            objs,
                            rest2,
                            (color.x as int, color.y as int, color.z as int),
                            (MAX_BOUNCES - (k + 1)) as nat,
                        ) by {
                            let rest = seq![d] + rest2;
                            assert(rest.len() == MAX_BOUNCES - k);
                            assert(taken + rest =~= taken.push(d) + rest2);
                            assert(integrate_spec(self, objs, taken + rest, white3,
                                MAX_BOUNCES as nat) == integrate_spec(
                                pre_ray,
                                objs,
                                rest,
                                (pre_color.x as int, pre_color.y as int, pre_color.z as int),
                                (MAX_BOUNCES - k) as nat,
                            ));
                            assert(rest[0] == d);
                            assert(rest.drop_first() =~= rest2);
                            let hw = world_hit_spec(objs, pre_ray, EPS as int, i64::MAX as int)
                                .unwrap();
                            assert(hw.1 == i);
                            assert(make::<crate::vector::PointT>(
                                hw.0.0.0 as i64,
                                hw.0.0.1 as i64,
                                hw.0.0.2 as i64,
                            ) == hit.point);
                            assert(make::<crate::vector::VectorT>(
                                hw.0.1.0 as i64,
                                hw.0.1.1 as i64,
                                hw.0.1.2 as i64,
                            ) == hit.normal);
                            let out = scatter_spec(objs[i].material, pre_ray, hit.normal, d);
                            assert(ray.origin == hit.point && ray.direction.x as int == out.0.0
                                && ray.direction.y as int == out.0.1 && ray.direction.z as int
                                == out.0.2 && att.x as int == out.1.0 && att.y as int == out.1.1
                                && att.z as int == out.1.2);
                            assert(make::<crate::vector::VectorT>(
                                out.0.0 as i64,
                                out.0.1 as i64,
                                out.0.2 as i64,
                            ) == ray.direction);
                            assert((Ray {
                                origin: make(hw.0.0.0 as i64, hw.0.0.1 as i64, hw.0.0.2 as i64),
                                direction: make(out.0.0 as i64, out.0.1 as i64, out.0.2 as i64),
                            }) == ray);
                        }
                        taken = taken.push(d);
                    }
                },
                None => {
                    let bg: Color = ray.bg_color();
                    proof {
                        lemma_unit_prod(color.x as int, bg.x as int);
                        lemma_unit_prod(color.y as int, bg.y as int);
                        lemma_unit_prod(color.z as int, bg.z as int);
                    }
                    let out: Color = color.mul(&bg);
                    proof {
                        let pad = ScatterSample { unit: make(SCALE, 0, 0), coin: 0 };
                        let rest = Seq::new((MAX_BOUNCES - k) as nat, |q: int| pad);
                        assert(integrate_spec(self, objs, taken + rest, white3,
                            MAX_BOUNCES as nat) == integrate_spec(
                            ray,
                            objs,
                            rest,
                            (color.x as int, color.y as int, color.z as int),
                            (MAX_BOUNCES - k) as nat,
                        ));
                        assert((out.x as int, out.y as int, out.z as int) == integrate_spec(
                            ray,
                            objs,
                            rest,
                            (color.x as int, color.y as int, color.z as int),
                            (MAX_BOUNCES - k) as nat,
                        ));
                        let draws = taken + rest;
                        assert(draws.len() == MAX_BOUNCES && (forall|q: int|
                            0 <= q < draws.len() ==> sample_ok(#[trigger] draws[q])) && (
                        out.x as int,
                        out.y as int,
                        out.z as int,
                        ) == integrate_spec(self, objs, draws, white3, MAX_BOUNCES as nat));
                        if k == 0 {
                            lemma_cancel(bg_spec(self).0);
                            lemma_cancel(bg_spec(self).1);
                            lemma_cancel(bg_spec(self).2);
                        }
                    }
                    return out;
                },
            }
            k = k + 1;
        }
        proof {
            assert(taken + Seq::<ScatterSample>::empty() =~= taken);
            assert(integrate_spec(self, objs, taken, white3, MAX_BOUNCES as nat) == (0int, 0int, 0int));
        }
        Float3::new(0, 0, 0)
    }
}

/// The path never escapes the scene within `fuel` bounces: every step of
/// the integration finds a hit.
pub open spec fn absorbed(
    r: Ray,
    objs: Seq<Sphere>,
    draws: Seq<ScatterSample>,
    fuel: nat,
) -> bool
    decreases fuel,
{
    if fuel == 0 {
        true
    } else {
        match world_hit_spec(objs, r, EPS as int, i64::MAX as int) {
            Option::None => false,
            Option::Some(hw) => {
                let m = objs[hw.1].material;
                let hp: Point3 = make(hw.0.0.0 as i64, hw.0.0.1 as i64, hw.0.0.2 as i64);
                let hn: Vec3 = make(hw.0.1.0 as i64, hw.0.1.1 as i64, hw.0.1.2 as i64);
                let out = scatter_spec(m, r, hn, draws[0]);
                let r2 = Ray {
                    origin: hp,
                    direction: make(out.0.0 as i64, out.0.1 as i64, out.0.2 as i64),
                };
                absorbed(r2, objs, draws.drop_first(), (fuel - 1) as nat)
            },
        }
    }
}

/// A path that never escapes within the bounce budget contributes black:
/// whatever the starting accumulator, the integrator returns `(0, 0, 0)`
/// once its fuel runs out without a miss.
pub proof fn lemma_absorbed_black(
    r: Ray,
    objs: Seq<Sphere>,
    draws: Seq<ScatterSample>,
    acc: (int, int, int),
    fuel: nat,
)
    requires
        absorbed(r, objs, draws, fuel),
    ensures
        integrate_spec(r, objs, draws, acc, fuel) == ((0int, 0int, 0int)),
    decreases fuel,
{
    if fuel == 0 {
    } else {
        match world_hit_spec(objs, r, EPS as int, i64::MAX as int) {
            Option::None => {
                assert(false);
            },
            Option::Some(hw) => {
                let m = objs[hw.1].material;
                let hp: Point3 = make(hw.0.0.0 as i64, hw.0.0.1 as i64, hw.0.0.2 as i64);
                let hn: Vec3 = make(hw.0.1.0 as i64, hw.0.1.1 as i64, hw.0.1.2 as i64);
                let out = scatter_spec(m, r, hn, draws[0]);
                let r2 = Ray {
                    origin: hp,
                    direction: make(out.0.0 as i64, out.0.1 as i64, out.0.2 as i64),
                };
                lemma_absorbed_black(
                    r2,
                    objs,
                    draws.drop_first(),
                    mul3(acc, out.1),
                    (fuel - 1) as nat,
                );
            },
        }
    }
}

} // verus!
