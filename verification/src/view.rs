//! The camera: maps pixel coordinates to world-space rays.
//!
//! Construction derives an orthonormal-ish basis and the viewport anchors
//! from the user-facing parameters.  Every derived quantity is computed
//! exactly in wide arithmetic and then saturated to its grid box, so
//! construction and ray generation are total and every generated ray lies
//! on the scene grid.  Angles enter as the tangent of the half angle, the
//! only trigonometric quantity the model consumes.

use vstd::prelude::*;
use crate::scalar::{
    DIR_LIMIT, POS_LIMIT, SCALE, fxdiv, fxmul, fxsqrt, lemma_fxmul_bound, lemma_fxsq_nonneg, mag,
    tdiv, fx_sqrt,
};
use crate::vector::{Float3, Point3, Vec3, SAMPLE_FLOOR, in_box, ls3, ls_spec, make};
use crate::objects::clamp_spec;
use crate::ray::{Ray, ray_ok};
use crate::sampling::Sampler;

verus! {

/// Pixel dimensions of the output image.
#[derive(Debug, Clone, Copy, PartialEq, Eq, Structural)]
pub struct Screen {
    pub height: usize,
    pub width: usize,
}

/// World-space extent of the viewport rectangle.
#[derive(Debug, Clone, Copy, PartialEq, Eq, Structural)]
pub struct Viewport {
    pub height: i64,
    pub width: i64,
}

/// Derived, immutable camera geometry.
#[derive(Debug)]
pub struct Camera {
    pub eye: Point3,
    pub look_at: Point3,
    pub up: Vec3,
    pub viewport: Viewport,
    pub top_left: Point3,
    pub first_pixel: Point3,
    pub du: Vec3,
    pub dv: Vec3,
    pub defocus_tan: i64,
    pub defocus_u: Vec3,
    pub defocus_v: Vec3,
    pub u: Vec3,
    pub v: Vec3,
    pub w: Vec3,
}

/// Saturation to a symmetric box.
pub open spec fn cl(m: int, v: int) -> int {
    clamp_spec(-m, m, v)
}

/// A normalization component, saturated to twice one.
pub open spec fn ucl(v: int, l: int) -> int {
    cl(2 * (SCALE as int), fxdiv(v, l))
}

/// The basis vector `w` of the camera: the normalized eye-to-target
/// direction, or the world z axis when the two points coincide on the grid.
pub open spec fn w_spec(ex: int, ey: int, ez: int, lx: int, ly: int, lz: int) -> (int, int, int) {
    let dx = ex - lx;
    let dy = ey - ly;
    let dz = ez - lz;
    let ls = ls3(dx, dy, dz);
    if ls < 1 {
        (0, 0, SCALE as int)
    } else {
        let l = fxsqrt(ls);
        (ucl(dx, l), ucl(dy, l), ucl(dz, l))
    }
}

/// A saturated cross product component.
pub open spec fn crossc(a1: int, b2: int, a2: int, b1: int) -> int {
    cl(0x10_0000_0000, fxmul(a1, b2) - fxmul(a2, b1))
}

/// The basis vector `u`: the normalized cross product of the up hint and
/// `w`, or the world x axis when they are parallel on the grid.
pub open spec fn u_spec(ux: int, uy: int, uz: int, wx: int, wy: int, wz: int) -> (int, int, int) {
    let cx = crossc(uy, wz, uz, wy);
    let cy = crossc(uz, wx, ux, wz);
    let cz = crossc(ux, wy, uy, wx);
    let ls = ls3(cx, cy, cz);
    if ls < 1 {
        (SCALE as int, 0, 0)
    } else {
        let l = fxsqrt(ls);
        (ucl(cx, l), ucl(cy, l), ucl(cz, l))
    }
}

/// The full derivation of the camera from its parameters, with every
/// intermediate saturated to its box.
pub open spec fn cam_spec(
    eye: Point3,
    look_at: Point3,
    up: Vec3,
    tan_half_vfov: i64,
    tan_half_defocus: i64,
    focus_dist: i64,
    screen: Screen,
) -> Camera {
    let s = SCALE as int;
    let ht = clamp_spec(0, 8 * s, tan_half_vfov as int);
    let fd = clamp_spec(1, 8 * s, focus_dist as int);
    let dt = clamp_spec(0, s, tan_half_defocus as int);
    let sw = clamp_spec(1, 4096, screen.width as int);
    let sh = clamp_spec(1, 4096, screen.height as int);
    let vh = cl(0x8_0000_0000, 2 * fxmul(ht, fd));
    let ratio = clamp_spec(0, 8 * s, tdiv(sw * s, sh));
    let vw = cl(0x40_0000_0000, fxmul(vh, ratio));
    let ex = cl(0x80_0000_0000, eye.x as int);
    let ey = cl(0x80_0000_0000, eye.y as int);
    let ez = cl(0x80_0000_0000, eye.z as int);
    let w3 = w_spec(ex, ey, ez, cl(0x80_0000_0000, look_at.x as int), cl(
        0x80_0000_0000,
        look_at.y as int,
    ), cl(0x80_0000_0000, look_at.z as int));
    let u3 = u_spec(cl(0x2_0000_0000, up.x as int), cl(0x2_0000_0000, up.y as int), cl(
        0x2_0000_0000,
        up.z as int,
    ), w3.0, w3.1, w3.2);
    let vx = crossc(w3.1, u3.2, w3.2, u3.1);
    let vy = crossc(w3.2, u3.0, w3.0, u3.2);
    let vz = crossc(w3.0, u3.1, w3.1, u3.0);
    let vux = cl(0x80_0000_0000, fxmul(u3.0, vw));
    let vuy = cl(0x80_0000_0000, fxmul(u3.1, vw));
    let vuz = cl(0x80_0000_0000, fxmul(u3.2, vw));
    let vvx = cl(0x80_0000_0000, fxmul(vx, -vh));
    let vvy = cl(0x80_0000_0000, fxmul(vy, -vh));
    let vvz = cl(0x80_0000_0000, fxmul(vz, -vh));
    let dux = tdiv(vux, sw);
    let duy = tdiv(vuy, sw);
    let duz = tdiv(vuz, sw);
    let dvx = tdiv(vvx, sh);
    let dvy = tdiv(vvy, sh);
    let dvz = tdiv(vvz, sh);
    let tlx = cl(POS_LIMIT as int, ex - fxmul(w3.0, fd) - fxdiv(vux + vvx, 2 * s));
    let tly = cl(POS_LIMIT as int, ey - fxmul(w3.1, fd) - fxdiv(vuy + vvy, 2 * s));
    let tlz = cl(POS_LIMIT as int, ez - fxmul(w3.2, fd) - fxdiv(vuz + vvz, 2 * s));
    let fpx = cl(POS_LIMIT as int, tlx + fxdiv(dux + dvx, 2 * s));
    let fpy = cl(POS_LIMIT as int, tly + fxdiv(duy + dvy, 2 * s));
    let fpz = cl(POS_LIMIT as int, tlz + fxdiv(duz + dvz, 2 * s));
    let dr = cl(0x2_0000_0000, fxmul(fd, dt));
    Camera {
        eye: make(ex as i64, ey as i64, ez as i64),
        look_at,
        up,
        viewport: Viewport { height: vh as i64, width: vw as i64 },
        top_left: make(tlx as i64, tly as i64, tlz as i64),
        first_pixel: make(fpx as i64, fpy as i64, fpz as i64),
        du: make(dux as i64, duy as i64, duz as i64),
        dv: make(dvx as i64, dvy as i64, dvz as i64),
        defocus_tan: dt as i64,
        defocus_u: make(
            cl(0x2_0000_0000, fxmul(u3.0, dr)) as i64,
            cl(0x2_0000_0000, fxmul(u3.1, dr)) as i64,
            cl(0x2_0000_0000, fxmul(u3.2, dr)) as i64,
        ),
        defocus_v: make(
            cl(0x2_0000_0000, fxmul(vx, dr)) as i64,
            cl(0x2_0000_0000, fxmul(vy, dr)) as i64,
            cl(0x2_0000_0000, fxmul(vz, dr)) as i64,
        ),
        u: make(u3.0 as i64, u3.1 as i64, u3.2 as i64),
        v: make(vx as i64, vy as i64, vz as i64),
        w: make(w3.0 as i64, w3.1 as i64, w3.2 as i64),
    }
}

/// The ray through pixel `(i, j)` for a given defocus-disc draw `(sx, sy)`;
/// the draw is ignored when the defocus tangent is zero.
pub open spec fn ray_at_spec(cam: Camera, i: int, j: int, sx: int, sy: int) -> Ray {
    let ox = if cam.defocus_tan > 0 {
        cl(
            POS_LIMIT as int,
            cam.eye.x + fxmul(sx, cam.defocus_u.x as int) + fxmul(sy, cam.defocus_v.x as int),
        )
    } else {
        cl(POS_LIMIT as int, cam.eye.x as int)
    };
    let oy = if cam.defocus_tan > 0 {
        cl(
            POS_LIMIT as int,
            cam.eye.y + fxmul(sx, cam.defocus_u.y as int) + fxmul(sy, cam.defocus_v.y as int),
        )
    } else {
        cl(POS_LIMIT as int, cam.eye.y as int)
    };
    let oz = if cam.defocus_tan > 0 {
        cl(
            POS_LIMIT as int,
            cam.eye.z + fxmul(sx, cam.defocus_u.z as int) + fxmul(sy, cam.defocus_v.z as int),
        )
    } else {
        cl(POS_LIMIT as int, cam.eye.z as int)
    };
    let cx = cl(POS_LIMIT as int, cam.first_pixel.x + i * cam.dv.x + j * cam.du.x);
    let cy = cl(POS_LIMIT as int, cam.first_pixel.y + i * cam.dv.y + j * cam.du.y);
    let cz = cl(POS_LIMIT as int, cam.first_pixel.z + i * cam.dv.z + j * cam.du.z);
    Ray {
        origin: make(ox as i64, oy as i64, oz as i64),
        direction: make(
            cl(DIR_LIMIT as int, cx - ox) as i64,
            cl(DIR_LIMIT as int, cy - oy) as i64,
            cl(DIR_LIMIT as int, cz - oz) as i64,
        ),
    }
}

/// As [`ray_at_spec`], then jittered inside the pixel by the sub-pixel
/// draws `(j1, j2)`.
pub open spec fn sample_at_spec(
    cam: Camera,
    i: int,
    j: int,
    sx: int,
    sy: int,
    j1: int,
    j2: int,
) -> Ray {
    let base = ray_at_spec(cam, i, j, sx, sy);
    let s = SCALE as int;
    Ray {
        origin: base.origin,
        direction: make(
            cl(
                DIR_LIMIT as int,
                base.direction.x + fxmul(cam.dv.x as int, j1 - s / 2) + fxmul(
                    cam.du.x as int,
                    j2 - s / 2,
                ),
            ) as i64,
            cl(
                DIR_LIMIT as int,
                base.direction.y + fxmul(cam.dv.y as int, j1 - s / 2) + fxmul(
                    cam.du.y as int,
                    j2 - s / 2,
                ),
            ) as i64,
            cl(
                DIR_LIMIT as int,
                base.direction.z + fxmul(cam.dv.z as int, j1 - s / 2) + fxmul(
                    cam.du.z as int,
                    j2 - s / 2,
                ),
            ) as i64,
        ),
    }
}

/// The defocus-disc draw lies in the unit disc of the grid: both
/// components at most one and their squared length below one.
pub open spec fn disc_ok(sx: int, sy: int) -> bool {
    mag(sx) <= SCALE as int && mag(sy) <= SCALE as int && ls3(sx, sy, 0) < SCALE as int
}

/// A sub-pixel jitter draw lies in the unit interval.
pub open spec fn jitter_ok(j1: int, j2: int) -> bool {
    0 <= j1 < SCALE as int && 0 <= j2 < SCALE as int
}

impl Camera {
    /// Derives the camera geometry from the user-facing parameters,
    /// exactly as [`cam_spec`] prescribes.  The grid caps the inputs, and
    /// [`cam_spec`] saturates them accordingly: eye and target at 128
    /// units per component, the up hint at 2, the half-angle tangent at 8,
    /// the focus distance in `[2^-32, 8]` units, the defocus tangent at 1,
    /// and the screen at 4096 pixels a side.
    #[verifier::rlimit(100)]
    pub fn new(
        eye: Point3,
        look_at: Point3,
        up: Vec3,
        tan_half_vfov: i64,
        tan_half_defocus: i64,
        focus_dist: i64,
        screen: &Screen,
    ) -> (cam: Camera)
        ensures
            cam == cam_spec(
                eye,
                look_at,
                up,
                tan_half_vfov,
                tan_half_defocus,
                focus_dist,
                *screen,
            ),
    {
        let ht: i64 = clamp_range(tan_half_vfov as i128, 0, 8 * SCALE);
        let fd: i64 = clamp_range(focus_dist as i128, 1, 8 * SCALE);
        let dt: i64 = clamp_range(tan_half_defocus as i128, 0, SCALE);
        let sw: i64 = clamp_range(screen.width as i128, 1, 4096);
        let sh: i64 = clamp_range(screen.height as i128, 1, 4096);
        let vh: i64 = clamp_wide(2 * crate::vector::term(ht, fd), 0x8_0000_0000);
        let ratio: i64 = clamp_range(crate::vector::div_wide(sw, sh), 0, 8 * SCALE);
        let vw: i64 = clamp_wide(crate::vector::term(vh, ratio), 0x40_0000_0000);
        let ex: i64 = clamp_wide(eye.x as i128, 0x80_0000_0000);
        let ey: i64 = clamp_wide(eye.y as i128, 0x80_0000_0000);
        let ez: i64 = clamp_wide(eye.z as i128, 0x80_0000_0000);
        let lx: i64 = clamp_wide(look_at.x as i128, 0x80_0000_0000);
        let ly: i64 = clamp_wide(look_at.y as i128, 0x80_0000_0000);
        let lz: i64 = clamp_wide(look_at.z as i128, 0x80_0000_0000);
        let wv: (i64, i64, i64) = unit_or(ex - lx, ey - ly, ez - lz, 0x100_0000_0000, (0, 0, SCALE));
        let ux0: i64 = clamp_wide(up.x as i128, 0x2_0000_0000);
        let uy0: i64 = clamp_wide(up.y as i128, 0x2_0000_0000);
        let uz0: i64 = clamp_wide(up.z as i128, 0x2_0000_0000);
        let cx: i64 = cross_comp(uy0, wv.2, uz0, wv.1);
        let cy: i64 = cross_comp(uz0, wv.0, ux0, wv.2);
        let cz: i64 = cross_comp(ux0, wv.1, uy0, wv.0);
        let uv: (i64, i64, i64) = unit_or(cx, cy, cz, 0x10_0000_0000, (SCALE, 0, 0));
        let vx: i64 = cross_comp(wv.1, uv.2, wv.2, uv.1);
        let vy: i64 = cross_comp(wv.2, uv.0, wv.0, uv.2);
        let vz: i64 = cross_comp(wv.0, uv.1, wv.1, uv.0);
        let vux: i64 = clamp_wide(crate::vector::term(uv.0, vw), 0x80_0000_0000);
        let vuy: i64 = clamp_wide(crate::vector::term(uv.1, vw), 0x80_0000_0000);
        let vuz: i64 = clamp_wide(crate::vector::term(uv.2, vw), 0x80_0000_0000);
        let vvx: i64 = clamp_wide(crate::vector::term(vx, -vh), 0x80_0000_0000);
        let vvy: i64 = clamp_wide(crate::vector::term(vy, -vh), 0x80_0000_0000);
        let vvz: i64 = clamp_wide(crate::vector::term(vz, -vh), 0x80_0000_0000);
        proof {
            crate::scalar::lemma_tdiv_mag(vux as int, sw as int, mag(vux as int));
            crate::scalar::lemma_tdiv_mag(vuy as int, sw as int, mag(vuy as int));
            crate::scalar::lemma_tdiv_mag(vuz as int, sw as int, mag(vuz as int));
            crate::scalar::lemma_tdiv_mag(vvx as int, sh as int, mag(vvx as int));
            crate::scalar::lemma_tdiv_mag(vvy as int, sh as int, mag(vvy as int));
            crate::scalar::lemma_tdiv_mag(vvz as int, sh as int, mag(vvz as int));
        }
        let dux: i64 = crate::vector::div_i64(vux, sw);
        let duy: i64 = crate::vector::div_i64(vuy, sw);
        let duz: i64 = crate::vector::div_i64(vuz, sw);
        let dvx: i64 = crate::vector::div_i64(vvx, sh);
        let dvy: i64 = crate::vector::div_i64(vvy, sh);
        let dvz: i64 = crate::vector::div_i64(vvz, sh);
        let tlx: i64 = clamp_wide(
            ex as i128 - crate::vector::term(wv.0, fd) - crate::vector::div_wide(vux + vvx, 2 * SCALE),
            POS_LIMIT,
        );
        let tly: i64 = clamp_wide(
            ey as i128 - crate::vector::term(wv.1, fd) - crate::vector::div_wide(vuy + vvy, 2 * SCALE),
            POS_LIMIT,
        );
        let tlz: i64 = clamp_wide(
            ez as i128 - crate::vector::term(wv.2, fd) - crate::vector::div_wide(vuz + vvz, 2 * SCALE),
            POS_LIMIT,
        );
        let fpx: i64 = clamp_wide(
            tlx as i128 + crate::vector::div_wide(dux + dvx, 2 * SCALE),
            POS_LIMIT,
        );
        let fpy: i64 = clamp_wide(
            tly as i128 + crate::vector::div_wide(duy + dvy, 2 * SCALE),
            POS_LIMIT,
        );
        let fpz: i64 = clamp_wide(
            tlz as i128 + crate::vector::div_wide(duz + dvz, 2 * SCALE),
            POS_LIMIT,
        );
        let dr: i64 = clamp_wide(crate::vector::term(fd, dt), 0x2_0000_0000);
        Camera {
            eye: Float3::new(ex, ey, ez),
            look_at,
            up,
            viewport: Viewport { height: vh, width: vw },
            top_left: Float3::new(tlx, tly, tlz),
            first_pixel: Float3::new(fpx, fpy, fpz),
            du: Float3::new(dux, duy, duz),
            dv: Float3::new(dvx, dvy, dvz),
            defocus_tan: dt,
            defocus_u: Float3::new(
                clamp_wide(crate::vector::term(uv.0, dr), 0x2_0000_0000),
                clamp_wide(crate::vector::term(uv.1, dr), 0x2_0000_0000),
                clamp_wide(crate::vector::term(uv.2, dr), 0x2_0000_0000),
            ),
            defocus_v: Float3::new(
                clamp_wide(crate::vector::term(vx, dr), 0x2_0000_0000),
                clamp_wide(crate::vector::term(vy, dr), 0x2_0000_0000),
                clamp_wide(crate::vector::term(vz, dr), 0x2_0000_0000),
            ),
            u: Float3::new(uv.0, uv.1, uv.2),
            v: Float3::new(vx, vy, vz),
            w: Float3::new(wv.0, wv.1, wv.2),
        }
    }

    /// The ray through the center of pixel `(i, j)`; with a positive
    /// defocus tangent its origin is drawn from the defocus disc.
    pub fn ray_at(&self, i: usize, j: usize, smp: &mut Sampler) -> (r: Ray)
        requires
            i <= 0xffff_ffff,
            j <= 0xffff_ffff,
        ensures
            ray_ok(r),
            exists|sx: i64, sy: i64|
                #[trigger] disc_ok(sx as int, sy as int) && r == ray_at_spec(
                    *self,
                    i as int,
                    j as int,
                    sx as int,
                    sy as int,
                ),
            self.defocus_tan <= 0 ==> r == ray_at_spec(*self, i as int, j as int, 0, 0),
    {
        let mut sx: i64 = 0;
        let mut sy: i64 = 0;
        if self.defocus_tan > 0 {
            let smp_v: Vec3 = Float3::random_in_disc(smp);
            sx = smp_v.x;
            sy = smp_v.y;
        }
        let ox: i64;
        let oy: i64;
        let oz: i64;
        if self.defocus_tan > 0 {
            ox = clamp_wide(
                self.eye.x as i128 + crate::vector::term(sx, self.defocus_u.x)
                    + crate::vector::term(sy, self.defocus_v.x),
                POS_LIMIT,
            );
            oy = clamp_wide(
                self.eye.y as i128 + crate::vector::term(sx, self.defocus_u.y)
                    + crate::vector::term(sy, self.defocus_v.y),
                POS_LIMIT,
            );
            oz = clamp_wide(
                self.eye.z as i128 + crate::vector::term(sx, self.defocus_u.z)
                    + crate::vector::term(sy, self.defocus_v.z),
                POS_LIMIT,
            );
        } else {
            ox = clamp_wide(self.eye.x as i128, POS_LIMIT);
            oy = clamp_wide(self.eye.y as i128, POS_LIMIT);
            oz = clamp_wide(self.eye.z as i128, POS_LIMIT);
        }
        let iw: i128 = i as i128;
        let jw: i128 = j as i128;
        proof {
            crate::scalar::lemma_mul_mag(iw as int, self.dv.x as int, 0x1_0000_0000int,
                0x8000_0000_0000_0000int);
            crate::scalar::lemma_mul_mag(iw as int, self.dv.y as int, 0x1_0000_0000int,
                0x8000_0000_0000_0000int);
            crate::scalar::lemma_mul_mag(iw as int, self.dv.z as int, 0x1_0000_0000int,
                0x8000_0000_0000_0000int);
            crate::scalar::lemma_mul_mag(jw as int, self.du.x as int, 0x1_0000_0000int,
                0x8000_0000_0000_0000int);
            crate::scalar::lemma_mul_mag(jw as int, self.du.y as int, 0x1_0000_0000int,
                0x8000_0000_0000_0000int);
            crate::scalar::lemma_mul_mag(jw as int, self.du.z as int, 0x1_0000_0000int,
                0x8000_0000_0000_0000int);
        }
        let cx: i64 = clamp_wide(
            self.first_pixel.x as i128 + iw * (self.dv.x as i128) + jw * (self.du.x as i128),
            POS_LIMIT,
        );
        let cy: i64 = clamp_wide(
            self.first_pixel.y as i128 + iw * (self.dv.y as i128) + jw * (self.du.y as i128),
            POS_LIMIT,
        );
        let cz: i64 = clamp_wide(
            self.first_pixel.z as i128 + iw * (self.dv.z as i128) + jw * (self.du.z as i128),
            POS_LIMIT,
        );
        let r = Ray {
            origin: Float3::new(ox, oy, oz),
            direction: Float3::new(
                clamp_wide(cx as i128 - ox as i128, DIR_LIMIT),
                clamp_wide(cy as i128 - oy as i128, DIR_LIMIT),
                clamp_wide(cz as i128 - oz as i128, DIR_LIMIT),
            ),
        };
        proof {
            assert(disc_ok(sx as int, sy as int) && r == ray_at_spec(
                *self,
                i as int,
                j as int,
                sx as int,
                sy as int,
            ));
        }
        r
    }

    /// As [`Self::ray_at`], with an extra random sub-pixel jitter of the
    /// direction, for anti-aliasing.
    pub fn sample_at(&self, i: usize, j: usize, smp: &mut Sampler) -> (r: Ray)
        requires
            i <= 0xffff_ffff,
            j <= 0xffff_ffff,
        ensures
            ray_ok(r),
            exists|sx: i64, sy: i64, j1: i64, j2: i64|
                disc_ok(sx as int, sy as int) && jitter_ok(j1 as int, j2 as int) && r
                    == #[trigger] sample_at_spec(
                    *self,
                    i as int,
                    j as int,
                    sx as int,
                    sy as int,
                    j1 as int,
                    j2 as int,
                ),
    {
        let base: Ray = self.ray_at(i, j, smp);
        let j1: i64 = smp.unit_fraction();
        let j2: i64 = smp.unit_fraction();
        let r = Ray {
            origin: base.origin,
            direction: Float3::new(
                clamp_wide(
                    base.direction.x as i128 + crate::vector::term(self.dv.x, j1 - 2147483648)
                        + crate::vector::term(self.du.x, j2 - 2147483648),
                    DIR_LIMIT,
                ),
                clamp_wide(
                    base.direction.y as i128 + crate::vector::term(self.dv.y, j1 - 2147483648)
                        + crate::vector::term(self.du.y, j2 - 2147483648),
                    DIR_LIMIT,
                ),
                clamp_wide(
                    base.direction.z as i128 + crate::vector::term(self.dv.z, j1 - 2147483648)
                        + crate::vector::term(self.du.z, j2 - 2147483648),
                    DIR_LIMIT,
                ),
            ),
        };
        proof {
            let (psx, psy): (i64, i64) = choose|sx: i64, sy: i64|
                #[trigger] disc_ok(sx as int, sy as int) && base == ray_at_spec(
                    *self,
                    i as int,
                    j as int,
                    sx as int,
                    sy as int,
                );
            assert(disc_ok(psx as int, psy as int) && jitter_ok(j1 as int, j2 as int) && r
                == sample_at_spec(
                *self,
                i as int,
                j as int,
                psx as int,
                psy as int,
                j1 as int,
                j2 as int,
            ));
        }
        r
    }
}

/// A saturated cross-product component.
fn cross_comp(a1: i64, b2: i64, a2: i64, b1: i64) -> (r: i64)
    ensures
        r as int == crossc(a1 as int, b2 as int, a2 as int, b1 as int),
{
    clamp_wide(crate::vector::term(a1, b2) - crate::vector::term(a2, b1), 0x10_0000_0000)
}

/// Normalizes the vector `(x, y, z)` with saturated components, or returns
/// `fallback` when the vector is too short to normalize on the grid.
fn unit_or(x: i64, y: i64, z: i64, m: i64, fallback: (i64, i64, i64)) -> (r: (i64, i64, i64))
    requires
        0 < m <= 0x100_0000_0000,
        mag(x as int) <= m as int,
        mag(y as int) <= m as int,
        mag(z as int) <= m as int,
    ensures
        ({
            let ls = ls3(x as int, y as int, z as int);
            if ls < 1 {
                r == fallback
            } else {
                let l = fxsqrt(ls);
                r.0 as int == ucl(x as int, l) && r.1 as int == ucl(y as int, l) && r.2 as int
                    == ucl(z as int, l)
            }
        }),
{
    proof {
        lemma_fxmul_bound(x as int, x as int, 0x100_0000_0000int, 0x100_0000_0000int,
            0x1_0000_0000_0000int);
        lemma_fxmul_bound(y as int, y as int, 0x100_0000_0000int, 0x100_0000_0000int,
            0x1_0000_0000_0000int);
        lemma_fxmul_bound(z as int, z as int, 0x100_0000_0000int, 0x100_0000_0000int,
            0x1_0000_0000_0000int);
        assert(0x100_0000_0000int * 0x100_0000_0000int <= 0x1_0000_0000_0000int * 4294967296int)
            by (nonlinear_arith);
        lemma_fxsq_nonneg(x as int);
        lemma_fxsq_nonneg(y as int);
        lemma_fxsq_nonneg(z as int);
    }
    let t1: i128 = crate::vector::term(x, x);
    let t2: i128 = crate::vector::term(y, y);
    let t3: i128 = crate::vector::term(z, z);
    let ls: i64 = (t1 + t2 + t3) as i64;
    if ls < 1 {
        fallback
    } else {
        let l: i64 = fx_sqrt(ls);
        proof {
            assert(l >= 65536) by (nonlinear_arith)
                requires
                    (ls as int) * 4294967296 < (l as int + 1) * (l as int + 1),
                    ls >= 1,
                    l >= 0;
        }
        (
            clamp_wide(crate::vector::div_wide(x, l), 2 * SCALE),
            clamp_wide(crate::vector::div_wide(y, l), 2 * SCALE),
            clamp_wide(crate::vector::div_wide(z, l), 2 * SCALE),
        )
    }
}

/// Saturates a wide value to a symmetric box and narrows it.
fn clamp_wide(v: i128, m: i64) -> (r: i64)
    requires
        m > 0,
    ensures
        r as int == cl(m as int, v as int),
{
    if v > m as i128 {
        m
    } else if v < -(m as i128) {
        -m
    } else {
        v as i64
    }
}

/// Saturates a wide value to a closed range and narrows it.
fn clamp_range(v: i128, lo: i64, hi: i64) -> (r: i64)
    requires
        lo <= hi,
    ensures
        r as int == clamp_spec(lo as int, hi as int, v as int),
{
    if v < lo as i128 {
        lo
    } else if v > hi as i128 {
        hi
    } else {
        v as i64
    }
}

} // verus!
