//! An offline path tracer over fixed-point arithmetic.
//!
//! Every scalar is a signed 32.32 fixed-point number: an `i64` holding the
//! intended value times [`scalar::SCALE`].  The camera turns pixel
//! coordinates into world-space rays, the scene reports the nearest sphere
//! intersection, materials scatter rays into their next bounce, and the
//! integrator folds attenuations into a pixel color.  [`raytrace`] renders
//! a fixed demonstration scene into the bytes of a plain-text pixel map.

use vstd::prelude::*;

pub mod material;
pub mod objects;
pub mod ray;
pub mod sampling;
pub mod scalar;
pub mod vector;
pub mod view;

use crate::scalar::{SCALE, fxmul, fxsqrt, tdiv, lemma_tdiv_mag, lemma_tdiv_nonneg};
use crate::vector::{Color, Float3, make};
use crate::material::{Material, ScatterSample, sample_ok};
use crate::objects::{Sphere, World};
use crate::ray::{MAX_BOUNCES, Ray, integrate_spec};
use crate::sampling::Sampler;
use crate::view::{Camera, Screen, cam_spec, disc_ok, jitter_ok, ray_at_spec, sample_at_spec};

verus! {

/// The near-zero threshold of the fixed-point grid, just under `1e-5`.
pub const EPS: i64 = 42949;

/// `255.999` on the fixed-point grid, the channel scaling of the image
/// format.
pub const CHANNEL_SCALE: i64 = 1099507332808;

/// The decimal digits of a nonnegative number, as ASCII bytes.
pub open spec fn dec_spec(n: int) -> Seq<u8>
    decreases n,
{
    if n <= 9 {
        seq![(48 + n) as u8]
    } else {
        dec_spec(n / 10) + seq![(48 + n % 10) as u8]
    }
}

/// One image channel: gamma-corrected, scaled by `255.999` and truncated
/// to a byte value.
pub open spec fn channel_byte(c: int) -> int {
    tdiv(fxmul(fxsqrt(c), CHANNEL_SCALE as int), SCALE as int)
}

/// One image line: the three channel bytes of a color, space-separated.
pub open spec fn line_spec(c: (int, int, int)) -> Seq<u8> {
    dec_spec(channel_byte(c.0)) + seq![32u8] + dec_spec(channel_byte(c.1)) + seq![32u8]
        + dec_spec(channel_byte(c.2)) + seq![10u8]
}

/// The image lines of a sequence of pixel colors, in order.
pub open spec fn lines_spec(pix: Seq<(int, int, int)>) -> Seq<u8>
    decreases pix.len(),
{
    if pix.len() == 0 {
        Seq::empty()
    } else {
        line_spec(pix[0]) + lines_spec(pix.drop_first())
    }
}

/// The image header: `P3`, the dimensions, and the channel maximum.
pub open spec fn header_spec(w: int, h: int) -> Seq<u8> {
    seq![80u8, 51u8, 10u8] + dec_spec(w) + seq![32u8] + dec_spec(h) + seq![
        10u8,
        50u8,
        53u8,
        53u8,
        10u8,
    ]
}

/// A whole image: header then one line per pixel, row-major from the top
/// left.
pub open spec fn ppm_spec(w: int, h: int, pix: Seq<(int, int, int)>) -> Seq<u8> {
    header_spec(w, h) + lines_spec(pix)
}

/// The image dimensions derived from a width and an aspect ratio: the
/// height is the width over the ratio, truncated; both sides are saturated
/// to the grid's pixel range.
pub open spec fn screen_spec(width: int, aspect: int) -> (int, int) {
    let w = crate::objects::clamp_spec(1, 4096, width);
    let a = crate::objects::clamp_spec(536870912, 8 * (SCALE as int), aspect);
    (w, crate::objects::clamp_spec(1, 4096, tdiv(w * (SCALE as int), a)))
}

/// The value of the ratio `n / d` on the grid.
pub open spec fn frac_spec(n: int, d: int) -> int {
    tdiv(n * (SCALE as int), d)
}

/// The sample count actually rendered: at least one, at most 1024.
pub open spec fn samples_spec(n: int) -> int {
    crate::objects::clamp_spec(1, 1024, n)
}

/// The fixed demonstration scene: a large diffuse ground sphere, a diffuse
/// center sphere, a hollow glass shell, and a metal sphere.
#[verifier::opaque]
pub open spec fn scene_spec() -> Seq<Sphere> {
    seq![
        Sphere {
            center: make(0, (-frac_spec(201, 2)) as i64, (-(SCALE as int)) as i64),
            radius: (100 * (SCALE as int)) as i64,
            material: Material::Lambertian {
                albedo: make(frac_spec(4, 5) as i64, frac_spec(4, 5) as i64, 0),
            },
        },
        Sphere {
            center: make(0, 0, (-(SCALE as int)) as i64),
            radius: frac_spec(1, 2) as i64,
            material: Material::Lambertian {
                albedo: make(
                    frac_spec(1, 10) as i64,
                    frac_spec(1, 5) as i64,
                    frac_spec(1, 2) as i64,
                ),
            },
        },
        Sphere {
            center: make((-(SCALE as int)) as i64, 0, (-(SCALE as int)) as i64),
            radius: frac_spec(1, 2) as i64,
            material: Material::Dielectric { ir: frac_spec(3, 2) as i64 },
        },
        Sphere {
            center: make((-(SCALE as int)) as i64, 0, (-(SCALE as int)) as i64),
            radius: (-frac_spec(2, 5)) as i64,
            material: Material::Dielectric { ir: frac_spec(3, 2) as i64 },
        },
        Sphere {
            center: make(SCALE, 0, (-(SCALE as int)) as i64),
            radius: frac_spec(1, 2) as i64,
            material: Material::Metallic {
                albedo: make(
                    frac_spec(4, 5) as i64,
                    frac_spec(3, 5) as i64,
                    frac_spec(1, 5) as i64,
                ),
                fuzz: 0,
            },
        },
    ]
}

/// The camera the renderer derives for the given image parameters.
#[verifier::opaque]
pub open spec fn render_cam(width: int, aspect: int, tan_v: i64, tan_d: i64) -> Camera {
    cam_spec(
        make((-2 * (SCALE as int)) as i64, (2 * (SCALE as int)) as i64, SCALE),
        make(0, 0, (-(SCALE as int)) as i64),
        make(0, SCALE, 0),
        tan_v,
        tan_d,
        frac_spec(17, 5) as i64,
        Screen {
            height: screen_spec(width, aspect).1 as usize,
            width: screen_spec(width, aspect).0 as usize,
        },
    )
}

/// A full, admissible draw sequence for one path.
pub open spec fn draws_ok(draws: Seq<ScatterSample>) -> bool {
    draws.len() == MAX_BOUNCES && (forall|q: int|
        0 <= q < draws.len() ==> sample_ok(#[trigger] draws[q]))
}

/// `c` is an admissible path color for pixel `(i, j)`: the integral of the
/// scene under some admissible draw sequence, along a camera ray through
/// that pixel — the plain center ray for a pixel's first sample, a
/// sub-pixel-jittered ray for the rest.
#[verifier::opaque]
pub open spec fn pixel_sample_ok(
    cam: Camera,
    objs: Seq<Sphere>,
    i: int,
    j: int,
    first: bool,
    c: (int, int, int),
) -> bool {
    exists|r: Ray, draws: Seq<ScatterSample>|
        {
            &&& #[trigger] integrate_spec(
                r,
                objs,
                draws,
                (SCALE as int, SCALE as int, SCALE as int),
                MAX_BOUNCES as nat,
            ) == c
            &&& draws_ok(draws)
            &&& if first {
                exists|sx: i64, sy: i64|
                    #[trigger] disc_ok(sx as int, sy as int) && r == ray_at_spec(
                        cam,
                        i,
                        j,
                        sx as int,
                        sy as int,
                    )
            } else {
                exists|sx: i64, sy: i64, j1: i64, j2: i64|
                    disc_ok(sx as int, sy as int) && jitter_ok(j1 as int, j2 as int) && r
                        == #[trigger] sample_at_spec(
                        cam,
                        i,
                        j,
                        sx as int,
                        sy as int,
                        j1 as int,
                        j2 as int,
                    )
            }
        }
}

/// Componentwise sum of a sequence of color triples.
pub open spec fn sum3(cs: Seq<(int, int, int)>) -> (int, int, int)
    decreases cs.len(),
{
    if cs.len() == 0 {
        (0, 0, 0)
    } else {
        let rest = sum3(cs.drop_last());
        (rest.0 + cs.last().0, rest.1 + cs.last().1, rest.2 + cs.last().2)
    }
}

/// `p` is an admissible value for pixel `(i, j)` at sample count `n`: the
/// truncated componentwise average of `n` admissible path colors, the
/// first through the pixel's center ray and the rest through jittered
/// rays.
#[verifier::opaque]
pub open spec fn pixel_ok(
    cam: Camera,
    objs: Seq<Sphere>,
    n: int,
    i: int,
    j: int,
    p: (int, int, int),
) -> bool {
    exists|cs: Seq<(int, int, int)>|
        {
            &&& #[trigger] cs.len() == n
            &&& (forall|k: int|
                0 <= k < cs.len() ==> pixel_sample_ok(cam, objs, i, j, k == 0, #[trigger] cs[k]))
            &&& p == (tdiv(sum3(cs).0, n), tdiv(sum3(cs).1, n), tdiv(sum3(cs).2, n))
        }
}

/// Appends the decimal digits of `n`.
pub fn push_dec(out: &mut Vec<u8>, n: u64)
    ensures
        final(out)@ == old(out)@ + dec_spec(n as int),
    decreases n,
{
    if n <= 9 {
        out.push((48 + n) as u8);
        proof {
            assert(out@ =~= old(out)@ + dec_spec(n as int));
        }
    } else {
        push_dec(out, n / 10);
        out.push((48 + (n % 10)) as u8);
        proof {
            assert(out@ =~= old(out)@ + dec_spec(n as int));
        }
    }
}

/// Appending one pixel appends its line.
proof fn lemma_lines_push(pix: Seq<(int, int, int)>, c: (int, int, int))
    ensures
        lines_spec(pix.push(c)) == lines_spec(pix) + line_spec(c),
    decreases pix.len(),
{
    let l = line_spec(c);
    if pix.len() == 0 {
        assert(pix.push(c).drop_first() =~= Seq::<(int, int, int)>::empty());
        assert(pix.push(c)[0] == c);
        assert(lines_spec(pix) == Seq::<u8>::empty());
        assert(lines_spec(pix.push(c)) == l + lines_spec(pix.push(c).drop_first()));
        assert(lines_spec(pix.push(c).drop_first()) == Seq::<u8>::empty());
        assert(l + Seq::<u8>::empty() =~= l);
        assert(Seq::<u8>::empty() + l =~= l);
    } else {
        assert(pix.push(c).drop_first() =~= pix.drop_first().push(c));
        assert(pix.push(c)[0] == pix[0]);
        lemma_lines_push(pix.drop_first(), c);
        let a = line_spec(pix[0]);
        let b = lines_spec(pix.drop_first());
        assert(lines_spec(pix) == a + b);
        assert(lines_spec(pix.push(c)) == a + lines_spec(pix.push(c).drop_first()));
        assert(lines_spec(pix.push(c).drop_first()) == b + l);
        assert(a + (b + l) =~= (a + b) + l);
    }
}

/// A scalar from a nonnegative ratio of small integers.
fn fx_frac(n: u64, d: u64) -> (r: i64)
    requires
        0 < d <= 4096,
        n <= 4096,
    ensures
        r as int == tdiv(n as int * (SCALE as int), d as int),
        r >= 0,
{
    proof {
        lemma_tdiv_nonneg(n as int * (SCALE as int), d as int);
        crate::scalar::lemma_mul_mag(n as int, SCALE as int, 4096, SCALE as int);
        lemma_tdiv_mag(n as int * (SCALE as int), d as int, 4096 * (SCALE as int));
    }
    ((n * (SCALE as u64)) / d) as i64
}

/// Renders the fixed demonstration scene at the given width, aspect ratio
/// and sampling rate into the bytes of a plain-text pixel map, seeding the
/// renderer's random draws from `seed`.  The field-of-view and defocus
/// angles enter as tangents of their half angles.
///
/// The grid caps the inputs, and the contract says exactly how: the width
/// is saturated to `[1, 4096]` pixels and the aspect ratio to `[1/8, 8]`
/// before the height is derived ([`screen_spec`]), and the sample count to
/// `[1, 1024]` ([`samples_spec`]).  Within those caps the header is
/// exactly `P3`, the dimensions with `height == trunc(width / aspect)`,
/// and `255`.  Every pixel of the body is an admissible value for its
/// coordinates ([`pixel_ok`]): the truncated average of `sample_size` path
/// colors, the first through the pixel's center ray of
/// [`render_cam`] and the rest through sub-pixel-jittered rays, each color
/// the integral of [`scene_spec`] under some admissible draw sequence.
#[verifier::rlimit(100)]
pub fn raytrace(
    width: usize,
    aspect: i64,
    sample_size: usize,
    tan_half_vfov: i64,
    tan_half_defocus: i64,
    seed: u64,
) -> (out: Vec<u8>)
    ensures
        exists|pix: Seq<(int, int, int)>|
            pix.len() == screen_spec(width as int, aspect as int).0 * screen_spec(
                width as int,
                aspect as int,
            ).1 && (forall|q: int|
                0 <= q < pix.len() ==> {
                    let p = #[trigger] pix[q];
                    0 <= p.0 <= SCALE && 0 <= p.1 <= SCALE && 0 <= p.2 <= SCALE
                }) && (forall|q: int|
                0 <= q < pix.len() ==> pixel_ok(
                    render_cam(width as int, aspect as int, tan_half_vfov, tan_half_defocus),
                    scene_spec(),
                    samples_spec(sample_size as int),
                    q / screen_spec(width as int, aspect as int).0,
                    q % screen_spec(width as int, aspect as int).0,
                    #[trigger] pix[q],
                )) && out@ == header_spec(
                screen_spec(width as int, aspect as int).0,
                screen_spec(width as int, aspect as int).1,
            ) + #[trigger] lines_spec(pix),
{
    let ghost wh: (int, int) = screen_spec(width as int, aspect as int);
    let w: usize = if width < 1 {
        1
    } else if width > 4096 {
        4096
    } else {
        width
    };
    let a: i64 = if aspect < 536870912 {
        536870912
    } else if aspect > 8 * SCALE {
        8 * SCALE
    } else {
        aspect
    };
    proof {
        lemma_tdiv_nonneg(w as int * (SCALE as int), a as int);
        crate::scalar::lemma_mul_mag(w as int, SCALE as int, 4096, SCALE as int);
        lemma_tdiv_mag(w as int * (SCALE as int), a as int, 4096 * (SCALE as int));
    }
    let h0: u64 = ((w as u64) * (SCALE as u64)) / (a as u64);
    let h: usize = if h0 < 1 {
        1
    } else if h0 > 4096 {
        4096
    } else {
        h0 as usize
    };
    proof {
        assert(w as int == wh.0 && h as int == wh.1);
    }
    let screen: Screen = Screen { height: h, width: w };
    let mut smp: Sampler = Sampler::new(seed);
    let ground: Material = Material::Lambertian {
        albedo: Float3::new(fx_frac(4, 5), fx_frac(4, 5), 0),
    };
    let center_mat: Material = Material::Lambertian {
        albedo: Float3::new(fx_frac(1, 10), fx_frac(1, 5), fx_frac(1, 2)),
    };
    let glass: Material = Material::Dielectric { ir: fx_frac(3, 2) };
    let metal: Material = Material::Metallic {
        albedo: Float3::new(fx_frac(4, 5), fx_frac(3, 5), fx_frac(1, 5)),
        fuzz: 0,
    };
    let mut objects: Vec<Sphere> = Vec::new();
    objects.push(Sphere {
        center: Float3::new(0, -fx_frac(201, 2), -SCALE),
        radius: 100 * SCALE,
        material: ground,
    });
    objects.push(Sphere {
        center: Float3::new(0, 0, -SCALE),
        radius: fx_frac(1, 2),
        material: center_mat,
    });
    objects.push(Sphere {
        center: Float3::new(-SCALE, 0, -SCALE),
        radius: fx_frac(1, 2),
        material: glass,
    });
    objects.push(Sphere {
        center: Float3::new(-SCALE, 0, -SCALE),
        radius: -fx_frac(2, 5),
        material: glass,
    });
    objects.push(Sphere {
        center: Float3::new(SCALE, 0, -SCALE),
        radius: fx_frac(1, 2),
        material: metal,
    });
    let world: World = World { objects };
    proof {
        reveal(scene_spec);
        assert(world.objects@.len() == 5);
        assert(world.objects@[0] == scene_spec()[0]);
        assert(world.objects@[1] == scene_spec()[1]);
        assert(world.objects@[2] == scene_spec()[2]);
        assert(world.objects@[3] == scene_spec()[3]);
        assert(world.objects@[4] == scene_spec()[4]);
        assert(world.objects@ =~= scene_spec());
    }
    let camera: Camera = Camera::new(
        Float3::new(-2 * SCALE, 2 * SCALE, SCALE),
        Float3::new(0, 0, -SCALE),
        Float3::new(0, SCALE, 0),
        tan_half_vfov,
        tan_half_defocus,
        fx_frac(17, 5),
        &screen,
    );
    let ghost cam0: Camera = render_cam(
        width as int,
        aspect as int,
        tan_half_vfov,
        tan_half_defocus,
    );
    proof {
        reveal(render_cam);
        assert(camera == cam0);
    }
    let n: usize = if sample_size < 1 {
        1
    } else if sample_size > 1024 {
        1024
    } else {
        sample_size
    };
    proof {
        assert(n as int == samples_spec(sample_size as int));
    }
    let mut out: Vec<u8> = Vec::new();
    out.push(80u8);
    out.push(51u8);
    out.push(10u8);
    push_dec(&mut out, w as u64);
    out.push(32u8);
    push_dec(&mut out, h as u64);
    out.push(10u8);
    out.push(50u8);
    out.push(53u8);
    out.push(53u8);
    out.push(10u8);
    let ghost mut pix: Seq<(int, int, int)> = Seq::empty();
    proof {
        assert(out@ =~= header_spec(wh.0, wh.1) + lines_spec(pix));
    }
    let mut i: usize = 0;
    while i < h
        invariant
            i <= h,
            1 <= h <= 4096,
            1 <= w <= 4096,
            1 <= n <= 1024,
            wh == screen_spec(width as int, aspect as int),
            w as int == wh.0 && h as int == wh.1,
            pix.len() == i * w,
            forall|q: int|
                0 <= q < pix.len() ==> {
                    let p = #[trigger] pix[q];
                    0 <= p.0 <= SCALE && 0 <= p.1 <= SCALE && 0 <= p.2 <= SCALE
                },
            camera == cam0,
            cam0 == render_cam(width as int, aspect as int, tan_half_vfov, tan_half_defocus),
            world.objects@ == scene_spec(),
            n as int == samples_spec(sample_size as int),
            forall|q: int|
                0 <= q < pix.len() ==> pixel_ok(
                    cam0,
                    world.objects@,
                    n as int,
                    q / (w as int),
                    q % (w as int),
                    #[trigger] pix[q],
                ),
            out@ == ppm_spec(wh.0, wh.1, pix),
        decreases h - i,
    {
        let mut j: usize = 0;
        while j < w
            invariant
                i < h,
                j <= w,
                1 <= h <= 4096,
                1 <= w <= 4096,
                1 <= n <= 1024,
                wh == screen_spec(width as int, aspect as int),
                w as int == wh.0 && h as int == wh.1,
                pix.len() == i * w + j,
                forall|q: int|
                    0 <= q < pix.len() ==> {
                        let p = #[trigger] pix[q];
                        0 <= p.0 <= SCALE && 0 <= p.1 <= SCALE && 0 <= p.2 <= SCALE
                    },
                camera == cam0,
                cam0 == render_cam(width as int, aspect as int, tan_half_vfov, tan_half_defocus),
                world.objects@ == scene_spec(),
                n as int == samples_spec(sample_size as int),
                forall|q: int|
                    0 <= q < pix.len() ==> pixel_ok(
                        cam0,
                        world.objects@,
                        n as int,
                        q / (w as int),
                        q % (w as int),
                        #[trigger] pix[q],
                    ),
                out@ == ppm_spec(wh.0, wh.1, pix),
            decreases w - j,
        {
            let ray: Ray = camera.ray_at(i, j, &mut smp);
            let mut acc: Color = ray.color(&world, &mut smp);
            let ghost mut samples: Seq<(int, int, int)> = Seq::empty();
            proof {
                let (dsx, dsy): (i64, i64) = choose|sx: i64, sy: i64|
                    #[trigger] disc_ok(sx as int, sy as int) && ray == ray_at_spec(
                        camera,
                        i as int,
                        j as int,
                        sx as int,
                        sy as int,
                    );
                let pdraws = choose|draws: Seq<ScatterSample>|
                    draws.len() == MAX_BOUNCES && (forall|q2: int|
                        0 <= q2 < draws.len() ==> sample_ok(#[trigger] draws[q2])) && (
                    acc.x as int,
                    acc.y as int,
                    acc.z as int,
                    ) == integrate_spec(
                        ray,
                        world.objects@,
                        draws,
                        (SCALE as int, SCALE as int, SCALE as int),
                        MAX_BOUNCES as nat,
                    );
                assert(draws_ok(pdraws));
                assert(integrate_spec(
                    ray,
                    world.objects@,
                    pdraws,
                    (SCALE as int, SCALE as int, SCALE as int),
                    MAX_BOUNCES as nat,
                ) == (acc.x as int, acc.y as int, acc.z as int));
                reveal(pixel_sample_ok);
                assert(pixel_sample_ok(
                    cam0,
                    world.objects@,
                    i as int,
                    j as int,
                    true,
                    (acc.x as int, acc.y as int, acc.z as int),
                ));
                samples = samples.push((acc.x as int, acc.y as int, acc.z as int));
                assert(samples.drop_last() =~= Seq::<(int, int, int)>::empty());
                assert(samples.last() == (acc.x as int, acc.y as int, acc.z as int));
                assert(sum3(Seq::<(int, int, int)>::empty()) == (0int, 0int, 0int));
                assert(sum3(samples) == (acc.x as int, acc.y as int, acc.z as int));
            }
            let mut k: usize = 1;
            while k < n
                invariant
                    1 <= k <= n,
                    n <= 1024,
                    i <= 0xffff_ffff,
                    j <= 0xffff_ffff,
                    0 <= acc.x <= k * SCALE,
                    0 <= acc.y <= k * SCALE,
                    0 <= acc.z <= k * SCALE,
                    camera == cam0,
                    world.objects@ == scene_spec(),
                    samples.len() == k,
                    forall|q2: int|
                        0 <= q2 < samples.len() ==> pixel_sample_ok(
                            cam0,
                            world.objects@,
                            i as int,
                            j as int,
                            q2 == 0,
                            #[trigger] samples[q2],
                        ),
                    (acc.x as int, acc.y as int, acc.z as int) == sum3(samples),
                decreases n - k,
            {
                let sray: Ray = camera.sample_at(i, j, &mut smp);
                let c: Color = sray.color(&world, &mut smp);
                proof {
                    assert(acc.x + c.x <= (k + 1) * SCALE && acc.y + c.y <= (k + 1) * SCALE
                        && acc.z + c.z <= (k + 1) * SCALE) by (nonlinear_arith)
                        requires
                            0 <= acc.x <= k * SCALE && 0 <= acc.y <= k * SCALE && 0 <= acc.z <= k
                                * SCALE,
                            0 <= c.x <= SCALE && 0 <= c.y <= SCALE && 0 <= c.z <= SCALE;
                    let (dsx, dsy, dj1, dj2): (i64, i64, i64, i64) = choose|
                        sx: i64,
                        sy: i64,
                        j1: i64,
                        j2: i64,
                    |
                        disc_ok(sx as int, sy as int) && jitter_ok(j1 as int, j2 as int) && sray
                            == #[trigger] sample_at_spec(
                            camera,
                            i as int,
                            j as int,
                            sx as int,
                            sy as int,
                            j1 as int,
                            j2 as int,
                        );
                    let pdraws = choose|draws: Seq<ScatterSample>|
                        draws.len() == MAX_BOUNCES && (forall|q2: int|
                            0 <= q2 < draws.len() ==> sample_ok(#[trigger] draws[q2])) && (
                        c.x as int,
                        c.y as int,
                        c.z as int,
                        ) == integrate_spec(
                            sray,
                            world.objects@,
                            draws,
                            (SCALE as int, SCALE as int, SCALE as int),
                            MAX_BOUNCES as nat,
                        );
                    assert(draws_ok(pdraws));
                    assert(integrate_spec(
                        sray,
                        world.objects@,
                        pdraws,
                        (SCALE as int, SCALE as int, SCALE as int),
                        MAX_BOUNCES as nat,
                    ) == (c.x as int, c.y as int, c.z as int));
                    reveal(pixel_sample_ok);
                    assert(pixel_sample_ok(
                        cam0,
                        world.objects@,
                        i as int,
                        j as int,
                        false,
                        (c.x as int, c.y as int, c.z as int),
                    ));
                }
                acc = acc.add(&c);
                proof {
                    let prev = samples;
                    samples = samples.push((c.x as int, c.y as int, c.z as int));
                    assert(samples.drop_last() =~= prev);
                    assert(samples.last() == (c.x as int, c.y as int, c.z as int));
                    assert(sum3(samples) == (acc.x as int, acc.y as int, acc.z as int));
                }
                k = k + 1;
            }
            let avg: Color = acc.div_n(n as i64);
            proof {
                assert(acc.x <= 1024 * (SCALE as int) && acc.y <= 1024 * (SCALE as int) && acc.z
                    <= 1024 * (SCALE as int)) by (nonlinear_arith)
                    requires
                        0 <= acc.x <= k * SCALE && 0 <= acc.y <= k * SCALE && 0 <= acc.z <= k
                            * SCALE,
                        k <= 1024,
                        SCALE == 4294967296;
                lemma_avg_unit(acc.x as int, n as int);
                lemma_avg_unit(acc.y as int, n as int);
                lemma_avg_unit(acc.z as int, n as int);
            }
            avg.write_to(&mut out);
            proof {
                assert(samples.len() == n as int);
                reveal(pixel_ok);
                assert(pixel_ok(
                    cam0,
                    world.objects@,
                    n as int,
                    i as int,
                    j as int,
                    (avg.x as int, avg.y as int, avg.z as int),
                ));
                assert((i * w + j) / (w as int) == i as int && (i * w + j) % (w as int)
                    == j as int) by (nonlinear_arith)
                    requires 0 <= j < w && w >= 1 && i >= 0;
                lemma_lines_push(pix, (avg.x as int, avg.y as int, avg.z as int));
                pix = pix.push((avg.x as int, avg.y as int, avg.z as int));
                assert(out@ =~= ppm_spec(wh.0, wh.1, pix));
            }
            j = j + 1;
        }
        i = i + 1;
        proof {
            assert(pix.len() == i * w) by (nonlinear_arith)
                requires pix.len() == (i - 1) * w + w;
        }
    }
    proof {
        assert(pix.len() == wh.0 * wh.1) by (nonlinear_arith)
            requires pix.len() == wh.1 * wh.0;
        assert(out@ == header_spec(wh.0, wh.1) + lines_spec(pix));
    }
    out
}

/// An accumulated color divided by its sample count lands in the unit
/// interval.
proof fn lemma_avg_unit(acc: int, n: int)
    requires
        n >= 1,
        0 <= acc <= n * (SCALE as int),
    ensures
        0 <= tdiv(acc, n) <= SCALE as int,
{
    lemma_tdiv_nonneg(acc, n);
    assert(acc / n <= SCALE as int) by (nonlinear_arith)
        requires n >= 1 && 0 <= acc <= n * 4294967296 && SCALE as int == 4294967296;
}

} // verus!
