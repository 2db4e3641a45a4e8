//! Role-typed three-component vectors over fixed-point scalars.
//!
//! Directions, positions and colors share the same storage but are kept
//! apart by a phantom role tag, so a direction can never be passed where a
//! position is expected without an explicit retag.

use core::marker::PhantomData;
use vstd::prelude::*;
use crate::scalar::{
    SCALE, fits, fxdiv, fxmul, fxsqrt, is_fxsqrt, mag, tdiv, fx_div, fx_mul, fx_sqrt,
    lemma_fxmul_bound, lemma_fxsq_nonneg, lemma_frac_range, lemma_mul_mag, lemma_tdiv_mag,
    lemma_unit_comp_bound,
};
use crate::objects::Interval;
use crate::sampling::Sampler;
use crate::EPS;

verus! {

/// Role tag of a vector type.
pub trait VecLike: Copy {
}

/// Role tag: a direction.
#[derive(Debug, Clone, Copy)]
pub struct VectorT {}

/// Role tag: a position.
#[derive(Debug, Clone, Copy)]
pub struct PointT {}

/// Role tag: a color.
#[derive(Debug, Clone, Copy)]
pub struct ColorT {}

impl VecLike for VectorT {}

impl VecLike for PointT {}

impl VecLike for ColorT {}

/// Three fixed-point components with a phantom role tag.
#[derive(Debug)]
pub struct Float3<T: VecLike> {
    pub x: i64,
    pub y: i64,
    pub z: i64,
    pub _type: PhantomData<T>,
}

impl<T: VecLike> Clone for Float3<T> {
    fn clone(&self) -> (r: Self)
        ensures
            r == *self,
    {
        Float3 { x: self.x, y: self.y, z: self.z, _type: self._type }
    }
}

impl<T: VecLike> Copy for Float3<T> {

}

pub type Vec3 = Float3<VectorT>;

pub type Point3 = Float3<PointT>;

pub type Color = Float3<ColorT>;

/// The vector with the given components, for building values in
/// specifications.
pub open spec fn make<K: VecLike>(x: i64, y: i64, z: i64) -> Float3<K> {
    Float3 { x, y, z, _type: PhantomData }
}

/// Every component's magnitude is at most `m`.
pub open spec fn in_box<K: VecLike>(v: Float3<K>, m: int) -> bool {
    mag(v.x as int) <= m && mag(v.y as int) <= m && mag(v.z as int) <= m
}

/// Fixed-point dot product over raw components.
pub open spec fn dot3(ax: int, ay: int, az: int, bx: int, by: int, bz: int) -> int {
    fxmul(ax, bx) + fxmul(ay, by) + fxmul(az, bz)
}

/// Fixed-point dot product of two vectors.
pub open spec fn dot_spec<A: VecLike, B: VecLike>(a: Float3<A>, b: Float3<B>) -> int {
    dot3(a.x as int, a.y as int, a.z as int, b.x as int, b.y as int, b.z as int)
}

/// Squared length.
pub open spec fn ls_spec<K: VecLike>(v: Float3<K>) -> int {
    dot_spec(v, v)
}

/// Length: the fixed-point square root of the squared length.
pub open spec fn len_spec<K: VecLike>(v: Float3<K>) -> int {
    fxsqrt(ls_spec(v))
}

/// One component of the normalization of a vector of length `l`.
pub open spec fn unit_comp(v: int, l: int) -> int {
    fxdiv(v, l)
}

/// One component of the reflection of `d` about a normal component `n`,
/// where `dp` is the dot product of the full vectors.
pub open spec fn reflect_comp(d: int, n: int, dp: int) -> int {
    d - 2 * fxmul(dp, n)
}

/// Squared length over raw components.
pub open spec fn ls3(x: int, y: int, z: int) -> int {
    dot3(x, y, z, x, y, z)
}

/// Refraction over raw components, tracking the executable code: the
/// incident direction `v` is split against the (inward) normal `n` into a
/// perpendicular part scaled by `coef` and a parallel part that restores
/// unit length.
pub open spec fn refract3(
    vx: int, vy: int, vz: int,
    nx: int, ny: int, nz: int,
    coef: int,
) -> (int, int, int) {
    let mx = -nx;
    let my = -ny;
    let mz = -nz;
    let cos = crate::objects::clamp_spec(
        -(SCALE as int),
        SCALE as int,
        -dot3(vx, vy, vz, mx, my, mz),
    );
    let px = fxmul(vx + fxmul(mx, cos), coef);
    let py = fxmul(vy + fxmul(my, cos), coef);
    let pz = fxmul(vz + fxmul(mz, cos), coef);
    let sq = fxsqrt(mag((SCALE as int) - ls3(px, py, pz)));
    (px + fxmul(mx, -sq), py + fxmul(my, -sq), pz + fxmul(mz, -sq))
}

/// All components are within `EPS` of zero.
pub open spec fn is_zero_spec<K: VecLike>(v: Float3<K>) -> bool {
    mag(v.x as int) < EPS && mag(v.y as int) < EPS && mag(v.z as int) < EPS
}

/// The squared length of every accepted rejection sample is at least this,
/// so the sample is long enough to normalize on the fixed-point grid.
pub const SAMPLE_FLOOR: i64 = 67108864;

/// One fixed-point product term, exact in `i128`.
pub(crate) fn term(a: i64, b: i64) -> (r: i128)
    ensures
        r as int == fxmul(a as int, b as int),
        mag(r as int) <= (mag(a as int) * mag(b as int)) / (SCALE as int),
        mag(r as int) <= 0x4000_0000_0000_0000_0000_0000int,
{
    proof {
        lemma_mul_mag(a as int, b as int, mag(a as int), mag(b as int));
        lemma_tdiv_mag((a as int) * (b as int), SCALE as int, mag(a as int) * mag(b as int));
        lemma_mul_mag(a as int, b as int, 0x8000_0000_0000_0000int, 0x8000_0000_0000_0000int);
        lemma_tdiv_mag((a as int) * (b as int), SCALE as int,
            0x8000_0000_0000_0000int * 0x8000_0000_0000_0000int);
    }
    let p: i128 = (a as i128) * (b as i128);
    if p >= 0 {
        ((p as u128) / (SCALE as u128)) as i128
    } else {
        -((((-p) as u128) / (SCALE as u128)) as i128)
    }
}

impl<T: VecLike> Float3<T> {
    /// A vector from its three components.
    pub fn new(x: i64, y: i64, z: i64) -> (r: Self)
        ensures
            r.x == x && r.y == y && r.z == z,
            r == make::<T>(x, y, z),
    {
        Float3 { x, y, z, _type: PhantomData }
    }

    /// The same components under another role tag.
    pub fn retag<V: VecLike>(&self) -> (r: Float3<V>)
        ensures
            r.x == self.x && r.y == self.y && r.z == self.z,
    {
        Float3 { x: self.x, y: self.y, z: self.z, _type: PhantomData }
    }

    /// Componentwise sum.
    pub fn add<V: VecLike>(&self, rhs: &Float3<V>) -> (r: Self)
        requires
            fits(self.x + rhs.x),
            fits(self.y + rhs.y),
            fits(self.z + rhs.z),
        ensures
            r.x == self.x + rhs.x && r.y == self.y + rhs.y && r.z == self.z + rhs.z,
    {
        Float3 { x: self.x + rhs.x, y: self.y + rhs.y, z: self.z + rhs.z, _type: PhantomData }
    }

    /// Componentwise difference.
    pub fn sub<V: VecLike>(&self, rhs: &Float3<V>) -> (r: Self)
        requires
            fits(self.x - rhs.x),
            fits(self.y - rhs.y),
            fits(self.z - rhs.z),
        ensures
            r.x == self.x - rhs.x && r.y == self.y - rhs.y && r.z == self.z - rhs.z,
    {
        Float3 { x: self.x - rhs.x, y: self.y - rhs.y, z: self.z - rhs.z, _type: PhantomData }
    }

    /// Componentwise (Hadamard) product.
    pub fn mul<V: VecLike>(&self, rhs: &Float3<V>) -> (r: Self)
        requires
            fits(fxmul(self.x as int, rhs.x as int)),
            fits(fxmul(self.y as int, rhs.y as int)),
            fits(fxmul(self.z as int, rhs.z as int)),
        ensures
            r.x == fxmul(self.x as int, rhs.x as int),
            r.y == fxmul(self.y as int, rhs.y as int),
            r.z == fxmul(self.z as int, rhs.z as int),
    {
        Float3 {
            x: fx_mul(self.x, rhs.x),
            y: fx_mul(self.y, rhs.y),
            z: fx_mul(self.z, rhs.z),
            _type: PhantomData,
        }
    }

    /// Scaling by a fixed-point scalar.
    pub fn scale(&self, s: i64) -> (r: Self)
        requires
            fits(fxmul(self.x as int, s as int)),
            fits(fxmul(self.y as int, s as int)),
            fits(fxmul(self.z as int, s as int)),
        ensures
            r.x == fxmul(self.x as int, s as int),
            r.y == fxmul(self.y as int, s as int),
            r.z == fxmul(self.z as int, s as int),
    {
        Float3 {
            x: fx_mul(self.x, s),
            y: fx_mul(self.y, s),
            z: fx_mul(self.z, s),
            _type: PhantomData,
        }
    }

    /// Division by a fixed-point scalar.
    pub fn descale(&self, s: i64) -> (r: Self)
        requires
            s != 0,
            fits(fxdiv(self.x as int, s as int)),
            fits(fxdiv(self.y as int, s as int)),
            fits(fxdiv(self.z as int, s as int)),
        ensures
            r.x == fxdiv(self.x as int, s as int),
            r.y == fxdiv(self.y as int, s as int),
            r.z == fxdiv(self.z as int, s as int),
    {
        Float3 {
            x: fx_div(self.x, s),
            y: fx_div(self.y, s),
            z: fx_div(self.z, s),
            _type: PhantomData,
        }
    }

    /// Division by a plain count, as when averaging samples.
    pub fn div_n(&self, n: i64) -> (r: Self)
        requires
            n > 0,
            fits(self.x as int),
            fits(self.y as int),
            fits(self.z as int),
        ensures
            r.x == tdiv(self.x as int, n as int),
            r.y == tdiv(self.y as int, n as int),
            r.z == tdiv(self.z as int, n as int),
    {
        proof {
            lemma_tdiv_mag(self.x as int, n as int, mag(self.x as int));
            lemma_tdiv_mag(self.y as int, n as int, mag(self.y as int));
            lemma_tdiv_mag(self.z as int, n as int, mag(self.z as int));
        }
        Float3 {
            x: div_i64(self.x, n),
            y: div_i64(self.y, n),
            z: div_i64(self.z, n),
            _type: PhantomData,
        }
    }

    /// Componentwise negation.
    pub fn neg(&self) -> (r: Self)
        requires
            fits(-self.x),
            fits(-self.y),
            fits(-self.z),
        ensures
            r.x == -self.x && r.y == -self.y && r.z == -self.z,
    {
        Float3 { x: -self.x, y: -self.y, z: -self.z, _type: PhantomData }
    }

    /// Fixed-point dot product.
    pub fn dot<V: VecLike>(&self, rhs: &Float3<V>) -> (r: i64)
        requires
            fits(dot_spec(*self, *rhs)),
        ensures
            r as int == dot_spec(*self, *rhs),
    {
        let t1: i128 = term(self.x, rhs.x);
        let t2: i128 = term(self.y, rhs.y);
        let t3: i128 = term(self.z, rhs.z);
        (t1 + t2 + t3) as i64
    }

    /// Squared length; never negative.
    pub fn length_squared(&self) -> (r: i64)
        requires
            fits(ls_spec(*self)),
        ensures
            r as int == ls_spec(*self),
            r >= 0,
    {
        proof {
            lemma_fxsq_nonneg(self.x as int);
            lemma_fxsq_nonneg(self.y as int);
            lemma_fxsq_nonneg(self.z as int);
        }
        self.dot(self)
    }

    /// Length, by fixed-point square root of the squared length.
    pub fn length(&self) -> (r: i64)
        requires
            fits(ls_spec(*self)),
        ensures
            r as int == len_spec(*self),
            is_fxsqrt(ls_spec(*self), r as int),
            r >= 0,
    {
        let ls: i64 = self.length_squared();
        fx_sqrt(ls)
    }

    /// Componentwise cross product.
    pub fn cross(&self, rhs: &Self) -> (r: Self)
        requires
            fits(fxmul(self.y as int, rhs.z as int) - fxmul(self.z as int, rhs.y as int)),
            fits(fxmul(self.z as int, rhs.x as int) - fxmul(self.x as int, rhs.z as int)),
            fits(fxmul(self.x as int, rhs.y as int) - fxmul(self.y as int, rhs.x as int)),
        ensures
            r.x == fxmul(self.y as int, rhs.z as int) - fxmul(self.z as int, rhs.y as int),
            r.y == fxmul(self.z as int, rhs.x as int) - fxmul(self.x as int, rhs.z as int),
            r.z == fxmul(self.x as int, rhs.y as int) - fxmul(self.y as int, rhs.x as int),
    {
        Float3 {
            x: (term(self.y, rhs.z) - term(self.z, rhs.y)) as i64,
            y: (term(self.z, rhs.x) - term(self.x, rhs.z)) as i64,
            z: (term(self.x, rhs.y) - term(self.y, rhs.x)) as i64,
            _type: PhantomData,
        }
    }

    /// Linear interpolation: `(1 - p) * self + p * value`.
    pub fn lerp<V: VecLike>(&self, value: &Float3<V>, p: i64) -> (r: Self)
        requires
            0 <= p <= SCALE,
            in_box(*self, 0x100_0000_0000),
            in_box(*value, 0x100_0000_0000),
        ensures
            r.x == fxmul(self.x as int, SCALE - p) + fxmul(value.x as int, p as int),
            r.y == fxmul(self.y as int, SCALE - p) + fxmul(value.y as int, p as int),
            r.z == fxmul(self.z as int, SCALE - p) + fxmul(value.z as int, p as int),
    {
        proof {
            lemma_lerp_fits(self.x as int, value.x as int, p as int);
            lemma_lerp_fits(self.y as int, value.y as int, p as int);
            lemma_lerp_fits(self.z as int, value.z as int, p as int);
        }
        let a: Self = self.scale(SCALE - p);
        let b: Float3<V> = value.scale(p);
        a.add(&b)
    }

    /// The vector rescaled to (approximately) unit length.
    pub fn normalized(&self) -> (r: Self)
        requires
            in_box(*self, 0x1000_0000_0000),
            ls_spec(*self) >= 1,
        ensures
            r.x == unit_comp(self.x as int, len_spec(*self)),
            r.y == unit_comp(self.y as int, len_spec(*self)),
            r.z == unit_comp(self.z as int, len_spec(*self)),
            in_box(r, 2 * (SCALE as int)),
            len_spec(*self) >= 65536,
    {
        proof {
            lemma_ls_fits(self.x as int, self.y as int, self.z as int, 0x1000_0000_0000);
        }
        let len: i64 = self.length();
        proof {
            lemma_fxsq_nonneg(self.x as int);
            lemma_fxsq_nonneg(self.y as int);
            lemma_fxsq_nonneg(self.z as int);
            lemma_unit_comp_bound(self.x as int, ls_spec(*self), len as int);
            lemma_unit_comp_bound(self.y as int, ls_spec(*self), len as int);
            lemma_unit_comp_bound(self.z as int, ls_spec(*self), len as int);
        }
        self.descale(len)
    }

    /// Normalizes in place.
    pub fn normalize(&mut self)
        requires
            in_box(*old(self), 0x1000_0000_0000),
            ls_spec(*old(self)) >= 1,
        ensures
            final(self).x == unit_comp(old(self).x as int, len_spec(*old(self))),
            final(self).y == unit_comp(old(self).y as int, len_spec(*old(self))),
            final(self).z == unit_comp(old(self).z as int, len_spec(*old(self))),
            in_box(*final(self), 2 * (SCALE as int)),
    {
        *self = self.normalized();
    }

    /// Reflection about a normal: `self - 2 * (self . n) * n`.
    pub fn reflect(&self, normal: &Self) -> (r: Self)
        requires
            in_box(*self, 0x10_0000_0000),
            in_box(*normal, 0x10_0000_0000),
        ensures
            r.x == reflect_comp(self.x as int, normal.x as int, dot_spec(*self, *normal)),
            r.y == reflect_comp(self.y as int, normal.y as int, dot_spec(*self, *normal)),
            r.z == reflect_comp(self.z as int, normal.z as int, dot_spec(*self, *normal)),
    {
        proof {
            lemma_dot_box(*self, *normal, 0x10_0000_0000);
            assert((0x10_0000_0000int * 0x10_0000_0000int) / (SCALE as int) == 0x100_0000_0000int);
            lemma_scaled_box(normal.x as int, dot_spec(*self, *normal), 0x10_0000_0000int,
                3int * 0x100_0000_0000int);
            lemma_scaled_box(normal.y as int, dot_spec(*self, *normal), 0x10_0000_0000int,
                3int * 0x100_0000_0000int);
            lemma_scaled_box(normal.z as int, dot_spec(*self, *normal), 0x10_0000_0000int,
                3int * 0x100_0000_0000int);
            assert((3int * 0x100_0000_0000int * 0x10_0000_0000int) / (SCALE as int) == 3int
                * 0x1000_0000_0000int) by (nonlinear_arith);
        }
        let dp: i64 = self.dot(normal);
        let scaled: Self = normal.scale(dp);
        let doubled: Self = scaled.scale(2 * SCALE);
        proof {
            lemma_double_exact(scaled.x as int);
            lemma_double_exact(scaled.y as int);
            lemma_double_exact(scaled.z as int);
        }
        self.sub(&doubled)
    }

    /// Refraction of a unit incident direction about a unit inward normal
    /// with index ratio `coef`, by Snell's law split into perpendicular and
    /// parallel parts.
    #[verifier::rlimit(100)]
    pub fn refract(&self, normal: &Self, coef: i64) -> (r: Self)
        requires
            in_box(*self, 2 * (SCALE as int)),
            in_box(*normal, 2 * (SCALE as int)),
            0 < coef <= 4 * SCALE,
        ensures
            (r.x as int, r.y as int, r.z as int) == refract3(
                self.x as int, self.y as int, self.z as int,
                normal.x as int, normal.y as int, normal.z as int,
                coef as int,
            ),
    {
        let ghost s2: int = 2 * (SCALE as int);
        let n: Self = normal.neg();
        proof {
            lemma_dot_box(*self, n, s2);
            assert((s2 * s2) / (SCALE as int) == 4 * (SCALE as int)) by (nonlinear_arith)
                requires s2 == 2 * (SCALE as int);
        }
        let d: i64 = self.dot(&n);
        let cos: i64 = Interval(-SCALE, SCALE).clamp(-d);
        proof {
            lemma_scaled_box(n.x as int, cos as int, s2, SCALE as int);
            lemma_scaled_box(n.y as int, cos as int, s2, SCALE as int);
            lemma_scaled_box(n.z as int, cos as int, s2, SCALE as int);
            assert(((SCALE as int) * s2) / (SCALE as int) == s2) by (nonlinear_arith)
                requires s2 == 2 * (SCALE as int);
            assert((n.x as int) * (cos as int) == (cos as int) * (n.x as int))
                by (nonlinear_arith);
            assert((n.y as int) * (cos as int) == (cos as int) * (n.y as int))
                by (nonlinear_arith);
            assert((n.z as int) * (cos as int) == (cos as int) * (n.z as int))
                by (nonlinear_arith);
        }
        let scaled: Self = n.scale(cos);
        let inner: Self = self.add(&scaled);
        proof {
            lemma_scaled_box(coef as int, inner.x as int, 4 * (SCALE as int), 4 * (SCALE as int));
            lemma_scaled_box(coef as int, inner.y as int, 4 * (SCALE as int), 4 * (SCALE as int));
            lemma_scaled_box(coef as int, inner.z as int, 4 * (SCALE as int), 4 * (SCALE as int));
            assert(((4 * (SCALE as int)) * (4 * (SCALE as int))) / (SCALE as int) == 16 * (
            SCALE as int)) by (nonlinear_arith);
            assert(inner.x as int * (coef as int) == coef as int * (inner.x as int))
                by (nonlinear_arith);
            assert(inner.y as int * (coef as int) == coef as int * (inner.y as int))
                by (nonlinear_arith);
            assert(inner.z as int * (coef as int) == coef as int * (inner.z as int))
                by (nonlinear_arith);
        }
        let perp: Self = inner.scale(coef);
        proof {
            lemma_ls_fits(perp.x as int, perp.y as int, perp.z as int, 16 * (SCALE as int));
        }
        let pls: i64 = perp.length_squared();
        let arg: i64 = if SCALE - pls >= 0 { SCALE - pls } else { -(SCALE - pls) };
        proof {
            assert(((16 * (SCALE as int)) * (16 * (SCALE as int))) / (SCALE as int) == 256 * (
            SCALE as int)) by (nonlinear_arith);
        }
        let sq: i64 = fx_sqrt(arg);
        proof {
            assert((sq as int) * (sq as int) <= (arg as int) * (SCALE as int));
            assert((arg as int) * (SCALE as int) <= 0x400_0000_0000int * (SCALE as int))
                by (nonlinear_arith)
                requires 0 <= arg as int <= 0x400_0000_0000;
            assert(sq <= 0x20_0000_0000) by (nonlinear_arith)
                requires
                    (sq as int) * (sq as int) <= 0x400_0000_0000int * 4294967296int,
                    sq >= 0;
            lemma_scaled_box(n.x as int, -(sq as int), s2, 0x20_0000_0000int);
            lemma_scaled_box(n.y as int, -(sq as int), s2, 0x20_0000_0000int);
            lemma_scaled_box(n.z as int, -(sq as int), s2, 0x20_0000_0000int);
            assert((0x20_0000_0000int * s2) / (SCALE as int) == 0x40_0000_0000int)
                by (nonlinear_arith)
                requires s2 == 2 * (SCALE as int);
            assert((n.x as int) * (-(sq as int)) == (-(sq as int)) * (n.x as int))
                by (nonlinear_arith);
            assert((n.y as int) * (-(sq as int)) == (-(sq as int)) * (n.y as int))
                by (nonlinear_arith);
            assert((n.z as int) * (-(sq as int)) == (-(sq as int)) * (n.z as int))
                by (nonlinear_arith);
        }
        let parallel: Self = n.scale(-sq);
        perp.add(&parallel)
    }

    /// All components within `EPS` of zero.
    pub fn is_zero(&self) -> (r: bool)
        ensures
            r == is_zero_spec(*self),
    {
        let ax: bool = -EPS < self.x && self.x < EPS;
        let ay: bool = -EPS < self.y && self.y < EPS;
        let az: bool = -EPS < self.z && self.z < EPS;
        ax && ay && az
    }

    /// A vector of three uniform fractions in `[0, 1)`.
    pub fn random(smp: &mut Sampler) -> (r: Self)
        ensures
            0 <= r.x < SCALE && 0 <= r.y < SCALE && 0 <= r.z < SCALE,
    {
        Float3 {
            x: smp.unit_fraction(),
            y: smp.unit_fraction(),
            z: smp.unit_fraction(),
            _type: PhantomData,
        }
    }

    /// A vector of three uniform draws from `[min, max]`.
    pub fn random_in(min: i64, max: i64, smp: &mut Sampler) -> (r: Self)
        requires
            min <= max,
            mag(min as int) <= 1024 * (SCALE as int),
            mag(max as int) <= 1024 * (SCALE as int),
        ensures
            min <= r.x <= max && min <= r.y <= max && min <= r.z <= max,
            min < max ==> r.x < max && r.y < max && r.z < max,
    {
        let d: i64 = max - min;
        let ux: i64 = smp.unit_fraction();
        let uy: i64 = smp.unit_fraction();
        let uz: i64 = smp.unit_fraction();
        proof {
            lemma_frac_range(ux as int, d as int);
            lemma_frac_range(uy as int, d as int);
            lemma_frac_range(uz as int, d as int);
        }
        Float3 {
            x: min + fx_mul(ux, d),
            y: min + fx_mul(uy, d),
            z: min + fx_mul(uz, d),
            _type: PhantomData,
        }
    }

    /// Rejection-samples a point of the unit ball.  A draw is accepted when
    /// its squared length is below one but still long enough to normalize on
    /// the fixed-point grid; after a bounded number of rejections a fixed
    /// half-unit fallback is returned so that the search terminates.
    pub fn random_in_sphere(smp: &mut Sampler) -> (r: Self)
        ensures
            in_box(r, SCALE as int),
            SAMPLE_FLOOR <= ls_spec(r) < SCALE,
    {
        let mut k: usize = 0;
        while k < 64
            invariant
                k <= 64,
            decreases 64 - k,
        {
            let v: Self = Self::random_in(-SCALE, SCALE, smp);
            proof {
                lemma_ls_fits(v.x as int, v.y as int, v.z as int, SCALE as int);
            }
            let ls: i64 = v.length_squared();
            if SAMPLE_FLOOR <= ls && ls < SCALE {
                return v;
            }
            k = k + 1;
        }
        let f: Self = Float3 { x: 2147483648, y: 0, z: 0, _type: PhantomData };
        proof {
            lemma_square_half();
        }
        f
    }

    /// Rejection-samples a point of the unit disc in the x/y plane, by the
    /// same policy as [`Self::random_in_sphere`].
    pub fn random_in_disc(smp: &mut Sampler) -> (r: Self)
        ensures
            in_box(r, SCALE as int),
            SAMPLE_FLOOR <= ls_spec(r) < SCALE,
            r.z == 0,
    {
        let mut k: usize = 0;
        while k < 64
            invariant
                k <= 64,
            decreases 64 - k,
        {
            let s: Self = Self::random_in(-SCALE, SCALE, smp);
            let v: Self = Float3 { x: s.x, y: s.y, z: 0, _type: PhantomData };
            proof {
                lemma_ls_fits(v.x as int, v.y as int, v.z as int, SCALE as int);
            }
            let ls: i64 = v.length_squared();
            if SAMPLE_FLOOR <= ls && ls < SCALE {
                return v;
            }
            k = k + 1;
        }
        let f: Self = Float3 { x: 2147483648, y: 0, z: 0, _type: PhantomData };
        proof {
            lemma_square_half();
        }
        f
    }

    /// A random direction of (approximately) unit length.
    pub fn random_unit(smp: &mut Sampler) -> (r: Self)
        ensures
            in_box(r, 2 * (SCALE as int)),
            (exists|v: Float3<T>|
                in_box(v, SCALE as int) && #[trigger] ls_spec(v) >= SAMPLE_FLOOR
                    && r.x == unit_comp(v.x as int, len_spec(v))
                    && r.y == unit_comp(v.y as int, len_spec(v))
                    && r.z == unit_comp(v.z as int, len_spec(v))),
    {
        let v: Self = Self::random_in_sphere(smp);
        let r: Self = v.normalized();
        proof {
            assert(in_box(v, SCALE as int) && ls_spec(v) >= SAMPLE_FLOOR
                && r.x == unit_comp(v.x as int, len_spec(v))
                && r.y == unit_comp(v.y as int, len_spec(v))
                && r.z == unit_comp(v.z as int, len_spec(v)));
        }
        r
    }

    /// A random unit direction on the hemisphere around `normal`.
    pub fn random_on_hemisphere(normal: &Self, smp: &mut Sampler) -> (r: Self)
        requires
            in_box(*normal, 2 * (SCALE as int)),
        ensures
            in_box(r, 2 * (SCALE as int)),
            (exists|u: Float3<T>|
                in_box(u, 2 * (SCALE as int)) && (if #[trigger] dot_spec(*normal, u) >= 0 {
                    r == u
                } else {
                    r.x == -u.x && r.y == -u.y && r.z == -u.z
                })),
    {
        let u: Self = Self::random_unit(smp);
        proof {
            lemma_dot_box(*normal, u, 2 * (SCALE as int));
            assert(((2 * (SCALE as int)) * (2 * (SCALE as int))) / (SCALE as int) == 4 * (
            SCALE as int)) by (nonlinear_arith);
        }
        let d: i64 = normal.dot(&u);
        if d >= 0 {
            assert(dot_spec(*normal, u) >= 0);
            u
        } else {
            let r: Self = u.neg();
            assert(!(dot_spec(*normal, u) >= 0) && r.x == -u.x && r.y == -u.y && r.z == -u.z);
            r
        }
    }
}

/// Reflection in exact integer arithmetic, scaled by the normal's squared
/// length so that no division is needed: `R(d) = (n.n) d - 2 (d.n) n`.
pub open spec fn reflect_exact(
    dx: int, dy: int, dz: int,
    nx: int, ny: int, nz: int,
) -> (int, int, int) {
    let nn = nx * nx + ny * ny + nz * nz;
    let dn = dx * nx + dy * ny + dz * nz;
    (nn * dx - 2 * dn * nx, nn * dy - 2 * dn * ny, nn * dz - 2 * dn * nz)
}

/// The polynomial core of the reflection involution, over fresh symbols.
proof fn lemma_reflect_poly(
    dx: int, dy: int, dz: int,
    nx: int, ny: int, nz: int,
    nn: int, dn: int,
    rx: int, ry: int, rz: int,
    rn: int,
)
    requires
        nn == nx * nx + ny * ny + nz * nz,
        dn == dx * nx + dy * ny + dz * nz,
        rx == nn * dx - 2 * dn * nx,
        ry == nn * dy - 2 * dn * ny,
        rz == nn * dz - 2 * dn * nz,
        rn == rx * nx + ry * ny + rz * nz,
    ensures
        rn == -(nn * dn),
        nn * rx - 2 * rn * nx == nn * nn * dx,
        nn * ry - 2 * rn * ny == nn * nn * dy,
        nn * rz - 2 * rn * nz == nn * nn * dz,
{
    assert(rx * nx == nn * (dx * nx) - 2 * (dn * (nx * nx))) by (nonlinear_arith)
        requires rx == nn * dx - 2 * dn * nx;
    assert(ry * ny == nn * (dy * ny) - 2 * (dn * (ny * ny))) by (nonlinear_arith)
        requires ry == nn * dy - 2 * dn * ny;
    assert(rz * nz == nn * (dz * nz) - 2 * (dn * (nz * nz))) by (nonlinear_arith)
        requires rz == nn * dz - 2 * dn * nz;
    assert(nn * (dx * nx) + nn * (dy * ny) + nn * (dz * nz) == nn * dn) by (nonlinear_arith)
        requires dn == dx * nx + dy * ny + dz * nz;
    assert(dn * (nx * nx) + dn * (ny * ny) + dn * (nz * nz) == dn * nn) by (nonlinear_arith)
        requires nn == nx * nx + ny * ny + nz * nz;
    assert(nn * dn - 2 * (dn * nn) == -(nn * dn)) by (nonlinear_arith);
    assert(nn * rx - 2 * rn * nx == nn * nn * dx) by (nonlinear_arith)
        requires rx == nn * dx - 2 * dn * nx && rn == -(nn * dn);
    assert(nn * ry - 2 * rn * ny == nn * nn * dy) by (nonlinear_arith)
        requires ry == nn * dy - 2 * dn * ny && rn == -(nn * dn);
    assert(nn * rz - 2 * rn * nz == nn * nn * dz) by (nonlinear_arith)
        requires rz == nn * dz - 2 * dn * nz && rn == -(nn * dn);
}

/// Reflecting is an involution: applied twice with the same normal it
/// returns the original direction (here scaled by the square of the
/// normal's squared length, since each application scales by it).  The
/// executable [`Float3::reflect`] tracks this identity up to fixed-point
/// rounding; on the grid it holds exactly for axis-aligned unit normals.
pub proof fn lemma_reflect_involution(
    dx: int, dy: int, dz: int,
    nx: int, ny: int, nz: int,
)
    ensures
        ({
            let nn = nx * nx + ny * ny + nz * nz;
            let r = reflect_exact(dx, dy, dz, nx, ny, nz);
            reflect_exact(r.0, r.1, r.2, nx, ny, nz) == ((nn * nn * dx, nn * nn * dy, nn * nn
                * dz))
        }),
{
    let nn = nx * nx + ny * ny + nz * nz;
    let dn = dx * nx + dy * ny + dz * nz;
    let r = reflect_exact(dx, dy, dz, nx, ny, nz);
    let rn = r.0 * nx + r.1 * ny + r.2 * nz;
    lemma_reflect_poly(dx, dy, dz, nx, ny, nz, nn, dn, r.0, r.1, r.2, rn);
}

/// A binomial square over fresh symbols.
proof fn lemma_sq_split(u: int, v: int, p: int)
    requires
        p == u + v,
    ensures
        p * p == u * u + 2 * (u * v) + v * v,
{
    assert(p * p == u * u + 2 * (u * v) + v * v) by (nonlinear_arith)
        requires p == u + v;
}

/// Products regroup over fresh symbols.
proof fn lemma_mul4(a: int, b: int, c: int, d: int)
    ensures
        (a * b) * (c * d) == (a * c) * (b * d),
{
    assert((a * b) * (c * d) == (a * c) * (b * d)) by (nonlinear_arith);
}

/// The polynomial core of index-one refraction, over fresh symbols.
proof fn lemma_refract_poly(
    dx: int, dy: int, dz: int,
    nx: int, ny: int, nz: int,
    s2: int, c: int,
    px: int, py: int, pz: int,
)
    requires
        dx * dx + dy * dy + dz * dz == s2,
        nx * nx + ny * ny + nz * nz == s2,
        c == -(dx * nx + dy * ny + dz * nz),
        px == s2 * dx + c * nx,
        py == s2 * dy + c * ny,
        pz == s2 * dz + c * nz,
    ensures
        px * px + py * py + pz * pz == s2 * s2 * s2 - s2 * (c * c),
        px - c * nx == s2 * dx,
        py - c * ny == s2 * dy,
        pz - c * nz == s2 * dz,
{
    lemma_sq_split(s2 * dx, c * nx, px);
    lemma_sq_split(s2 * dy, c * ny, py);
    lemma_sq_split(s2 * dz, c * nz, pz);
    lemma_mul4(s2, dx, s2, dx);
    lemma_mul4(s2, dy, s2, dy);
    lemma_mul4(s2, dz, s2, dz);
    lemma_mul4(s2, dx, c, nx);
    lemma_mul4(s2, dy, c, ny);
    lemma_mul4(s2, dz, c, nz);
    lemma_mul4(c, nx, c, nx);
    lemma_mul4(c, ny, c, ny);
    lemma_mul4(c, nz, c, nz);
    assert(px * px == (s2 * s2) * (dx * dx) + 2 * ((s2 * c) * (dx * nx)) + (c * c) * (nx * nx));
    assert(py * py == (s2 * s2) * (dy * dy) + 2 * ((s2 * c) * (dy * ny)) + (c * c) * (ny * ny));
    assert(pz * pz == (s2 * s2) * (dz * dz) + 2 * ((s2 * c) * (dz * nz)) + (c * c) * (nz * nz));
    assert((s2 * s2) * (dx * dx) + (s2 * s2) * (dy * dy) + (s2 * s2) * (dz * dz) == (s2 * s2)
        * s2) by (nonlinear_arith)
        requires dx * dx + dy * dy + dz * dz == s2;
    assert(2 * ((s2 * c) * (dx * nx)) + 2 * ((s2 * c) * (dy * ny)) + 2 * ((s2 * c) * (dz * nz))
        == -(2 * (s2 * (c * c)))) by (nonlinear_arith)
        requires c == -(dx * nx + dy * ny + dz * nz);
    assert((c * c) * (nx * nx) + (c * c) * (ny * ny) + (c * c) * (nz * nz) == (c * c) * s2)
        by (nonlinear_arith)
        requires nx * nx + ny * ny + nz * nz == s2;
    assert((s2 * s2) * s2 - 2 * (s2 * (c * c)) + (c * c) * s2 == s2 * s2 * s2 - s2 * (c * c))
        by (nonlinear_arith);
}

/// With an index ratio of one, refraction is a pass-through: in exact
/// arithmetic the perpendicular part of a unit incident direction against
/// a unit normal has squared length `1 - cos^2`, the restored parallel
/// part is exactly `-cos n`, and the two reassemble the incident
/// direction undeviated.  The executable [`Float3::refract`] tracks this
/// up to fixed-point rounding.  Components are scaled by `SCALE`, so a
/// unit vector satisfies `|v|^2 == SCALE * SCALE` exactly.
pub proof fn lemma_refract_identity(
    dx: int, dy: int, dz: int,
    nx: int, ny: int, nz: int,
)
    requires
        dx * dx + dy * dy + dz * dz == (SCALE as int) * (SCALE as int),
        nx * nx + ny * ny + nz * nz == (SCALE as int) * (SCALE as int),
    ensures
        ({
            let s2 = (SCALE as int) * (SCALE as int);
            let c = -(dx * nx + dy * ny + dz * nz);
            let px = s2 * dx + c * nx;
            let py = s2 * dy + c * ny;
            let pz = s2 * dz + c * nz;
            px * px + py * py + pz * pz == s2 * s2 * s2 - s2 * (c * c) && px - c * nx == s2 * dx
                && py - c * ny == s2 * dy && pz - c * nz == s2 * dz
        }),
{
    let s2 = (SCALE as int) * (SCALE as int);
    let c = -(dx * nx + dy * ny + dz * nz);
    lemma_refract_poly(
        dx, dy, dz,
        nx, ny, nz,
        s2, c,
        s2 * dx + c * nx, s2 * dy + c * ny, s2 * dz + c * nz,
    );
}

impl Float3<ColorT> {
    /// Gamma correction: the square root of each linear channel.
    pub fn linear_to_gamma(&self) -> (r: Color)
        requires
            self.x >= 0,
            self.y >= 0,
            self.z >= 0,
        ensures
            r.x == fxsqrt(self.x as int),
            r.y == fxsqrt(self.y as int),
            r.z == fxsqrt(self.z as int),
            is_fxsqrt(self.x as int, r.x as int),
            is_fxsqrt(self.y as int, r.y as int),
            is_fxsqrt(self.z as int, r.z as int),
            r.x >= 0 && r.y >= 0 && r.z >= 0,
    {
        Float3 {
            x: fx_sqrt(self.x),
            y: fx_sqrt(self.y),
            z: fx_sqrt(self.z),
            _type: PhantomData,
        }
    }

    /// Appends this color's image line, `R G B` in bytes `0..=255` after
    /// gamma correction, to the byte sink.
    pub fn write_to(&self, out: &mut Vec<u8>)
        requires
            0 <= self.x <= SCALE,
            0 <= self.y <= SCALE,
            0 <= self.z <= SCALE,
        ensures
            final(out)@ == old(out)@ + crate::line_spec(
                (self.x as int, self.y as int, self.z as int),
            ),
    {
        let g: Color = self.linear_to_gamma();
        proof {
            lemma_gamma_in_unit(self.x as int, g.x as int);
            lemma_gamma_in_unit(self.y as int, g.y as int);
            lemma_gamma_in_unit(self.z as int, g.z as int);
            lemma_fxmul_bound(g.x as int, 1099507332808, SCALE as int, 1099507332808,
                1099507332808);
            lemma_fxmul_bound(g.y as int, 1099507332808, SCALE as int, 1099507332808,
                1099507332808);
            lemma_fxmul_bound(g.z as int, 1099507332808, SCALE as int, 1099507332808,
                1099507332808);
        }
        let sx: i64 = fx_mul(g.x, 1099507332808);
        let sy: i64 = fx_mul(g.y, 1099507332808);
        let sz: i64 = fx_mul(g.z, 1099507332808);
        proof {
            lemma_channel_byte(g.x as int, sx as int);
            lemma_channel_byte(g.y as int, sy as int);
            lemma_channel_byte(g.z as int, sz as int);
        }
        let bx: u64 = (sx as u64) / (SCALE as u64);
        let by: u64 = (sy as u64) / (SCALE as u64);
        let bz: u64 = (sz as u64) / (SCALE as u64);
        crate::push_dec(out, bx);
        out.push(32u8);
        crate::push_dec(out, by);
        out.push(32u8);
        crate::push_dec(out, bz);
        out.push(10u8);
        proof {
            let c = (self.x as int, self.y as int, self.z as int);
            assert(out@ =~= old(out)@ + crate::line_spec(c));
        }
    }
}

/// The square root of a unit-interval scalar stays in the unit interval.
proof fn lemma_gamma_in_unit(c: int, r: int)
    requires
        0 <= c <= SCALE as int,
        is_fxsqrt(c, r),
    ensures
        0 <= r <= SCALE as int,
{
    if r > SCALE as int {
        assert(false) by (nonlinear_arith)
            requires
                r * r <= c * 4294967296,
                c <= 4294967296,
                r > 4294967296;
    }
}

/// A scaled channel divides down to its byte.
proof fn lemma_channel_byte(g: int, s: int)
    requires
        0 <= g <= SCALE as int,
        s == fxmul(g, 1099507332808),
        0 <= s <= 1099507332808,
    ensures
        tdiv(s, SCALE as int) == s / (SCALE as int),
        0 <= s / (SCALE as int) <= 255,
{
    crate::scalar::lemma_tdiv_nonneg(s, SCALE as int);
    assert(s / 4294967296 <= 255) by (nonlinear_arith)
        requires 0 <= s <= 1099507332808;
}

/// The dot product of two boxed vectors is within `3 * m * m / SCALE`.
pub proof fn lemma_dot_box<A: VecLike, B: VecLike>(a: Float3<A>, b: Float3<B>, m: int)
    requires
        m >= 0,
        in_box(a, m),
        in_box(b, m),
    ensures
        mag(dot_spec(a, b)) <= 3 * ((m * m) / (SCALE as int)),
{
    lemma_mul_mag(a.x as int, b.x as int, m, m);
    lemma_mul_mag(a.y as int, b.y as int, m, m);
    lemma_mul_mag(a.z as int, b.z as int, m, m);
    lemma_tdiv_mag((a.x as int) * (b.x as int), SCALE as int, m * m);
    lemma_tdiv_mag((a.y as int) * (b.y as int), SCALE as int, m * m);
    lemma_tdiv_mag((a.z as int) * (b.z as int), SCALE as int, m * m);
}

/// The dot product of two differently boxed vectors is within
/// `3 * ma * mb / SCALE`.
pub proof fn lemma_dot_box2<A: VecLike, B: VecLike>(a: Float3<A>, b: Float3<B>, ma: int, mb: int)
    requires
        ma >= 0,
        mb >= 0,
        in_box(a, ma),
        in_box(b, mb),
    ensures
        mag(dot_spec(a, b)) <= 3 * ((ma * mb) / (SCALE as int)),
{
    lemma_mul_mag(a.x as int, b.x as int, ma, mb);
    lemma_mul_mag(a.y as int, b.y as int, ma, mb);
    lemma_mul_mag(a.z as int, b.z as int, ma, mb);
    lemma_tdiv_mag((a.x as int) * (b.x as int), SCALE as int, ma * mb);
    lemma_tdiv_mag((a.y as int) * (b.y as int), SCALE as int, ma * mb);
    lemma_tdiv_mag((a.z as int) * (b.z as int), SCALE as int, ma * mb);
}

/// Helper bounds for `lerp`.
proof fn lemma_lerp_fits(a: int, b: int, p: int)
    requires
        0 <= p <= SCALE as int,
        mag(a) <= 0x100_0000_0000,
        mag(b) <= 0x100_0000_0000,
    ensures
        fits(fxmul(a, SCALE - p)),
        fits(fxmul(b, p)),
        fits(fxmul(a, SCALE - p) + fxmul(b, p)),
        mag(fxmul(a, SCALE - p)) <= 0x100_0000_0000,
        mag(fxmul(b, p)) <= 0x100_0000_0000,
{
    lemma_mul_mag(a, SCALE - p, 0x100_0000_0000int, SCALE as int);
    lemma_mul_mag(b, p, 0x100_0000_0000int, SCALE as int);
    lemma_tdiv_mag(a * (SCALE - p), SCALE as int, 0x100_0000_0000int * (SCALE as int));
    lemma_tdiv_mag(b * p, SCALE as int, 0x100_0000_0000int * (SCALE as int));
    assert((0x100_0000_0000int * (SCALE as int)) / (SCALE as int) == 0x100_0000_0000int)
        by (nonlinear_arith);
}

/// The squared length of a boxed vector fits an `i64` for boxes up to
/// `2^47`.
pub proof fn lemma_ls_fits(x: int, y: int, z: int, m: int)
    requires
        0 <= m <= 0x4000_0000_0000,
        mag(x) <= m,
        mag(y) <= m,
        mag(z) <= m,
    ensures
        fits(fxmul(x, x) + fxmul(y, y) + fxmul(z, z)),
        mag(fxmul(x, x) + fxmul(y, y) + fxmul(z, z)) <= 3 * ((m * m) / (SCALE as int)),
{
    lemma_mul_mag(x, x, m, m);
    lemma_mul_mag(y, y, m, m);
    lemma_mul_mag(z, z, m, m);
    lemma_tdiv_mag(x * x, SCALE as int, m * m);
    lemma_tdiv_mag(y * y, SCALE as int, m * m);
    lemma_tdiv_mag(z * z, SCALE as int, m * m);
    assert((m * m) / (SCALE as int) <= (0x4000_0000_0000int * 0x4000_0000_0000int) / (
    SCALE as int)) by (nonlinear_arith)
        requires 0 <= m <= 0x4000_0000_0000;
    assert((0x4000_0000_0000int * 0x4000_0000_0000int) / (SCALE as int) == 0x1000_0000_0000_0000int)
        by (nonlinear_arith);
}

/// A product with a dot-product scalar stays in range.
proof fn lemma_scaled_box(n: int, dp: int, m: int, dm: int)
    requires
        m >= 0,
        dm >= 0,
        mag(n) <= m,
        mag(dp) <= dm,
    ensures
        mag(fxmul(dp, n)) <= (dm * m) / (SCALE as int),
{
    lemma_mul_mag(dp, n, dm, m);
    lemma_tdiv_mag(dp * n, SCALE as int, dm * m);
}

/// The fallback rejection sample, one half along the x axis, has squared
/// length of a quarter.
proof fn lemma_square_half()
    ensures
        fxmul(2147483648, 2147483648) == 1073741824,
        fxmul(0, 0) == 0,
{
    assert((2147483648int * 2147483648int) / 4294967296int == 1073741824int) by (nonlinear_arith);
    assert(tdiv(2147483648int * 2147483648int, SCALE as int) == (2147483648int * 2147483648int)
        / 4294967296int);
}

/// Truncated fixed-point quotient, exact in `i128`.
pub(crate) fn div_wide(a: i64, b: i64) -> (r: i128)
    requires
        b != 0,
    ensures
        r as int == fxdiv(a as int, b as int),
        mag(r as int) <= mag(a as int) * (SCALE as int),
{
    proof {
        lemma_mul_mag(a as int, SCALE as int, mag(a as int), SCALE as int);
        lemma_tdiv_mag(
            (a as int) * (SCALE as int),
            mag(b as int),
            mag(a as int) * (SCALE as int),
        );
    }
    let p: i128 = (a as i128) * (SCALE as i128);
    let pm: u128 = if p >= 0 {
        p as u128
    } else {
        (-p) as u128
    };
    let bw: i128 = b as i128;
    let bm: u128 = if bw >= 0 {
        bw as u128
    } else {
        (-bw) as u128
    };
    let q: u128 = pm / bm;
    if (p >= 0) == (b >= 0) {
        q as i128
    } else {
        -(q as i128)
    }
}

/// Scaling by two in fixed point is exact doubling.
proof fn lemma_double_exact(v: int)
    ensures
        fxmul(v, 2 * (SCALE as int)) == 2 * v,
{
    let s = SCALE as int;
    assert(tdiv(v * (2 * s), s) == 2 * v) by (nonlinear_arith)
        requires s == 4294967296;
}

/// Exact signed division helper over machine words.
pub(crate) fn div_i64(a: i64, b: i64) -> (r: i64)
    requires
        b > 0,
        fits(tdiv(a as int, b as int)),
    ensures
        r as int == tdiv(a as int, b as int),
{
    if a >= 0 {
        ((a as u64) / (b as u64)) as i64
    } else {
        let m: u64 = ((-(a as i128)) as u64) / (b as u64);
        -(m as i64)
    }
}

} // verus!
