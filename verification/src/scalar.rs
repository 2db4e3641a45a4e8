//! Fixed-point scalars.
//!
//! A scalar is a signed 32.32 fixed-point number: an `i64` that holds the
//! intended value multiplied by [`SCALE`].  Products and quotients are
//! computed exactly in `i128` and rescaled with truncation toward zero,
//! which is what [`tdiv`] describes.

use vstd::prelude::*;

verus! {

/// One in fixed point: every scalar is the intended value times this.
pub const SCALE: i64 = 4294967296;

/// Largest position (or radius) component the scene grid admits: 256 units.
pub const POS_LIMIT: i64 = 1099511627776;

/// Largest ray-direction component the grid admits: 16 units.
pub const DIR_LIMIT: i64 = 68719476736;

/// Largest ray parameter the grid can evaluate a point at without
/// overflowing a direction product: about 16.8 million units, far beyond
/// any distance between on-grid surfaces.
pub const T_LIMIT: i64 = 72057594037927936;

/// Largest component of a reported surface normal: 1.25 units.
pub const NORM_LIMIT: i64 = 5368709120;

/// Magnitude of an integer.
pub open spec fn mag(x: int) -> int {
    if x >= 0 {
        x
    } else {
        -x
    }
}

/// Truncating division (round toward zero), the rounding that every
/// fixed-point product and quotient in this crate uses.
pub open spec fn tdiv(a: int, b: int) -> int {
    let q = mag(a) / mag(b);
    if (a >= 0) == (b >= 0) {
        q
    } else {
        -q
    }
}

/// The mathematical result fits an `i64` (symmetric range, so that a
/// magnitude can always be negated).
pub open spec fn fits(v: int) -> bool {
    -0x7fff_ffff_ffff_ffff <= v <= 0x7fff_ffff_ffff_ffff
}

/// Product of two fixed-point scalars, rescaled.
pub open spec fn fxmul(a: int, b: int) -> int {
    tdiv(a * b, SCALE as int)
}

/// Quotient of two fixed-point scalars, rescaled.
pub open spec fn fxdiv(a: int, b: int) -> int {
    tdiv(a * (SCALE as int), b)
}

pub proof fn lemma_tdiv_nonneg(p: int, s: int)
    requires
        p >= 0,
        s > 0,
    ensures
        tdiv(p, s) == p / s,
        tdiv(p, s) >= 0,
{
    assert(p / s >= 0) by (nonlinear_arith)
        requires p >= 0 && s > 0;
}

/// Magnitude of a truncating quotient: `|tdiv(p, s)| <= m / s` whenever
/// `|p| <= m`.
pub proof fn lemma_tdiv_mag(p: int, s: int, m: int)
    requires
        s > 0,
        mag(p) <= m,
    ensures
        mag(tdiv(p, s)) == mag(p) / s,
        mag(tdiv(p, s)) <= m / s,
        mag(tdiv(p, s)) <= m,
{
    assert(mag(p) / s <= m / s) by (nonlinear_arith)
        requires s > 0 && 0 <= mag(p) <= m;
    assert(m / s <= m) by (nonlinear_arith)
        requires s > 0 && m >= 0;
    assert(mag(p) / s >= 0) by (nonlinear_arith)
        requires s > 0 && mag(p) >= 0;
}

/// Magnitude of a product: `|a * b| <= ma * mb` from bounds on the factors.
pub proof fn lemma_mul_mag(a: int, b: int, ma: int, mb: int)
    requires
        mag(a) <= ma,
        mag(b) <= mb,
    ensures
        mag(a * b) <= ma * mb,
{
    assert(mag(a * b) <= ma * mb) by (nonlinear_arith)
        requires mag(a) <= ma && mag(b) <= mb;
}

/// A fixed-point square is never negative.
pub proof fn lemma_fxsq_nonneg(x: int)
    ensures
        fxmul(x, x) >= 0,
{
    assert(x * x >= 0) by (nonlinear_arith);
    lemma_tdiv_nonneg(x * x, SCALE as int);
}

/// A fraction of a nonnegative scalar stays within it: with `0 <= u < SCALE`
/// (a fraction below one), `0 <= u * d / SCALE <= d`, and strictly below
/// `d` whenever `d` is positive.
pub proof fn lemma_frac_range(u: int, d: int)
    requires
        0 <= u < SCALE as int,
        0 <= d,
    ensures
        0 <= fxmul(u, d) <= d,
        d >= 1 ==> fxmul(u, d) < d,
{
    assert(u * d >= 0) by (nonlinear_arith)
        requires u >= 0 && d >= 0;
    lemma_tdiv_nonneg(u * d, SCALE as int);
    assert((u * d) / (SCALE as int) <= d) by (nonlinear_arith)
        requires 0 <= u < SCALE as int && d >= 0 && SCALE as int > 0;
    if d >= 1 {
        assert((u * d) / (SCALE as int) < d) by (nonlinear_arith)
            requires 0 <= u < SCALE as int && d >= 1 && SCALE as int == 4294967296;
    }
}

/// One-call bound for a fixed-point product: from factor bounds
/// `ma * mb <= q * SCALE` it follows that `|a * b / SCALE| <= q`.
pub proof fn lemma_fxmul_bound(a: int, b: int, ma: int, mb: int, q: int)
    requires
        mag(a) <= ma,
        mag(b) <= mb,
        0 <= ma,
        0 <= mb,
        ma * mb <= q * (SCALE as int),
        0 <= q,
    ensures
        mag(fxmul(a, b)) <= q,
{
    lemma_mul_mag(a, b, ma, mb);
    lemma_tdiv_mag(a * b, SCALE as int, ma * mb);
    assert((ma * mb) / (SCALE as int) <= q) by (nonlinear_arith)
        requires ma * mb <= q * 4294967296 && 0 <= q && SCALE as int == 4294967296;
}

/// Scaling by one is exact: `q * SCALE / SCALE == q`.
pub proof fn lemma_cancel(q: int)
    ensures
        fxmul(q, SCALE as int) == q,
        fxmul(SCALE as int, q) == q,
{
    let s = SCALE as int;
    assert(tdiv(q * s, s) == q) by (nonlinear_arith)
        requires s == 4294967296;
    assert(q * s == s * q) by (nonlinear_arith);
}

/// A product of two scalars of the unit interval stays in it, below both.
pub proof fn lemma_unit_prod(x: int, y: int)
    requires
        0 <= x <= SCALE as int,
        0 <= y <= SCALE as int,
    ensures
        0 <= fxmul(x, y),
        fxmul(x, y) <= x,
        fxmul(x, y) <= y,
{
    let s = SCALE as int;
    assert(x * y >= 0) by (nonlinear_arith)
        requires x >= 0 && y >= 0;
    lemma_tdiv_nonneg(x * y, s);
    assert((x * y) / s <= x && (x * y) / s <= y) by (nonlinear_arith)
        requires 0 <= x <= s && 0 <= y <= s && s > 0;
}

/// `r` is the integer square root of the scaled radicand `a * SCALE`, which
/// makes `r` the fixed-point square root of the scalar `a`.
pub open spec fn is_fxsqrt(a: int, r: int) -> bool {
    r >= 0 && r * r <= a * (SCALE as int) && a * (SCALE as int) < (r + 1) * (r + 1)
}

/// The fixed-point square root of a nonnegative scalar.
pub open spec fn fxsqrt(a: int) -> int {
    choose|r: int| is_fxsqrt(a, r)
}

/// The integer square root is unique.
pub proof fn lemma_fxsqrt_unique(a: int, r1: int, r2: int)
    requires
        is_fxsqrt(a, r1),
        is_fxsqrt(a, r2),
    ensures
        r1 == r2,
{
    assert(r1 == r2) by (nonlinear_arith)
        requires
            r1 >= 0 && r1 * r1 <= a * (SCALE as int) && a * (SCALE as int) < (r1 + 1) * (r1 + 1),
            r2 >= 0 && r2 * r2 <= a * (SCALE as int) && a * (SCALE as int) < (r2 + 1) * (r2 + 1);
}

/// Integer square root by bisection.
fn isqrt_u128(n: u128) -> (r: u64)
    ensures
        (r as int) * (r as int) <= n as int,
        (n as int) < (r as int + 1) * (r as int + 1),
{
    let mut lo: u128 = 0;
    let mut hi: u128 = 0x1_0000_0000_0000_0000;
    proof {
        assert((hi as int) * (hi as int) > n as int) by (nonlinear_arith)
            requires hi as int == 0x1_0000_0000_0000_0000 && n as int <= 0xffff_ffff_ffff_ffff_ffff_ffff_ffff_ffff;
    }
    while lo + 1 < hi
        invariant
            lo < hi <= 0x1_0000_0000_0000_0000,
            (lo as int) * (lo as int) <= n as int,
            (n as int) < (hi as int) * (hi as int),
        decreases hi - lo,
    {
        let mid: u128 = lo + (hi - lo) / 2;
        proof {
            assert((mid as int) * (mid as int) <= 0xffff_ffff_ffff_ffff_ffff_ffff_ffff_ffff)
                by (nonlinear_arith)
                requires mid as int <= 0xffff_ffff_ffff_ffff;
        }
        let sq: u128 = mid * mid;
        if sq <= n {
            lo = mid;
        } else {
            hi = mid;
        }
    }
    lo as u64
}

/// Fixed-point square root of a nonnegative scalar.  The result of
/// `fx_sqrt(a)` squares to at most `a` and is the largest such scalar on the
/// grid.
pub fn fx_sqrt(a: i64) -> (r: i64)
    requires
        a >= 0,
    ensures
        r == fxsqrt(a as int),
        is_fxsqrt(a as int, r as int),
        r >= 0,
{
    let n: u128 = (a as u128) * (SCALE as u128);
    let s: u64 = isqrt_u128(n);
    proof {
        lemma_mul_mag(a as int, SCALE as int, 0x7fff_ffff_ffff_ffff, SCALE as int);
        assert(s < 0x1_0000_0000_0000) by (nonlinear_arith)
            requires
                (s as int) * (s as int) <= n as int,
                n as int <= 0x7fff_ffff_ffff_ffff * (SCALE as int);
        assert(is_fxsqrt(a as int, s as int));
        lemma_fxsqrt_unique(a as int, s as int, fxsqrt(a as int));
    }
    s as i64
}

/// A component of a normalized vector is below two (in fixed point):
/// `|v * SCALE / len| < 2 * SCALE` whenever `v`'s squared contribution is
/// within the squared length that `len` is the root of.
pub proof fn lemma_unit_comp_bound(v: int, ls: int, len: int)
    requires
        tdiv(v * v, SCALE as int) <= ls,
        ls >= 1,
        is_fxsqrt(ls, len),
    ensures
        len >= 65536,
        mag(tdiv(v * (SCALE as int), len)) < 2 * (SCALE as int),
{
    let s = SCALE as int;
    assert(len >= 65536) by (nonlinear_arith)
        requires is_fxsqrt(ls, len) && ls >= 1 && s == SCALE as int;
    assert(v * v >= 0) by (nonlinear_arith);
    assert(v * v <= ls * s + s - 1) by (nonlinear_arith)
        requires s > 0 && v * v >= 0 && (v * v) / s <= ls && tdiv(v * v, s) == (v * v) / s;
    assert(v * v < 4 * (len * len)) by (nonlinear_arith)
        requires
            v * v <= ls * s + s - 1,
            ls * s < (len + 1) * (len + 1),
            len >= 65536,
            s == 4294967296;
    assert(mag(v) < 2 * len) by (nonlinear_arith)
        requires v * v < 4 * (len * len) && len > 0;
    lemma_tdiv_mag(v * s, len, (2 * len - 1) * s);
    assert(((2 * len - 1) * s) / len < 2 * s) by (nonlinear_arith)
        requires len > 0 && s > 0;
    assert(mag(v * s) <= (2 * len - 1) * s) by (nonlinear_arith)
        requires mag(v) <= 2 * len - 1 && s > 0 && mag(v * s) == mag(v) * s;
    assert(mag(v * s) == mag(v) * s) by (nonlinear_arith)
        requires s > 0;
}

/// Fixed-point multiplication: exact product in `i128`, truncated rescale.
pub fn fx_mul(a: i64, b: i64) -> (r: i64)
    requires
        fits(fxmul(a as int, b as int)),
    ensures
        r == fxmul(a as int, b as int),
{
    let p: i128 = (a as i128) * (b as i128);
    if p >= 0 {
        proof {
            lemma_tdiv_nonneg(p as int, SCALE as int);
            assert((a as int) * (b as int) < 0 ==> p as int == 0);
        }
        let q: u128 = (p as u128) / (SCALE as u128);
        q as i64
    } else {
        proof {
            lemma_tdiv_nonneg(-(p as int), SCALE as int);
        }
        let m: u128 = (-p) as u128;
        let q: u128 = m / (SCALE as u128);
        -(q as i64)
    }
}

/// Fixed-point division: exact scaled dividend in `i128`, truncated quotient.
pub fn fx_div(a: i64, b: i64) -> (r: i64)
    requires
        b != 0,
        fits(fxdiv(a as int, b as int)),
    ensures
        r == fxdiv(a as int, b as int),
{
    let p: i128 = (a as i128) * (SCALE as i128);
    let pm: u128 = if p >= 0 { p as u128 } else { (-p) as u128 };
    let bw: i128 = b as i128;
    let bm: u128 = if bw >= 0 { bw as u128 } else { (-bw) as u128 };
    proof {
        lemma_tdiv_nonneg(mag(p as int), mag(b as int));
        assert(pm as int == mag(p as int));
        assert(bm as int == mag(b as int));
    }
    let q: u128 = pm / bm;
    if (p >= 0) == (b >= 0) {
        q as i64
    } else {
        -(q as i64)
    }
}

} // verus!
