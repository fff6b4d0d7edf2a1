//! Fixed-point helpers: truncating scaled division, clamping, saturating
//! addition and a trigonometric approximation over micro-radians.
use vstd::prelude::*;

verus! {

/// The fixed-point value that stands for 1 in trigonometric results.
pub const TRIG_ONE: i64 = 1_000_000;

/// Half of pi, in micro-radians.
pub const HALF_PI: i64 = 1_570_796;

/// Pi, in micro-radians.
pub const PI: i64 = 3_141_593;

/// Division of `a` by a positive `b`, rounding toward zero.
pub open spec fn div_trunc(a: int, b: int) -> int {
    if a >= 0 {
        a / b
    } else {
        -((-a) / b)
    }
}

/// `x` clamped into `[lo, hi]`.
pub open spec fn clamp(x: int, lo: int, hi: int) -> int {
    if x < lo {
        lo
    } else if x > hi {
        hi
    } else {
        x
    }
}

/// `x` clamped into the range of `i64`.
pub open spec fn saturate(x: int) -> int {
    clamp(x, i64::MIN as int, i64::MAX as int)
}

pub proof fn lemma_div_trunc_bound(a: int, b: int, m: int)
    requires
        b > 0,
        -m <= a <= m,
    ensures
        -(m / b) <= div_trunc(a, b) <= m / b,
        -m <= div_trunc(a, b) <= m,
{
    if a >= 0 {
        vstd::arithmetic::div_mod::lemma_div_is_ordered(a, m, b);
        vstd::arithmetic::div_mod::lemma_div_is_ordered(0, a, b);
    } else {
        vstd::arithmetic::div_mod::lemma_div_is_ordered(-a, m, b);
        vstd::arithmetic::div_mod::lemma_div_is_ordered(0, -a, b);
    }
    vstd::arithmetic::div_mod::lemma_div_is_ordered(0, m, b);
    vstd::arithmetic::div_mod::lemma_div_is_ordered_by_denominator(m, 1, b);
    vstd::arithmetic::div_mod::lemma_div_basics(m);
}

/// `a * num / den` rounded toward zero, over a wide intermediate product.
pub fn mul_div(a: i64, num: i64, den: i64) -> (r: i64)
    requires
        den > 0,
        -(i64::MAX as int) <= div_trunc(a as int * num as int, den as int) <= i64::MAX,
    ensures
        r == div_trunc(a as int * num as int, den as int),
{
    assert(-0x7fff_ffff_ffff_ffff_ffff_ffff_ffff_ffff <= a as int * num as int
        <= 0x7fff_ffff_ffff_ffff_ffff_ffff_ffff_ffff) by (nonlinear_arith)
        requires
            -0x8000_0000_0000_0000 <= a <= 0x7fff_ffff_ffff_ffff,
            -0x8000_0000_0000_0000 <= num <= 0x7fff_ffff_ffff_ffff,
    ;
    let p: i128 = a as i128 * num as i128;
    if p >= 0 {
        ((p as u128) / (den as u128)) as i64
    } else {
        let q: u128 = ((-p) as u128) / (den as u128);
        -(q as i64)
    }
}

/// One factor of a nested Horner evaluation: `1 - y2 * t / k`, floored at zero.
pub open spec fn horner(y2: int, t: int, k: int) -> int {
    let d = y2 * t / (TRIG_ONE as int) / k;
    if d > TRIG_ONE {
        0
    } else {
        TRIG_ONE - d
    }
}

/// Sine of an angle in `[0, pi/2]` by its Taylor series up to the 11th power.
pub open spec fn sin_poly(y: int) -> int {
    let y2 = y * y / (TRIG_ONE as int);
    let t = horner(y2, horner(y2, horner(y2, horner(y2, horner(y2, TRIG_ONE as int, 110), 72), 42), 20), 6);
    let s = y * t / (TRIG_ONE as int);
    if s > TRIG_ONE {
        TRIG_ONE as int
    } else {
        s
    }
}

/// Cosine of an angle in `[0, pi/2]` by its Taylor series up to the 10th power.
pub open spec fn cos_poly(y: int) -> int {
    let y2 = y * y / (TRIG_ONE as int);
    horner(y2, horner(y2, horner(y2, horner(y2, horner(y2, TRIG_ONE as int, 90), 56), 30), 12), 2)
}

/// The angle in `[0, pi/2]` that has the same sine and the same cosine,
/// up to sign, as an angle of magnitude `m` in `[0, pi]`.
pub open spec fn reduced(m: int) -> int {
    if m > HALF_PI {
        PI - m
    } else {
        m
    }
}

pub open spec fn abs(a: int) -> int {
    if a < 0 {
        -a
    } else {
        a
    }
}

/// The fixed-point sine of `a` micro-radians, for `|a| <= pi`.
pub open spec fn sin_fx(a: int) -> int {
    let s = sin_poly(reduced(abs(a)));
    if a < 0 {
        -s
    } else {
        s
    }
}

/// The fixed-point cosine of `a` micro-radians, for `|a| <= pi`.
pub open spec fn cos_fx(a: int) -> int {
    let c = cos_poly(reduced(abs(a)));
    if abs(a) > HALF_PI {
        -c
    } else {
        c
    }
}

fn horner_step(y2: u64, t: u64, k: u64) -> (r: u64)
    requires
        y2 <= 2_500_000,
        t <= TRIG_ONE,
        k > 0,
    ensures
        r == horner(y2 as int, t as int, k as int),
        r <= TRIG_ONE,
{
    assert(y2 * t <= 2_500_000 * 1_000_000) by (nonlinear_arith)
        requires
            y2 <= 2_500_000,
            t <= 1_000_000,
    ;
    let d: u64 = y2 * t / (TRIG_ONE as u64) / k;
    if d > TRIG_ONE as u64 {
        0
    } else {
        TRIG_ONE as u64 - d
    }
}

fn squared(y: u64) -> (r: u64)
    requires
        y <= HALF_PI + 1,
    ensures
        r == y * y / (TRIG_ONE as int),
        r <= 2_500_000,
{
    assert(y * y <= 1_570_797 * 1_570_797) by (nonlinear_arith)
        requires
            y <= 1_570_797,
    ;
    assert((y * y) as int / 1_000_000 <= (1_570_797int * 1_570_797) / 1_000_000) by {
        vstd::arithmetic::div_mod::lemma_div_is_ordered((y * y) as int, 1_570_797int * 1_570_797, 1_000_000);
    }
    y * y / (TRIG_ONE as u64)
}

fn sin_poly_exec(y: u64) -> (r: u64)
    requires
        y <= HALF_PI + 1,
    ensures
        r == sin_poly(y as int),
        r <= TRIG_ONE,
{
    let y2 = squared(y);
    let t = horner_step(y2, TRIG_ONE as u64, 110);
    let t = horner_step(y2, t, 72);
    let t = horner_step(y2, t, 42);
    let t = horner_step(y2, t, 20);
    let t = horner_step(y2, t, 6);
    assert(y * t <= 1_570_797 * 1_000_000) by (nonlinear_arith)
        requires
            y <= 1_570_797,
            t <= 1_000_000,
    ;
    let s: u64 = y * t / (TRIG_ONE as u64);
    if s > TRIG_ONE as u64 {
        TRIG_ONE as u64
    } else {
        s
    }
}

fn cos_poly_exec(y: u64) -> (r: u64)
    requires
        y <= HALF_PI + 1,
    ensures
        r == cos_poly(y as int),
        r <= TRIG_ONE,
{
    let y2 = squared(y);
    let t = horner_step(y2, TRIG_ONE as u64, 90);
    let t = horner_step(y2, t, 56);
    let t = horner_step(y2, t, 30);
    let t = horner_step(y2, t, 12);
    horner_step(y2, t, 2)
}

/// The fixed-point sine and cosine of an angle of `a` micro-radians.
pub fn sin_cos(a: i64) -> (r: (i64, i64))
    requires
        -PI <= a <= PI,
    ensures
        r.0 == sin_fx(a as int),
        r.1 == cos_fx(a as int),
        -TRIG_ONE <= r.0 <= TRIG_ONE,
        -TRIG_ONE <= r.1 <= TRIG_ONE,
{
    let m: u64 = if a < 0 { (-a) as u64 } else { a as u64 };
    let y: u64 = if m > HALF_PI as u64 { PI as u64 - m } else { m };
    let s = sin_poly_exec(y) as i64;
    let c = cos_poly_exec(y) as i64;
    let sin = if a < 0 { -s } else { s };
    let cos = if m > HALF_PI as u64 { -c } else { c };
    (sin, cos)
}

} // verus!
