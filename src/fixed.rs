//! Fixed-point complex arithmetic: a real number `x` is held as the integer
//! `x * 2^48`, and products are rescaled toward zero.
use vstd::prelude::*;

verus! {

/// Number of fraction bits.
pub const SHIFT: u32 = 48;

/// The fixed-point value of one.
pub const ONE: i64 = 281474976710656;

/// Squared escape radius, 1000, at the scale of a product of two values
/// (`1000 * 2^96`).
pub const ESCAPE_NORM2: i128 = 79228162514264337593543950336000;

/// Largest magnitude of a sampled coordinate component (4.0).
pub const COORD_BOUND: i64 = 1125899906842624;

/// Largest magnitude of an iterate component (`2^60`, 4096.0).
pub const ITER_BOUND: i64 = 1152921504606846976;

/// A complex number in fixed point.
#[derive(Clone, Copy, Debug, PartialEq, Eq, Structural)]
pub struct Point {
    pub re: i64,
    pub im: i64,
}

/// Zero.
pub open spec fn zero_point() -> Point {
    Point { re: 0, im: 0 }
}

/// A coordinate that the engine can sample.
pub open spec fn coord_ok(c: Point) -> bool {
    -COORD_BOUND <= c.re <= COORD_BOUND && -COORD_BOUND <= c.im <= COORD_BOUND
}

/// An iterate whose squared norm can be taken without overflow.
pub open spec fn iter_ok(z: Point) -> bool {
    -ITER_BOUND <= z.re <= ITER_BOUND && -ITER_BOUND <= z.im <= ITER_BOUND
}

/// Squared norm, at the scale of a product.
pub open spec fn norm2(z: Point) -> int {
    z.re * z.re + z.im * z.im
}

/// Whether an iterate lies outside the escape radius.
pub open spec fn escaped(z: Point) -> bool {
    norm2(z) > ESCAPE_NORM2
}

/// Rescales a product back to fixed point, rounding toward zero.
pub open spec fn rescale(x: int) -> int {
    if x >= 0 {
        x / (ONE as int)
    } else {
        -((-x) / (ONE as int))
    }
}

/// One escape-time step `z * z + c`.
pub open spec fn step_spec(z: Point, c: Point) -> Point {
    Point {
        re: (rescale(z.re * z.re - z.im * z.im) + c.re) as i64,
        im: (rescale(2 * (z.re * z.im)) + c.im) as i64,
    }
}

proof fn lemma_rescale_bound(x: int, k: int)
    requires
        k >= 0,
        -k * (ONE as int) <= x <= k * (ONE as int),
    ensures
        -k <= rescale(x) <= k,
{
    let d = ONE as int;
    if x >= 0 {
        assert(x / d <= k) by (nonlinear_arith)
            requires x <= k * d, d > 0, x >= 0;
        assert(x / d >= 0) by (nonlinear_arith)
            requires d > 0, x >= 0;
    } else {
        assert((-x) / d <= k) by (nonlinear_arith)
            requires -x <= k * d, d > 0, -x >= 0;
        assert((-x) / d >= 0) by (nonlinear_arith)
            requires d > 0, -x >= 0;
    }
}

proof fn lemma_mul_bound(a: int, b: int, m: int)
    requires
        -m <= a <= m,
        -m <= b <= m,
    ensures
        -(m * m) <= a * b <= m * m,
{
    assert(-(m * m) <= a * b <= m * m) by (nonlinear_arith)
        requires -m <= a <= m, -m <= b <= m;
}

/// A point inside the escape radius has components below `2^53` (32.0).
pub(crate) proof fn lemma_inside_components(z: Point)
    requires
        norm2(z) <= ESCAPE_NORM2,
    ensures
        -0x20000000000000 <= z.re <= 0x20000000000000,
        -0x20000000000000 <= z.im <= 0x20000000000000,
{
    let a = z.re as int;
    let b = z.im as int;
    assert(a * a >= 0 && b * b >= 0) by (nonlinear_arith);
    assert(-0x20000000000000 <= a <= 0x20000000000000) by (nonlinear_arith)
        requires a * a <= 79228162514264337593543950336000int;
    assert(-0x20000000000000 <= b <= 0x20000000000000) by (nonlinear_arith)
        requires b * b <= 79228162514264337593543950336000int;
}

/// Squared norm of an iterate.
pub fn norm2_exec(z: Point) -> (r: i128)
    requires
        iter_ok(z),
    ensures
        r == norm2(z),
{
    let a = z.re as i128;
    let b = z.im as i128;
    assert(a * a <= 0x1000000000000000000000000000000 && b * b <= 0x1000000000000000000000000000000
        && a * a >= 0 && b * b >= 0) by (nonlinear_arith)
        requires -0x1000000000000000 <= a <= 0x1000000000000000, -0x1000000000000000 <= b <= 0x1000000000000000;
    a * a + b * b
}

fn rescale_exec(x: i128) -> (r: i128)
    requires
        x > i128::MIN,
    ensures
        r == rescale(x as int),
{
    if x >= 0 {
        x / (ONE as i128)
    } else {
        -((-x) / (ONE as i128))
    }
}

/// One escape-time step, for an iterate still inside the escape radius.
pub fn step_point(z: Point, c: Point) -> (r: Point)
    requires
        norm2(z) <= ESCAPE_NORM2,
        coord_ok(c),
    ensures
        r == step_spec(z, c),
        iter_ok(r),
{
    proof {
        lemma_inside_components(z);
    }
    let a = z.re as i128;
    let b = z.im as i128;
    proof {
        lemma_mul_bound(a as int, a as int, 0x20000000000000);
        lemma_mul_bound(b as int, b as int, 0x20000000000000);
        lemma_mul_bound(a as int, b as int, 0x20000000000000);
        assert(a * a >= 0 && b * b >= 0) by (nonlinear_arith);
    }
    let re2 = rescale_exec(a * a - b * b);
    let im2 = rescale_exec(2 * (a * b));
    proof {
        lemma_rescale_bound(a * a - b * b, 0x800000000000000);
        lemma_rescale_bound(2 * (a * b), 0x800000000000000);
    }
    Point { re: (re2 + c.re as i128) as i64, im: (im2 + c.im as i128) as i64 }
}

} // verus!
