//! Fixed-point scalars and 2D vectors.
//!
//! A scalar stores `value * 2^64` in an `i128`. All arithmetic that the
//! simulation performs is expressed through two primitives with exact
//! integer contracts: truncating division (`div_tz`) and the floor square
//! root (`sqrt_i`).

use vstd::prelude::*;
use vstd::arithmetic::div_mod::lemma_div_by_multiple;
use vstd::arithmetic::div_mod::lemma_div_is_ordered;
use vstd::arithmetic::div_mod::lemma_div_pos_is_pos;
use vstd::arithmetic::div_mod::lemma_div_nonincreasing;

verus! {

/// Scale of a fixed-point scalar: raw = value * 2^64.
pub const SCALE: i128 = 0x1_0000_0000_0000_0000;

/// 2^32, the factor between a full-precision raw value and its narrowed form.
pub const HSCALE: i128 = 0x1_0000_0000;

/// 2^48, used when narrowing to 16 fractional bits.
pub const QSCALE: i128 = 0x1_0000_0000_0000;

/// Division truncating toward zero (the behaviour of `/` on machine integers),
/// defined over mathematical integers for a positive divisor.
pub open spec fn div_tz(a: int, b: int) -> int {
    if a >= 0 {
        a / b
    } else {
        -((-a) / b)
    }
}

/// Narrow a raw scalar from 2^64 scale to 2^32 scale.
pub open spec fn half_i(a: int) -> int {
    div_tz(a, HSCALE as int)
}

/// `r` is the floor of the square root of `x`.
pub open spec fn is_floor_sqrt(x: int, r: int) -> bool {
    0 <= r && r * r <= x && x < (r + 1) * (r + 1)
}

/// The floor square root of a nonnegative integer.
pub closed spec fn sqrt_i(x: int) -> int {
    choose|r: int| is_floor_sqrt(x, r)
}

proof fn lemma_sqrt_witness(x: int) -> (r: int)
    requires
        x >= 0,
    ensures
        is_floor_sqrt(x, r),
    decreases x,
{
    if x == 0 {
        0
    } else {
        let r0 = lemma_sqrt_witness(x - 1);
        if (r0 + 1) * (r0 + 1) <= x {
            assert(x == (r0 + 1) * (r0 + 1));
            assert((r0 + 1 + 1) * (r0 + 1 + 1) > (r0 + 1) * (r0 + 1)) by (nonlinear_arith)
                requires r0 >= 0;
            r0 + 1
        } else {
            r0
        }
    }
}

/// Two floor square roots of the same number are equal.
proof fn lemma_sqrt_unique(x: int, r1: int, r2: int)
    requires
        is_floor_sqrt(x, r1),
        is_floor_sqrt(x, r2),
    ensures
        r1 == r2,
{
    assert(r1 == r2) by (nonlinear_arith)
        requires
            0 <= r1 && r1 * r1 <= x && x < (r1 + 1) * (r1 + 1),
            0 <= r2 && r2 * r2 <= x && x < (r2 + 1) * (r2 + 1);
}

/// `sqrt_i(x)` is the unique floor square root of `x`.
pub proof fn lemma_sqrt_is(x: int, r: int)
    requires
        x >= 0,
        is_floor_sqrt(x, r),
    ensures
        sqrt_i(x) == r,
{
    assert(is_floor_sqrt(x, r));
    assert(exists|s: int| is_floor_sqrt(x, s));
    let s = choose|s: int| is_floor_sqrt(x, s);
    lemma_sqrt_unique(x, s, r);
}

/// The defining property of `sqrt_i`, for any nonnegative argument.
pub proof fn lemma_sqrt_def(x: int)
    requires
        x >= 0,
    ensures
        is_floor_sqrt(x, sqrt_i(x)),
{
    let w = lemma_sqrt_witness(x);
    lemma_sqrt_is(x, w);
}

/// If `x < s * s` then `sqrt_i(x) < s`.
pub proof fn lemma_sqrt_lt(x: int, s: int)
    requires
        0 <= x,
        0 <= s,
        x < s * s,
    ensures
        sqrt_i(x) < s,
{
    lemma_sqrt_def(x);
    let r = sqrt_i(x);
    assert(r < s) by (nonlinear_arith)
        requires
            0 <= r && r * r <= x,
            0 <= s,
            x < s * s;
}

/// If `s * s <= x` then `s <= sqrt_i(x)`.
pub proof fn lemma_sqrt_ge(x: int, s: int)
    requires
        0 <= s,
        s * s <= x,
    ensures
        s <= sqrt_i(x),
{
    lemma_sqrt_def(x);
    let r = sqrt_i(x);
    assert(s <= r) by (nonlinear_arith)
        requires
            0 <= r && x < (r + 1) * (r + 1),
            0 <= s,
            s * s <= x;
}

/// The square root of a perfect square.
pub proof fn lemma_sqrt_exact(k: int)
    requires
        k >= 0,
    ensures
        sqrt_i(k * k) == k,
{
    assert((k + 1) * (k + 1) > k * k) by (nonlinear_arith)
        requires k >= 0;
    lemma_sqrt_is(k * k, k);
}

/// Truncating division is odd in its numerator.
pub proof fn lemma_div_tz_odd(a: int, b: int)
    requires
        b >= 1,
    ensures
        div_tz(-a, b) == -div_tz(a, b),
{
    if a == 0 {
        vstd::arithmetic::div_mod::lemma_div_of0(b);
    } else if a > 0 {
        assert(div_tz(-a, b) == -((a) / b));
    } else {
        assert(div_tz(-a, b) == (-a) / b);
        assert(div_tz(a, b) == -((-a) / b));
    }
}

/// Dividing an exact multiple is exact.
pub proof fn lemma_div_tz_exact(a: int, b: int)
    requires
        b >= 1,
    ensures
        div_tz(a * b, b) == a,
{
    if a >= 0 {
        lemma_div_by_multiple(a, b);
        assert(a * b >= 0) by (nonlinear_arith)
            requires a >= 0, b >= 1;
    } else {
        lemma_div_by_multiple(-a, b);
        assert((-a) * b == -(a * b)) by (nonlinear_arith);
        assert(a * b <= 0) by (nonlinear_arith)
            requires a <= 0, b >= 1;
        if a * b == 0 {
            assert(a == 0) by (nonlinear_arith)
                requires a * b == 0, b >= 1;
        } else {
            assert(div_tz(a * b, b) == -((-(a * b)) / b));
        }
    }
}

/// A bound on the numerator gives a bound on the truncated quotient.
pub proof fn lemma_div_tz_bound(a: int, b: int, c: int)
    requires
        b >= 1,
        c >= 0,
        -(c * b) <= a <= c * b,
    ensures
        -c <= div_tz(a, b) <= c,
{
    lemma_div_by_multiple(c, b);
    if a >= 0 {
        lemma_div_is_ordered(a, c * b, b);
        lemma_div_pos_is_pos(a, b);
    } else {
        lemma_div_is_ordered(-a, c * b, b);
        lemma_div_pos_is_pos(-a, b);
    }
}

/// Truncated division of nonnegative values is monotone in the numerator.
pub proof fn lemma_div_tz_ordered(a1: int, a2: int, b: int)
    requires
        b >= 1,
        0 <= a1 <= a2,
    ensures
        0 <= div_tz(a1, b) <= div_tz(a2, b),
{
    lemma_div_is_ordered(a1, a2, b);
    lemma_div_pos_is_pos(a1, b);
}

/// The product of two nonnegative bounded values is bounded by the
/// product of the bounds.
pub proof fn lemma_mul_nn_bound(x: int, a: int, y: int, b: int)
    requires
        0 <= x <= a,
        0 <= y <= b,
    ensures
        0 <= x * y <= a * b,
{
    vstd::arithmetic::mul::lemma_mul_upper_bound(x, a, y, b);
    vstd::arithmetic::mul::lemma_mul_nonnegative(x, y);
}

/// Exec truncating division, with the semantics of `div_tz`.
pub fn div_i(a: i128, b: i128) -> (r: i128)
    requires
        b >= 1,
        a > i128::MIN,
    ensures
        r as int == div_tz(a as int, b as int),
{
    if a >= 0 {
        let q: u128 = (a as u128) / (b as u128);
        proof {
            lemma_div_nonincreasing(a as int, b as int);
            lemma_div_pos_is_pos(a as int, b as int);
        }
        q as i128
    } else {
        let n: i128 = -a;
        let q: u128 = (n as u128) / (b as u128);
        proof {
            lemma_div_nonincreasing(n as int, b as int);
            lemma_div_pos_is_pos(n as int, b as int);
        }
        -(q as i128)
    }
}

/// Exec floor square root over the full `u128` range.
pub fn isqrt_u(x: u128) -> (r: u128)
    ensures
        r as int == sqrt_i(x as int),
        is_floor_sqrt(x as int, r as int),
        r < 0x1_0000_0000_0000_0000,
{
    let mut lo: u128 = 0;
    let mut hi: u128 = 0x1_0000_0000_0000_0000;
    proof {
        assert((hi as int) * (hi as int) > x as int) by (nonlinear_arith)
            requires hi == 0x1_0000_0000_0000_0000u128, x <= u128::MAX;
    }
    while lo + 1 < hi
        invariant
            lo < hi <= 0x1_0000_0000_0000_0000,
            (lo as int) * (lo as int) <= x as int,
            (x as int) < (hi as int) * (hi as int),
        decreases hi - lo,
    {
        let mid: u128 = lo + (hi - lo) / 2;
        proof {
            assert((mid as int) * (mid as int) < u128::MAX) by (nonlinear_arith)
                requires mid < 0x1_0000_0000_0000_0000u128;
        }
        if mid * mid <= x {
            lo = mid;
        } else {
            hi = mid;
        }
    }
    proof {
        lemma_sqrt_is(x as int, lo as int);
    }
    lo
}

/// A fixed-point scalar: `raw` holds the value times 2^64.
#[derive(Clone, Copy, PartialEq, Eq, Structural, Debug)]
pub struct Fx {
    pub raw: i128,
}

impl Fx {
    /// The scalar zero.
    pub fn zero() -> (r: Fx)
        ensures
            r.raw == 0,
    {
        Fx { raw: 0 }
    }

    /// The scalar for a (not too large) integer.
    pub fn from_int(i: i128) -> (r: Fx)
        requires
            -0x1000_0000_0000_0000 <= i <= 0x1000_0000_0000_0000,
        ensures
            r.raw == i * SCALE,
    {
        Fx { raw: i * SCALE }
    }

    /// The scalar for `m / 1000`, truncated toward zero.
    pub fn from_milli(m: i128) -> (r: Fx)
        requires
            -0x1000_0000_0000_0000 <= m <= 0x1000_0000_0000_0000,
        ensures
            r.raw == div_tz(m * SCALE, 1000),
    {
        if m >= 0 {
            div_to_fx(m * SCALE, 1000)
        } else {
            div_to_fx(m * SCALE, 1000)
        }
    }

    /// The scalar for the ratio `n / d`, truncated toward zero.
    pub fn from_ratio(n: i128, d: i128) -> (r: Fx)
        requires
            d >= 1,
            -0x1000_0000_0000_0000 <= n <= 0x1000_0000_0000_0000,
        ensures
            r.raw == div_tz(n * SCALE, d as int),
    {
        div_to_fx(n * SCALE, d)
    }

    /// The value scaled by 1000 and truncated to an integer.
    pub fn to_milli(&self) -> (r: i128)
        requires
            -0x1_0000_0000_0000_0000_0000_0000_0000 <= self.raw
                <= 0x1_0000_0000_0000_0000_0000_0000_0000,
        ensures
            r as int == div_tz(self.raw * 1000, SCALE as int),
    {
        div_i(self.raw * 1000, SCALE)
    }
}

fn div_to_fx(a: i128, b: i128) -> (r: Fx)
    requires
        b >= 1,
        a > i128::MIN,
    ensures
        r.raw == div_tz(a as int, b as int),
{
    Fx { raw: div_i(a, b) }
}

/// A 2D vector of fixed-point scalars.
#[derive(Clone, Copy, PartialEq, Eq, Structural, Debug)]
pub struct Vec2 {
    pub x: Fx,
    pub y: Fx,
}

impl Vec2 {
    /// The zero vector.
    pub fn zero() -> (r: Vec2)
        ensures
            r.x.raw == 0,
            r.y.raw == 0,
    {
        Vec2 { x: Fx { raw: 0 }, y: Fx { raw: 0 } }
    }

    /// The vector with the given components.
    pub fn new(x: Fx, y: Fx) -> (r: Vec2)
        ensures
            r.x == x,
            r.y == y,
    {
        Vec2 { x, y }
    }
}

} // verus!
