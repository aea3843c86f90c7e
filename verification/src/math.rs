//! Small integer helpers shared by the evaluation code.

use vstd::prelude::*;

verus! {

/// `v` limited to the range `lo..=hi`.
pub open spec fn clamp(v: int, lo: int, hi: int) -> int {
    if v < lo {
        lo
    } else if v > hi {
        hi
    } else {
        v
    }
}

/// Absolute value.
pub open spec fn abs(v: int) -> int {
    if v < 0 {
        -v
    } else {
        v
    }
}

/// The smaller of two integers.
pub open spec fn min(a: int, b: int) -> int {
    if a <= b {
        a
    } else {
        b
    }
}

/// The larger of two integers.
pub open spec fn max(a: int, b: int) -> int {
    if a >= b {
        a
    } else {
        b
    }
}

/// Division that rounds toward zero, as machine division does. (The quotient
/// of a non-negative integer already rounds that way for either sign of `b`.)
pub open spec fn div_toward_zero(a: int, b: int) -> int {
    if a >= 0 {
        a / b
    } else {
        -((-a) / b)
    }
}

/// The 16-bit two's complement value congruent to `x`.
pub open spec fn wrap16(x: int) -> int {
    let r = x % 0x1_0000;
    if r >= 0x8000 {
        r - 0x1_0000
    } else {
        r
    }
}

/// The 32-bit two's complement value congruent to `x`.
pub open spec fn wrap32(x: int) -> int {
    let r = x % 0x1_0000_0000;
    if r >= 0x8000_0000 {
        r - 0x1_0000_0000
    } else {
        r
    }
}

/// Wrapping an intermediate 16-bit result does not change the final one.
pub proof fn lemma_wrap16_step(x: int, y: int)
    ensures
        wrap16(wrap16(x) + y) == wrap16(x + y),
        wrap16(wrap16(x) - y) == wrap16(x - y),
{
}

/// Wrapping an intermediate 32-bit result does not change the final one.
pub proof fn lemma_wrap32_step(x: int, y: int)
    ensures
        wrap32(wrap32(x) + y) == wrap32(x + y),
        wrap32(wrap32(x) - y) == wrap32(x - y),
{
}

/// Wrapping addition and subtraction on `i16`, as congruences.
pub proof fn lemma_wrapping_i16(a: i16, b: i16)
    ensures
        a.wrapping_add(b) == wrap16(a + b),
        a.wrapping_sub(b) == wrap16(a - b),
        a == wrap16(a as int),
{
}

/// Wrapping addition and subtraction on `i32`, as congruences.
pub proof fn lemma_wrapping_i32(a: i32, b: i32)
    ensures
        a.wrapping_add(b) == wrap32(a + b),
        a.wrapping_sub(b) == wrap32(a - b),
        a == wrap32(a as int),
{
}

pub fn clamp_i32(v: i32, lo: i32, hi: i32) -> (r: i32)
    requires
        lo <= hi,
    ensures
        r == clamp(v as int, lo as int, hi as int),
{
    if v < lo {
        lo
    } else if v > hi {
        hi
    } else {
        v
    }
}

pub fn clamp_i64(v: i64, lo: i64, hi: i64) -> (r: i64)
    requires
        lo <= hi,
    ensures
        r == clamp(v as int, lo as int, hi as int),
{
    if v < lo {
        lo
    } else if v > hi {
        hi
    } else {
        v
    }
}

/// Absolute value; the one value without a positive counterpart is left out.
pub fn abs_i32(v: i32) -> (r: i32)
    requires
        v > i32::MIN,
    ensures
        r == abs(v as int),
{
    if v < 0 {
        -v
    } else {
        v
    }
}

/// Difference of two scores, kept inside the 16-bit range.
pub open spec fn saturating_sub_i16_spec(a: i16, b: i16) -> int {
    clamp(a - b, i16::MIN as int, i16::MAX as int)
}

pub fn saturating_sub_i16(a: i16, b: i16) -> (r: i16)
    ensures
        r == saturating_sub_i16_spec(a, b),
{
    let d: i32 = a as i32 - b as i32;
    clamp_i32(d, -32768, 32767) as i16
}

pub fn saturating_add_i16(a: i16, b: i16) -> (r: i16)
    ensures
        r == clamp(a + b, i16::MIN as int, i16::MAX as int),
{
    let d: i32 = a as i32 + b as i32;
    clamp_i32(d, -32768, 32767) as i16
}

/// Whether `q` is what is left of `n / d` without its fraction: it lies between
/// zero and the exact quotient, less than one away from it.
pub open spec fn is_quotient(n: int, d: int, q: int) -> bool {
    &&& n >= 0 ==> 0 <= q && d * q <= n < d * q + d
    &&& n <= 0 ==> q <= 0 && d * q - d < n <= d * q
}

/// Division toward zero gives the quotient without its fraction, and there is
/// only one such number.
#[verifier::rlimit(60)]
pub proof fn law_quotient(n: int, d: int, q: int)
    requires
        d > 0,
    ensures
        is_quotient(n, d, q) <==> q == div_toward_zero(n, d),
{
    let m = if n >= 0 {
        n
    } else {
        -n
    };
    let k = m / d;
    assert(0 <= k && d * k <= m < d * k + d) by (nonlinear_arith)
        requires
            k == m / d,
            m >= 0,
            d > 0,
    ;
    let p = if n >= 0 {
        q
    } else {
        -q
    };
    assert(d * (-q) == -(d * q)) by (nonlinear_arith);
    assert(d * (-k) == -(d * k)) by (nonlinear_arith);
    assert(0 <= p && d * p <= m < d * p + d ==> p == k) by (nonlinear_arith)
        requires
            0 <= k && d * k <= m < d * k + d,
            d > 0,
    ;
    if n == 0 {
        assert(d * k == 0 ==> k == 0) by (nonlinear_arith)
            requires
                d > 0,
        ;
        assert(q <= 0 && d * q > -d ==> q == 0) by (nonlinear_arith)
            requires
                d > 0,
        ;
        assert(k == 0) by (nonlinear_arith)
            requires
                0 <= k,
                d * k <= 0,
                d > 0,
        ;
    }
}

/// A clamped value is in range, and nothing in range is closer to the value.
pub proof fn law_clamp_is_nearest(v: int, lo: int, hi: int, other: int)
    requires
        lo <= other <= hi,
    ensures
        lo <= clamp(v, lo, hi) <= hi,
        abs(v - clamp(v, lo, hi)) <= abs(v - other),
        lo <= v <= hi ==> clamp(v, lo, hi) == v,
{
}

/// A wrapped value is the one number of its width that differs from the value
/// by a multiple of the width's size.
pub proof fn law_wrapped_is_congruent(x: int, k: int)
    ensures
        -0x8000 <= wrap16(x) < 0x8000,
        (x - wrap16(x)) % 0x1_0000 == 0,
        wrap16(x + k * 0x1_0000) == wrap16(x),
        -0x8000_0000 <= wrap32(x) < 0x8000_0000,
        (x - wrap32(x)) % 0x1_0000_0000 == 0,
        wrap32(x + k * 0x1_0000_0000) == wrap32(x),
        -0x8000 <= x < 0x8000 ==> wrap16(x) == x,
        -0x8000_0000 <= x < 0x8000_0000 ==> wrap32(x) == x,
{
}

} // verus!
