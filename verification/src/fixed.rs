//! Saturating fixed-point scalars.
//!
//! A scalar is an `i64` that stands for the rational number `raw / 2^32`.
//! Every operation computes the exact result over the integers, rounds it
//! down to the next representable value and clamps it to the symmetric range
//! `[-FX_MAX, FX_MAX]`, which spans the numbers between `-2^30` and `2^30`.
//! The two ends of that range, and whatever lies beyond them, play the part
//! of the infinities: such a value is not finite, and an operation on a
//! value that is not finite gives a value that is not finite. So whatever
//! is computed from these operations is either right, up to the rounding of
//! each step, or not finite. The range leaves one bit of the `i64` unused,
//! so that the difference of two finite scalars is always an exact `i64`.

use vstd::prelude::*;
use vstd::arithmetic::div_mod::lemma_fundamental_div_mod;
use vstd::arithmetic::div_mod::lemma_fundamental_div_mod_converse;

verus! {

/// The scalar 1.0.
pub const ONE: i64 = 0x1_0000_0000;

/// The scalar 0.5.
pub const HALF: i64 = 0x8000_0000;

/// The largest magnitude a scalar can take; results saturate here.
pub const FX_MAX: i64 = 0x3fff_ffff_ffff_ffff;

/// Clamps an exact integer result to the scalar range.
pub open spec fn sat(x: int) -> i64 {
    if x >= FX_MAX {
        FX_MAX
    } else if x <= -FX_MAX {
        (-FX_MAX) as i64
    } else {
        x as i64
    }
}

/// A scalar is finite when no saturation can have produced it.
pub open spec fn fx_finite(a: i64) -> bool {
    -FX_MAX < a < FX_MAX
}

/// Quotient rounded towards negative infinity, for any non-zero divisor.
pub open spec fn floor_div(n: int, d: int) -> int {
    if d > 0 {
        n / d
    } else {
        (-n) / (-d)
    }
}

/// The value that is not finite and has the sign of `x`.
pub open spec fn beyond(x: int) -> i64 {
    if x >= 0 {
        FX_MAX
    } else {
        (-FX_MAX) as i64
    }
}

/// The scalar for an exact result `x`: saturated where the operands were
/// finite, and not finite where one of them was not.
pub open spec fn settle(finite: bool, x: int) -> i64 {
    if finite {
        sat(x)
    } else {
        beyond(x)
    }
}

/// `a + b`, saturated.
pub open spec fn fx_add_spec(a: i64, b: i64) -> i64 {
    settle(fx_finite(a) && fx_finite(b), a + b)
}

/// `a - b`, saturated.
pub open spec fn fx_sub_spec(a: i64, b: i64) -> i64 {
    settle(fx_finite(a) && fx_finite(b), a - b)
}

/// `a * b`, rounded down and saturated.
pub open spec fn fx_mul_spec(a: i64, b: i64) -> i64 {
    settle(fx_finite(a) && fx_finite(b), (a * b) / (ONE as int))
}

/// `a / b`, rounded down and saturated; meaningless for `b == 0`.
pub open spec fn fx_div_spec(a: i64, b: i64) -> i64 {
    settle(fx_finite(a) && fx_finite(b), floor_div(a * ONE, b as int))
}

/// The whole number of units nearest to `t`, halves rounded away from
/// zero, before any saturation.
pub open spec fn round_to_whole(t: int) -> int {
    if t >= 0 {
        ((t + HALF) / (ONE as int)) * ONE
    } else {
        -(((HALF - t) / (ONE as int)) * ONE)
    }
}

/// Nearest whole scalar, halves rounded away from zero.
pub open spec fn fx_round_spec(a: i64) -> i64 {
    settle(fx_finite(a), round_to_whole(a as int))
}

/// The whole scalar that stands for pixel index `n`.
pub open spec fn fx_from_int_spec(n: int) -> i64 {
    sat(n * ONE)
}

/// `r` is the integer square root of `n`.
pub open spec fn is_isqrt(n: int, r: int) -> bool {
    0 <= r && r * r <= n < (r + 1) * (r + 1)
}

/// The integer square root: the largest `r` with `r * r <= n`.
pub open spec fn isqrt(n: int) -> int {
    choose|r: int| is_isqrt(n, r)
}

proof fn lemma_isqrt_exists(n: int) -> (r: int)
    requires
        0 <= n,
    ensures
        is_isqrt(n, r),
    decreases n,
{
    if n == 0 {
        assert(is_isqrt(0, 0)) by (nonlinear_arith);
        0
    } else {
        let s = lemma_isqrt_exists(n - 1);
        let t = s + 1;
        if t * t <= n {
            assert(is_isqrt(n, t)) by (nonlinear_arith)
                requires
                    0 <= s,
                    t == s + 1,
                    t * t <= n,
                    n - 1 < (s + 1) * (s + 1),
            ;
            t
        } else {
            assert(is_isqrt(n, s)) by (nonlinear_arith)
                requires
                    0 <= s,
                    t == s + 1,
                    t * t > n,
                    s * s <= n - 1,
            ;
            s
        }
    }
}

proof fn lemma_isqrt_unique(n: int, r: int, s: int)
    requires
        is_isqrt(n, r),
        is_isqrt(n, s),
    ensures
        r == s,
{
    if r < s {
        assert((r + 1) * (r + 1) <= s * s) by (nonlinear_arith)
            requires
                0 <= r,
                r + 1 <= s,
        ;
    } else if s < r {
        assert((s + 1) * (s + 1) <= r * r) by (nonlinear_arith)
            requires
                0 <= s,
                s + 1 <= r,
        ;
    }
}

/// `isqrt(n)` is characterised by `r * r <= n < (r + 1) * (r + 1)`.
pub proof fn lemma_isqrt(n: int, r: int)
    requires
        0 <= n,
    ensures
        is_isqrt(n, isqrt(n)),
        is_isqrt(n, r) ==> r == isqrt(n),
{
    let w = lemma_isqrt_exists(n);
    if is_isqrt(n, r) {
        lemma_isqrt_unique(n, r, isqrt(n));
    }
}

proof fn lemma_product_range(a: i64, b: i64)
    ensures
        -0x4000_0000_0000_0000_0000_0000_0000_0000 <= a * b
            <= 0x4000_0000_0000_0000_0000_0000_0000_0000,
{
    assert(-0x4000_0000_0000_0000_0000_0000_0000_0000 <= a * b
        <= 0x4000_0000_0000_0000_0000_0000_0000_0000) by (nonlinear_arith)
        requires
            -0x8000_0000_0000_0000 <= a <= 0x8000_0000_0000_0000,
            -0x8000_0000_0000_0000 <= b <= 0x8000_0000_0000_0000,
    ;
}

/// The floor of a negative quotient, from the quotient and remainder of
/// the magnitude.
proof fn lemma_floor_of_negative(n: int, d: int)
    requires
        d > 0,
        n < 0,
    ensures
        n / d == (if (-n) % d == 0 {
            -((-n) / d)
        } else {
            -((-n) / d) - 1
        }),
{
    let t = (-n) / d;
    let r = (-n) % d;
    lemma_fundamental_div_mod(-n, d);
    if r == 0 {
        assert(n == (-t) * d + 0) by (nonlinear_arith)
            requires
                -n == d * t + r,
                r == 0,
        ;
        lemma_fundamental_div_mod_converse(n, d, -t, 0);
    } else {
        assert(n == (-t - 1) * d + (d - r)) by (nonlinear_arith)
            requires
                -n == d * t + r,
        ;
        lemma_fundamental_div_mod_converse(n, d, -t - 1, d - r);
    }
}

/// Clamps an exact result to the scalar range.
pub(crate) fn saturate(x: i128) -> (r: i64)
    ensures
        r == sat(x as int),
{
    if x >= FX_MAX as i128 {
        FX_MAX
    } else if x <= -(FX_MAX as i128) {
        -FX_MAX
    } else {
        x as i64
    }
}

/// The scalar for an exact result of operands that were all finite, or not.
fn settled(finite: bool, x: i128) -> (r: i64)
    ensures
        r == settle(finite, x as int),
{
    if finite {
        saturate(x)
    } else if x >= 0 {
        FX_MAX
    } else {
        -FX_MAX
    }
}

/// Floor of `n / d` for a positive divisor.
pub(crate) fn floor_quotient(n: i128, d: i128) -> (q: i128)
    requires
        d > 0,
        -0x7fff_ffff_ffff_ffff_ffff_ffff_ffff_ffff <= n,
    ensures
        q == n as int / d as int,
{
    if n >= 0 {
        n / d
    } else {
        proof {
            lemma_floor_of_negative(n as int, d as int);
        }
        let t: i128 = (-n) / d;
        if (-n) % d == 0 {
            -t
        } else {
            -t - 1
        }
    }
}

/// Whether `a` lies strictly inside the saturation bounds.
pub fn fx_is_finite(a: i64) -> (r: bool)
    ensures
        r == fx_finite(a),
{
    -FX_MAX < a && a < FX_MAX
}

/// Sum of two scalars.
pub fn fx_add(a: i64, b: i64) -> (r: i64)
    ensures
        r == fx_add_spec(a, b),
{
    settled(fx_is_finite(a) && fx_is_finite(b), a as i128 + b as i128)
}

/// Difference of two scalars.
pub fn fx_sub(a: i64, b: i64) -> (r: i64)
    ensures
        r == fx_sub_spec(a, b),
{
    settled(fx_is_finite(a) && fx_is_finite(b), a as i128 - b as i128)
}

/// Product of two scalars, rounded down.
pub fn fx_mul(a: i64, b: i64) -> (r: i64)
    ensures
        r == fx_mul_spec(a, b),
{
    proof {
        lemma_product_range(a, b);
    }
    let p: i128 = (a as i128) * (b as i128);
    settled(fx_is_finite(a) && fx_is_finite(b), floor_quotient(p, ONE as i128))
}

/// Quotient of two scalars, rounded down.
pub fn fx_div(a: i64, b: i64) -> (r: i64)
    requires
        b != 0,
    ensures
        r == fx_div_spec(a, b),
{
    assert(a * ONE == a * 0x1_0000_0000);
    let n: i128 = (a as i128) * (ONE as i128);
    let finite: bool = fx_is_finite(a) && fx_is_finite(b);
    if b > 0 {
        settled(finite, floor_quotient(n, b as i128))
    } else {
        settled(finite, floor_quotient(-n, -(b as i128)))
    }
}

/// Nearest whole scalar, halves rounded away from zero.
pub fn fx_round(a: i64) -> (r: i64)
    ensures
        r == fx_round_spec(a),
{
    settled(fx_is_finite(a), round_wide(a as i128))
}

/// The whole number of units nearest to `t`, halves rounded away from zero.
pub(crate) fn round_wide(t: i128) -> (r: i128)
    requires
        -0x4000_0000_0000_0000_0000_0000_0000_0000 <= t
            <= 0x4000_0000_0000_0000_0000_0000_0000_0000,
    ensures
        r == round_to_whole(t as int),
{
    if t >= 0 {
        let q: i128 = (t + HALF as i128) / (ONE as i128);
        q * (ONE as i128)
    } else {
        let q: i128 = (HALF as i128 - t) / (ONE as i128);
        -(q * (ONE as i128))
    }
}

/// `a * e - b * d`, exactly.
pub(crate) fn cross_term(a: i128, e: i128, b: i128, d: i128) -> (r: i128)
    requires
        -0x7fff_ffff_ffff_ffff <= a <= 0x7fff_ffff_ffff_ffff,
        -0x7fff_ffff_ffff_ffff <= e <= 0x7fff_ffff_ffff_ffff,
        -0x7fff_ffff_ffff_ffff <= b <= 0x7fff_ffff_ffff_ffff,
        -0x7fff_ffff_ffff_ffff <= d <= 0x7fff_ffff_ffff_ffff,
    ensures
        r == a * e - b * d,
        -0x7fff_ffff_ffff_ffff_ffff_ffff_ffff_ffff <= r <= 0x7fff_ffff_ffff_ffff_ffff_ffff_ffff_ffff,
{
    assert(-0x3fff_ffff_ffff_ffff_0000_0000_0000_0001 <= a * e
        <= 0x3fff_ffff_ffff_ffff_0000_0000_0000_0001) by (nonlinear_arith)
        requires
            -0x7fff_ffff_ffff_ffff <= a <= 0x7fff_ffff_ffff_ffff,
            -0x7fff_ffff_ffff_ffff <= e <= 0x7fff_ffff_ffff_ffff,
    ;
    assert(-0x3fff_ffff_ffff_ffff_0000_0000_0000_0001 <= b * d
        <= 0x3fff_ffff_ffff_ffff_0000_0000_0000_0001) by (nonlinear_arith)
        requires
            -0x7fff_ffff_ffff_ffff <= b <= 0x7fff_ffff_ffff_ffff,
            -0x7fff_ffff_ffff_ffff <= d <= 0x7fff_ffff_ffff_ffff,
    ;
    a * e - b * d
}

/// The whole scalar that stands for the integer `n`.
pub fn fx_from_int(n: i64) -> (r: i64)
    ensures
        r == fx_from_int_spec(n as int),
{
    assert(n * ONE == n * 0x1_0000_0000);
    saturate((n as i128) * (ONE as i128))
}

/// Integer square root by bisection.
pub fn isqrt_u128(n: u128) -> (r: u128)
    ensures
        r == isqrt(n as int),
        is_isqrt(n as int, r as int),
{
    let mut lo: u128 = 0;
    let mut hi: u128 = 0x1_0000_0000_0000_0000;
    assert(0x1_0000_0000_0000_0000 * 0x1_0000_0000_0000_0000 > n as int) by (nonlinear_arith)
        requires
            n <= 0xffff_ffff_ffff_ffff_ffff_ffff_ffff_ffff,
    ;
    while hi - lo > 1
        invariant
            lo < hi <= 0x1_0000_0000_0000_0000,
            lo * lo <= n < hi * hi,
        decreases hi - lo,
    {
        let mid: u128 = lo + (hi - lo) / 2;
        assert(mid * mid <= 0xffff_ffff_ffff_ffff * 0xffff_ffff_ffff_ffff) by (nonlinear_arith)
            requires
                0 <= mid <= 0xffff_ffff_ffff_ffff,
        ;
        if mid * mid <= n {
            lo = mid;
        } else {
            hi = mid;
        }
    }
    proof {
        lemma_isqrt(n as int, lo as int);
    }
    lo
}

} // verus!
