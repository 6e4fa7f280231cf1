//! Fixed-point scalar arithmetic.
//!
//! A scalar is an `i64` whose mathematical value is the stored integer
//! divided by [`SCALE`]. Multiplication and division therefore rescale
//! their results, truncating toward zero, and the square root of a
//! scalar is the integer square root of the rescaled magnitude.

use vstd::prelude::*;

verus! {

/// Number of fixed-point units per whole unit.
pub const SCALE: i64 = 1000;

/// `r` is the integer square root of `n`.
pub open spec fn is_sqrt(n: nat, r: nat) -> bool {
    r * r <= n < (r + 1) * (r + 1)
}

/// The integer square root: the unique `r` with `r * r <= n < (r + 1) * (r + 1)`.
pub closed spec fn sqrt_nat(n: nat) -> nat {
    choose|r: nat| is_sqrt(n, r)
}

/// Every natural number has an integer square root.
pub proof fn lemma_sqrt_exists(n: nat)
    ensures
        is_sqrt(n, sqrt_nat(n)),
    decreases n,
{
    if n == 0 {
        assert(is_sqrt(0, 0)) by (nonlinear_arith);
        assert(sqrt_nat(0) == choose|r: nat| is_sqrt(0, r));
    } else {
        lemma_sqrt_exists((n - 1) as nat);
        let r = sqrt_nat((n - 1) as nat);
        if n < (r + 1) * (r + 1) {
            assert(is_sqrt(n, r));
        } else {
            assert(n == (r + 1) * (r + 1));
            assert(is_sqrt(n, (r + 1) as nat)) by (nonlinear_arith)
                requires
                    n == (r + 1) * (r + 1),
            ;
        }
    }
}

/// The integer square root is unique.
pub proof fn lemma_sqrt_unique(n: nat, r: nat)
    requires
        is_sqrt(n, r),
    ensures
        r == sqrt_nat(n),
{
    lemma_sqrt_exists(n);
    let q = sqrt_nat(n);
    if r < q {
        assert((r + 1) * (r + 1) <= q * q) by (nonlinear_arith)
            requires
                r + 1 <= q,
        ;
    }
    if q < r {
        assert((q + 1) * (q + 1) <= r * r) by (nonlinear_arith)
            requires
                q + 1 <= r,
        ;
    }
}

/// The integer square root is monotone.
pub proof fn lemma_sqrt_monotone(a: nat, b: nat)
    requires
        a <= b,
    ensures
        sqrt_nat(a) <= sqrt_nat(b),
{
    lemma_sqrt_exists(a);
    lemma_sqrt_exists(b);
    let ra = sqrt_nat(a);
    let rb = sqrt_nat(b);
    if rb < ra {
        assert((rb + 1) * (rb + 1) <= ra * ra) by (nonlinear_arith)
            requires
                rb + 1 <= ra,
        ;
    }
}

/// The integer square root of a perfect square.
pub proof fn lemma_sqrt_square(r: nat)
    ensures
        sqrt_nat(r * r) == r,
{
    assert(is_sqrt(r * r, r)) by (nonlinear_arith);
    lemma_sqrt_unique(r * r, r);
}

/// Integer division truncating toward zero (the divisor is positive at
/// every use site).
pub open spec fn div_trunc(a: int, b: int) -> int {
    if a >= 0 {
        a / b
    } else {
        -((-a) / b)
    }
}

/// A truncating quotient is bounded whenever the dividend is.
pub proof fn lemma_div_trunc_le(a: int, b: int, c: int)
    requires
        b > 0,
        c >= 0,
        -c * b <= a <= c * b,
    ensures
        -c <= div_trunc(a, b) <= c,
{
    if a >= 0 {
        assert(a / b <= c) by (nonlinear_arith)
            requires
                b > 0 && c >= 0 && 0 <= a <= c * b,
        ;
        assert(a / b >= 0) by (nonlinear_arith)
            requires
                b > 0 && a >= 0,
        ;
    } else {
        assert((-c) * b == -(c * b)) by (nonlinear_arith);
        assert((-a) / b <= c) by (nonlinear_arith)
            requires
                b > 0 && c >= 0 && 0 <= -a <= c * b,
        ;
        assert((-a) / b >= 0) by (nonlinear_arith)
            requires
                b > 0 && -a >= 0,
        ;
    }
}

/// Truncating division never grows the magnitude beyond the true quotient:
/// `|div_trunc(a, b)| * b <= |a|`.
pub proof fn lemma_div_trunc_mul_le(a: int, b: int)
    requires
        b > 0,
    ensures
        a >= 0 ==> 0 <= div_trunc(a, b) * b <= a,
        a < 0 ==> a <= div_trunc(a, b) * b <= 0,
{
    if a >= 0 {
        assert(0 <= (a / b) * b <= a) by (nonlinear_arith)
            requires
                b > 0 && a >= 0,
        ;
    } else {
        assert(0 <= ((-a) / b) * b <= -a) by (nonlinear_arith)
            requires
                b > 0 && -a >= 0,
        ;
        assert((-((-a) / b)) * b == -(((-a) / b) * b)) by (nonlinear_arith);
    }
}

/// Truncating division misses the true quotient by less than one:
/// `|a - div_trunc(a, b) * b| < b`.
pub proof fn lemma_div_trunc_close(a: int, b: int)
    requires
        b > 0,
    ensures
        a - b < div_trunc(a, b) * b <= a || a <= div_trunc(a, b) * b < a + b,
        a >= 0 ==> a - b < div_trunc(a, b) * b <= a,
        a < 0 ==> a <= div_trunc(a, b) * b < a + b,
{
    if a >= 0 {
        assert(a - b < (a / b) * b <= a) by (nonlinear_arith)
            requires
                b > 0 && a >= 0,
        ;
    } else {
        assert((-a) - b < ((-a) / b) * b <= -a) by (nonlinear_arith)
            requires
                b > 0 && -a >= 0,
        ;
        assert((-((-a) / b)) * b == -(((-a) / b) * b)) by (nonlinear_arith);
    }
}

/// Truncating division by a positive divisor is monotone on non-negative
/// dividends.
pub proof fn lemma_div_trunc_mono_nonneg(a1: int, a2: int, b: int)
    requires
        b > 0,
        0 <= a1 <= a2,
    ensures
        0 <= div_trunc(a1, b) <= div_trunc(a2, b),
{
    assert(0 <= a1 / b <= a2 / b) by (nonlinear_arith)
        requires
            b > 0 && 0 <= a1 <= a2,
    ;
}

/// The product of two scalars, rescaled and truncated toward zero.
pub open spec fn fx_mul_spec(a: int, b: int) -> int {
    div_trunc(a * b, SCALE as int)
}

/// Fixed-point multiplication.
pub fn fx_mul(a: i64, b: i64) -> (r: i64)
    requires
        -(i64::MAX as int) * (SCALE as int) <= (a as int) * (b as int) <= (i64::MAX as int) * (
        SCALE as int),
    ensures
        r == fx_mul_spec(a as int, b as int),
{
    proof {
        assert((a as int) * (b as int) < 0x1_0000_0000_0000_0000_0000_0000_0000_0000int / 2)
            by (nonlinear_arith)
            requires
                -0x8000_0000_0000_0000 <= a <= 0x7fff_ffff_ffff_ffff
                    && -0x8000_0000_0000_0000 <= b <= 0x7fff_ffff_ffff_ffff,
        ;
        assert(-(0x1_0000_0000_0000_0000_0000_0000_0000_0000int / 2) < (a as int) * (b as int))
            by (nonlinear_arith)
            requires
                -0x8000_0000_0000_0000 <= a <= 0x7fff_ffff_ffff_ffff
                    && -0x8000_0000_0000_0000 <= b <= 0x7fff_ffff_ffff_ffff,
        ;
    }
    let p: i128 = (a as i128) * (b as i128);
    proof {
        lemma_div_trunc_le(p as int, SCALE as int, i64::MAX as int);
    }
    if p >= 0 {
        let q: u128 = (p as u128) / (SCALE as u128);
        q as i64
    } else {
        let q: u128 = ((-p) as u128) / (SCALE as u128);
        -(q as i64)
    }
}

/// The quotient of two scalars, rescaled and truncated toward zero.
pub open spec fn fx_div_spec(a: int, b: int) -> int {
    div_trunc(a * (SCALE as int), b)
}

/// Fixed-point division by a positive scalar.
pub fn fx_div(a: i64, b: i64) -> (r: i64)
    requires
        b > 0,
        -(i64::MAX as int) * (b as int) <= (a as int) * (SCALE as int) <= (i64::MAX as int) * (
        b as int),
    ensures
        r == fx_div_spec(a as int, b as int),
{
    let p: i128 = (a as i128) * (SCALE as i128);
    proof {
        lemma_div_trunc_le(p as int, b as int, i64::MAX as int);
    }
    if p >= 0 {
        let q: u128 = (p as u128) / (b as u128);
        q as i64
    } else {
        let q: u128 = ((-p) as u128) / (b as u128);
        -(q as i64)
    }
}

/// The square root of a non-negative scalar: the value stored for
/// `sqrt(a / SCALE)` is `sqrt(a * SCALE)`.
pub open spec fn fx_sqrt_spec(a: int) -> int {
    sqrt_nat((a * (SCALE as int)) as nat) as int
}

/// Fixed-point square root of a non-negative scalar.
pub fn fx_sqrt(a: i64) -> (r: i64)
    requires
        a >= 0,
    ensures
        r == fx_sqrt_spec(a as int),
        r >= 0,
{
    proof {
        assert((a as int) * (SCALE as int) <= 0x7fff_ffff_ffff_ffffint * 1000)
            by (nonlinear_arith)
            requires
                0 <= a <= 0x7fff_ffff_ffff_ffff && SCALE == 1000,
        ;
    }
    let n: u128 = (a as u128) * (SCALE as u128);
    let r = isqrt(n);
    proof {
        lemma_sqrt_exists(n as nat);
        let q = sqrt_nat(n as nat);
        assert(q * q <= n as nat);
        assert((a as int) * (SCALE as int) <= 0x7fff_ffff_ffff_ffffint * 1000)
            by (nonlinear_arith)
            requires
                0 <= a <= 0x7fff_ffff_ffff_ffff && SCALE == 1000,
        ;
        if q >= 0x8000_0000_0000_0000 {
            assert(q * q >= 0x8000_0000_0000_0000int * 0x8000_0000_0000_0000int)
                by (nonlinear_arith)
                requires
                    q >= 0x8000_0000_0000_0000,
            ;
            assert(false);
        }
    }
    r as i64
}

/// Integer square root by bisection.
pub fn isqrt(n: u128) -> (r: u64)
    ensures
        r == sqrt_nat(n as nat),
{
    let mut lo: u128 = 0;
    let mut hi: u128 = 0x1_0000_0000_0000_0000;
    while lo + 1 < hi
        invariant
            lo < hi <= 0x1_0000_0000_0000_0000,
            (lo * lo) as nat <= n as nat,
            (n as nat) < (hi * hi) as nat,
        decreases hi - lo,
    {
        let mid = lo + (hi - lo) / 2;
        proof {
            assert(mid < hi);
            assert(mid * mid < 0x1_0000_0000_0000_0000u128 * 0x1_0000_0000_0000_0000u128)
                by (nonlinear_arith)
                requires
                    0 <= mid < 0x1_0000_0000_0000_0000u128,
            ;
        }
        if mid * mid <= n {
            lo = mid;
        } else {
            hi = mid;
        }
    }
    proof {
        assert(is_sqrt(n as nat, lo as nat));
        lemma_sqrt_unique(n as nat, lo as nat);
    }
    lo as u64
}

} // verus!
