//! Fixed-point scalar arithmetic.
//!
//! Every quantity in this crate (coordinates, colors, ray parameters) is a
//! fixed-point number: an `i64` value `q` stands for the rational `q / SCALE`.
//! All operations round toward zero, and every executable operation carries an
//! exact contract phrased with the spec functions below.

use vstd::prelude::*;
use vstd::arithmetic::div_mod::{lemma_div_is_ordered, lemma_div_pos_is_pos};

verus! {

/// One whole unit: the `i64` value `q` stands for the real number `q / SCALE`.
pub const SCALE: i64 = 65536;

/// Magnitude cap on the operands of the fixed-point product and quotient
/// (2^38); keeps every intermediate inside `i64` after the scale division.
pub const FMAX: i64 = 0x40_0000_0000;

/// Division rounding toward zero, defined for positive divisors.
pub open spec fn div_t(a: int, b: int) -> int {
    if a >= 0 {
        a / b
    } else {
        -((-a) / b)
    }
}

/// Fixed-point product: `a * b` brought back to scale, rounded toward zero.
pub open spec fn fmul_s(a: int, b: int) -> int {
    div_t(a * b, SCALE as int)
}

/// Fixed-point quotient (positive divisor), rounded toward zero.
pub open spec fn fdiv_s(a: int, b: int) -> int {
    div_t(a * (SCALE as int), b)
}

/// Floor of the square root of a natural number.
pub open spec fn sqrt_floor(n: nat) -> nat
    decreases n,
{
    if n == 0 {
        0
    } else {
        let r = sqrt_floor((n - 1) as nat);
        if (r + 1) * (r + 1) <= n {
            r + 1
        } else {
            r
        }
    }
}

/// Square root of a nonnegative fixed-point value, at the same scale.
pub open spec fn fsqrt_s(x: int) -> int {
    sqrt_floor((x * (SCALE as int)) as nat) as int
}

pub proof fn lemma_mul_bounds(a: int, b: int, ma: int, mb: int)
    by (nonlinear_arith)
    requires
        -ma <= a <= ma,
        -mb <= b <= mb,
        0 <= ma,
        0 <= mb,
    ensures
        -(ma * mb) <= a * b <= ma * mb,
{
}

pub proof fn lemma_div_t_bound(a: int, b: int, m: int)
    requires
        b > 0,
        -m <= a <= m,
        0 <= m,
    ensures
        -(m / b) <= div_t(a, b) <= m / b,
        -m <= div_t(a, b) <= m,
        a >= 0 ==> div_t(a, b) >= 0,
        a <= 0 ==> div_t(a, b) <= 0,
{
    if a >= 0 {
        lemma_div_is_ordered(a, m, b);
        lemma_div_pos_is_pos(a, b);
        lemma_div_is_ordered(0, m, b);
    } else {
        lemma_div_is_ordered(-a, m, b);
        lemma_div_pos_is_pos(-a, b);
        lemma_div_is_ordered(0, m, b);
    }
    assert(m * b >= m * 1) by (nonlinear_arith)
        requires b >= 1 && m >= 0;
    lemma_div_is_ordered(m, m * b, b);
    vstd::arithmetic::div_mod::lemma_div_multiples_vanish(m, b);
}

/// Division toward zero commutes with negation.
pub proof fn lemma_div_t_neg(x: int, b: int)
    requires
        b > 0,
    ensures
        div_t(-x, b) == -div_t(x, b),
{
}

/// Division toward zero, characterized by its remainder: the quotient
/// times the divisor lands within one divisor of the dividend, on the
/// dividend's side of zero.
pub proof fn lemma_div_t_rem(a: int, b: int)
    requires
        b > 0,
    ensures
        a >= 0 ==> a - b < b * div_t(a, b) <= a,
        a <= 0 ==> a <= b * div_t(a, b) < a + b,
{
    if a >= 0 {
        vstd::arithmetic::div_mod::lemma_fundamental_div_mod(a, b);
        vstd::arithmetic::div_mod::lemma_mod_bound(a, b);
    } else {
        vstd::arithmetic::div_mod::lemma_fundamental_div_mod(-a, b);
        vstd::arithmetic::div_mod::lemma_mod_bound(-a, b);
        assert(b * div_t(a, b) == -(b * ((-a) / b))) by (nonlinear_arith)
            requires div_t(a, b) == -((-a) / b);
    }
}

/// Magnitude bound on a fixed-point product from bounds on its operands.
pub proof fn lemma_fmul_s_bound(a: int, b: int, ma: int, mb: int)
    requires
        -ma <= a <= ma,
        -mb <= b <= mb,
        0 <= ma,
        0 <= mb,
    ensures
        -((ma * mb) / (SCALE as int)) <= fmul_s(a, b) <= (ma * mb) / (SCALE as int),
{
    lemma_mul_bounds(a, b, ma, mb);
    lemma_div_t_bound(a * b, SCALE as int, ma * mb);
}

/// `sqrt_floor(n)` is the floor of the square root: its square is at most
/// `n`, and the next square is above `n`.
pub proof fn lemma_sqrt_floor(n: nat)
    ensures
        sqrt_floor(n) * sqrt_floor(n) <= n,
        n < (sqrt_floor(n) + 1) * (sqrt_floor(n) + 1),
    decreases n,
{
    if n == 0 {
        assert(sqrt_floor(n) == 0);
        assert(n < (sqrt_floor(n) + 1) * (sqrt_floor(n) + 1)) by (nonlinear_arith)
            requires sqrt_floor(n) == 0 && n == 0;
    } else {
        lemma_sqrt_floor((n - 1) as nat);
        let r = sqrt_floor((n - 1) as nat);
        assert(r * r <= n - 1);
        assert(n - 1 < (r + 1) * (r + 1));
        if (r + 1) * (r + 1) <= n {
            assert(sqrt_floor(n) == r + 1);
            assert(sqrt_floor(n) * sqrt_floor(n) <= n) by (nonlinear_arith)
                requires (r + 1) * (r + 1) <= n && sqrt_floor(n) == r + 1;
            assert(n < (sqrt_floor(n) + 1) * (sqrt_floor(n) + 1)) by (nonlinear_arith)
                requires n - 1 < (r + 1) * (r + 1) && sqrt_floor(n) == r + 1 && n >= 1;
        } else {
            assert(sqrt_floor(n) == r);
            assert(sqrt_floor(n) * sqrt_floor(n) <= n) by (nonlinear_arith)
                requires r * r <= n - 1 && sqrt_floor(n) == r && n >= 1;
            assert(n < (sqrt_floor(n) + 1) * (sqrt_floor(n) + 1)) by (nonlinear_arith)
                requires n < (r + 1) * (r + 1) && sqrt_floor(n) == r;
        }
    }
}

/// The floor square root is the only natural number whose square brackets `n`.
pub proof fn lemma_sqrt_floor_unique(n: nat, r: nat)
    requires
        r * r <= n,
        n < (r + 1) * (r + 1),
    ensures
        r == sqrt_floor(n),
{
    lemma_sqrt_floor(n);
    let s = sqrt_floor(n);
    if r < s {
        assert((r + 1) * (r + 1) <= s * s) by (nonlinear_arith)
            requires r + 1 <= s;
        assert(false);
    }
    if s < r {
        assert((s + 1) * (s + 1) <= r * r) by (nonlinear_arith)
            requires s + 1 <= r;
        assert(false);
    }
}

/// The floor square root never exceeds its argument's square-root bound:
/// if `n <= m * m`, `sqrt_floor(n) <= m`.
pub proof fn lemma_sqrt_floor_le(n: nat, m: nat)
    requires
        n <= m * m,
    ensures
        sqrt_floor(n) <= m,
{
    lemma_sqrt_floor(n);
    let s = sqrt_floor(n);
    if m < s {
        assert(m * m < (m + 1) * (m + 1) && (m + 1) * (m + 1) <= s * s)
            by (nonlinear_arith)
            requires m + 1 <= s;
        assert(false);
    }
}

/// If `m * m <= n`, also `m <= sqrt_floor(n)`.
pub proof fn lemma_sqrt_floor_ge(n: nat, m: nat)
    requires
        m * m <= n,
    ensures
        m <= sqrt_floor(n),
{
    lemma_sqrt_floor(n);
    let s = sqrt_floor(n);
    if s < m {
        assert(m * m >= (s + 1) * (s + 1)) by (nonlinear_arith)
            requires s + 1 <= m;
        assert(false);
    }
}

pub(crate) fn wide_mul(a: i64, b: i64) -> (r: i128)
    ensures
        r == a * b,
{
    proof {
        lemma_mul_bounds(
            a as int,
            b as int,
            0x8000_0000_0000_0000,
            0x8000_0000_0000_0000,
        );
    }
    (a as i128) * (b as i128)
}

pub(crate) fn div_down(a: i128, b: i128) -> (r: i128)
    requires
        b > 0,
        a > i128::MIN,
    ensures
        r == div_t(a as int, b as int),
{
    if a >= 0 {
        let q = (a as u128) / (b as u128);
        proof {
            lemma_div_is_ordered(a as int, i128::MAX as int, b as int);
            lemma_div_pos_is_pos(a as int, b as int);
            assert((i128::MAX as int) * (b as int) >= (i128::MAX as int) * 1)
                by (nonlinear_arith)
                requires b >= 1;
            lemma_div_is_ordered(i128::MAX as int, (i128::MAX as int) * (b as int), b as int);
            vstd::arithmetic::div_mod::lemma_div_multiples_vanish(i128::MAX as int, b as int);
        }
        q as i128
    } else {
        let m = (-a) as u128;
        let q = m / (b as u128);
        proof {
            lemma_div_is_ordered(-a as int, i128::MAX as int, b as int);
            lemma_div_pos_is_pos(-a as int, b as int);
            assert((i128::MAX as int) * (b as int) >= (i128::MAX as int) * 1)
                by (nonlinear_arith)
                requires b >= 1;
            lemma_div_is_ordered(i128::MAX as int, (i128::MAX as int) * (b as int), b as int);
            vstd::arithmetic::div_mod::lemma_div_multiples_vanish(i128::MAX as int, b as int);
        }
        -(q as i128)
    }
}

/// Fixed-point multiplication: exact result `fmul_s(a, b)`.
pub fn fmul(a: i64, b: i64) -> (r: i64)
    requires
        -FMAX <= a <= FMAX,
        -FMAX <= b <= FMAX,
    ensures
        r == fmul_s(a as int, b as int),
        -0x1000_0000_0000_0000 <= r <= 0x1000_0000_0000_0000,
{
    let p = wide_mul(a, b);
    proof {
        lemma_mul_bounds(a as int, b as int, FMAX as int, FMAX as int);
        lemma_div_t_bound(p as int, SCALE as int, (FMAX as int) * (FMAX as int));
    }
    let q = div_down(p, 65536);
    q as i64
}

/// Fixed-point division by a positive divisor: exact result `fdiv_s(a, b)`.
pub fn fdiv(a: i64, b: i64) -> (r: i64)
    requires
        b > 0,
        -FMAX <= a <= FMAX,
    ensures
        r == fdiv_s(a as int, b as int),
{
    let p = wide_mul(a, 65536);
    proof {
        lemma_mul_bounds(a as int, SCALE as int, FMAX as int, SCALE as int);
        lemma_div_t_bound(p as int, b as int, (FMAX as int) * (SCALE as int));
    }
    let q = div_down(p, b as i128);
    q as i64
}

/// Floor square root of a 128-bit natural number.
pub fn isqrt(n: u128) -> (r: u64)
    ensures
        r == sqrt_floor(n as nat),
{
    let mut lo: u128 = 0;
    let mut hi: u128 = 0x1_0000_0000_0000_0000;
    proof {
        assert(hi * hi > n) by (nonlinear_arith)
            requires hi == 0x1_0000_0000_0000_0000u128 && n <= u128::MAX;
    }
    while hi - lo > 1
        invariant
            lo < hi,
            hi <= 0x1_0000_0000_0000_0000,
            (lo as nat) * (lo as nat) <= n as nat,
            (hi as nat) * (hi as nat) > n as nat,
        decreases hi - lo,
    {
        let mid = lo + (hi - lo) / 2;
        proof {
            assert(mid * mid <= u128::MAX) by (nonlinear_arith)
                requires mid <= 0xffff_ffff_ffff_ffffu128;
        }
        if mid * mid <= n {
            lo = mid;
        } else {
            hi = mid;
        }
    }
    proof {
        lemma_sqrt_floor_unique(n as nat, lo as nat);
    }
    lo as u64
}

/// Square root of a nonnegative fixed-point value: exact result `fsqrt_s(x)`.
pub fn sqrt_fixed(x: i64) -> (r: i64)
    requires
        x >= 0,
    ensures
        r == fsqrt_s(x as int),
        r >= 0,
{
    let n = (x as u128) * 65536;
    let r = isqrt(n);
    proof {
        lemma_sqrt_floor_le(n as nat, 0x1_0000_0000_0000nat);
        assert(n as nat <= 0x1_0000_0000_0000nat * 0x1_0000_0000_0000nat)
            by (nonlinear_arith)
            requires n <= 0x8000_0000_0000_0000_0000u128;
    }
    r as i64
}

} // verus!
