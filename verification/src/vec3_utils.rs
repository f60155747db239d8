//! Free functions on vectors: products, normalization, reflection and
//! refraction, and the unit-disk sample used for lens jitter.

use vstd::prelude::*;
use crate::fixed::{
    div_t, fmul, fmul_s, fsqrt_s, lemma_div_t_bound, lemma_fmul_s_bound,
    lemma_mul_bounds, sqrt_fixed, FMAX, SCALE,
};
use crate::vec3::{
    add3_s, bounded3, cross3_s, dot3_s, dot_w, len3_s, len_w, lemma_comp_le_len,
    lemma_len_w_nonneg, near_zero3, neg3_s, smul3_s, sub3_s, unit3_s, Vec3,
};
use crate::rng::RandomState;

verus! {

/// The mirror reflection of `v` about the normal `n`, with the crate's
/// rounding: `v - 2 * dot(v, n) * n` componentwise.
pub open spec fn reflect3_s(v: (int, int, int), n: (int, int, int)) -> (int, int, int) {
    sub3_s(v, smul3_s(n, 2 * dot3_s(v, n)))
}

/// The ideal (unrounded) reflection, carried at scale SCALE^2: `SCALE^2 * v -
/// 2 * dot_w(v, n) * n`.
pub open spec fn reflect_w(v: (int, int, int), n: (int, int, int)) -> (int, int, int) {
    (
        (SCALE as int) * (SCALE as int) * v.0 - 2 * dot_w(v, n) * n.0,
        (SCALE as int) * (SCALE as int) * v.1 - 2 * dot_w(v, n) * n.1,
        (SCALE as int) * (SCALE as int) * v.2 - 2 * dot_w(v, n) * n.2,
    )
}

/// Snell refraction of the unit direction `uv` at normal `n`, with index
/// ratio `eta`: perpendicular part `eta * (uv + cos_theta * n)`, parallel
/// part `-sqrt(|1 - |perp|^2|) * n`.
pub open spec fn refract3_s(uv: (int, int, int), n: (int, int, int), eta: int) -> (
    int,
    int,
    int,
) {
    let cos_theta = spec_min(dot3_s(neg3_s(uv), n), SCALE as int);
    let perp = (
        fmul_s(eta, uv.0 + fmul_s(cos_theta, n.0)),
        fmul_s(eta, uv.1 + fmul_s(cos_theta, n.1)),
        fmul_s(eta, uv.2 + fmul_s(cos_theta, n.2)),
    );
    let arg = spec_abs((SCALE as int) - dot3_s(perp, perp));
    let par_len = fsqrt_s(arg);
    (
        perp.0 - fmul_s(par_len, n.0),
        perp.1 - fmul_s(par_len, n.1),
        perp.2 - fmul_s(par_len, n.2),
    )
}

pub open spec fn spec_min(a: int, b: int) -> int {
    if a < b {
        a
    } else {
        b
    }
}

pub open spec fn spec_abs(a: int) -> int {
    if a >= 0 {
        a
    } else {
        -a
    }
}

/// Incidence law of the ideal reflection: for a normal of exactly unit wide
/// length, reflecting flips the sign of the wide dot product, so the angle of
/// incidence equals the angle of reflection.  (The executable `reflect`
/// computes this reflection rounded toward zero at each component.)
pub proof fn lemma_reflect_incidence(v: (int, int, int), n: (int, int, int))
    requires
        dot_w(n, n) == (SCALE as int) * (SCALE as int),
    ensures
        dot_w(reflect_w(v, n), n) == -((SCALE as int) * (SCALE as int)) * dot_w(v, n),
{
    let s2 = (SCALE as int) * (SCALE as int);
    let d = dot_w(v, n);
    let a0 = v.0 * n.0;
    let a1 = v.1 * n.1;
    let a2 = v.2 * n.2;
    let b0 = n.0 * n.0;
    let b1 = n.1 * n.1;
    let b2 = n.2 * n.2;
    assert((s2 * v.0 - 2 * d * n.0) * n.0 == s2 * a0 - 2 * (d * b0)) by (nonlinear_arith)
        requires a0 == v.0 * n.0 && b0 == n.0 * n.0;
    assert((s2 * v.1 - 2 * d * n.1) * n.1 == s2 * a1 - 2 * (d * b1)) by (nonlinear_arith)
        requires a1 == v.1 * n.1 && b1 == n.1 * n.1;
    assert((s2 * v.2 - 2 * d * n.2) * n.2 == s2 * a2 - 2 * (d * b2)) by (nonlinear_arith)
        requires a2 == v.2 * n.2 && b2 == n.2 * n.2;
    assert(s2 * a0 + s2 * a1 + s2 * a2 == s2 * d) by (nonlinear_arith)
        requires d == a0 + a1 + a2;
    assert(d * b0 + d * b1 + d * b2 == d * s2) by (nonlinear_arith)
        requires b0 + b1 + b2 == s2;
    assert(s2 * d - 2 * (d * s2) == -s2 * d) by (nonlinear_arith);
    assert(dot_w(reflect_w(v, n), n) == (s2 * v.0 - 2 * d * n.0) * n.0 + (s2 * v.1 - 2 * d
        * n.1) * n.1 + (s2 * v.2 - 2 * d * n.2) * n.2);
    assert(-s2 * d == -((SCALE as int) * (SCALE as int)) * dot_w(v, n));
}

/// The incidence law holds exactly, rounding included, about the six
/// axis-aligned unit normals: there every scaling the reflection performs
/// is exact.
pub proof fn lemma_reflect_incidence_axis(v: (int, int, int), n: (int, int, int))
    requires
        n == (SCALE as int, 0int, 0int) || n == (-(SCALE as int), 0int, 0int) || n == (
            0int,
            SCALE as int,
            0int,
        ) || n == (0int, -(SCALE as int), 0int) || n == (0int, 0int, SCALE as int) || n == (
            0int,
            0int,
            -(SCALE as int),
        ),
    ensures
        dot3_s(reflect3_s(v, n), n) == -dot3_s(v, n),
{
    crate::material::lemma_zero_mul();
    if n.0 != 0 {
        assert(v.1 * n.1 == 0 && v.2 * n.2 == 0) by (nonlinear_arith)
            requires n.1 == 0 && n.2 == 0;
        assert(dot3_s(v, n) == fmul_s(v.0, n.0));
        axis_incidence(v.0, n.0);
        let d = dot3_s(v, n);
        let refl = reflect3_s(v, n);
        assert(refl.0 == v.0 - fmul_s(n.0, 2 * d));
        assert(refl.1 * n.1 == 0 && refl.2 * n.2 == 0) by (nonlinear_arith)
            requires n.1 == 0 && n.2 == 0;
        assert(dot3_s(refl, n) == fmul_s(refl.0, n.0));
    }
    if n.1 != 0 {
        assert(v.0 * n.0 == 0 && v.2 * n.2 == 0) by (nonlinear_arith)
            requires n.0 == 0 && n.2 == 0;
        assert(dot3_s(v, n) == fmul_s(v.1, n.1));
        axis_incidence(v.1, n.1);
        let d = dot3_s(v, n);
        let refl = reflect3_s(v, n);
        assert(refl.1 == v.1 - fmul_s(n.1, 2 * d));
        assert(refl.0 * n.0 == 0 && refl.2 * n.2 == 0) by (nonlinear_arith)
            requires n.0 == 0 && n.2 == 0;
        assert(dot3_s(refl, n) == fmul_s(refl.1, n.1));
    }
    if n.2 != 0 {
        assert(v.0 * n.0 == 0 && v.1 * n.1 == 0) by (nonlinear_arith)
            requires n.0 == 0 && n.1 == 0;
        assert(dot3_s(v, n) == fmul_s(v.2, n.2));
        axis_incidence(v.2, n.2);
        let d = dot3_s(v, n);
        let refl = reflect3_s(v, n);
        assert(refl.2 == v.2 - fmul_s(n.2, 2 * d));
        assert(refl.0 * n.0 == 0 && refl.1 * n.1 == 0) by (nonlinear_arith)
            requires n.0 == 0 && n.1 == 0;
        assert(dot3_s(refl, n) == fmul_s(refl.2, n.2));
    }
}

/// The one-dimensional core of the axis case: reflecting the active
/// coordinate `c` about a unit of sign `s` flips the rounded product.
proof fn axis_incidence(c: int, s: int)
    requires
        s == SCALE as int || s == -(SCALE as int),
    ensures
        fmul_s(c - fmul_s(s, 2 * fmul_s(c, s)), s) == -fmul_s(c, s),
{
    crate::material::lemma_sign_unit_mul(c, s);
    let d = fmul_s(c, s);
    crate::material::lemma_sign_unit_mul(2 * d, s);
    let inner = c - fmul_s(s, 2 * d);
    crate::material::lemma_sign_unit_mul(inner, s);
}

/// Normalization is exact, hence idempotent, on vectors whose length is
/// exactly one unit.
pub proof fn lemma_unit_exact(v: (int, int, int))
    requires
        len3_s(v) == SCALE as int,
    ensures
        unit3_s(v) == v,
{
    lemma_unit_exact_comp(v.0);
    lemma_unit_exact_comp(v.1);
    lemma_unit_exact_comp(v.2);
}

proof fn lemma_unit_exact_comp(c: int)
    ensures
        div_t(c * (SCALE as int), SCALE as int) == c,
{
    if c >= 0 {
        vstd::arithmetic::div_mod::lemma_div_multiples_vanish(c, SCALE as int);
    } else {
        vstd::arithmetic::div_mod::lemma_div_multiples_vanish(-c, SCALE as int);
        assert(-(c * (SCALE as int)) == (-c) * (SCALE as int)) by (nonlinear_arith);
    }
}

/// Scaling one coordinate by `SCALE / ell` with truncation keeps its
/// square within one step: the scaled square, times `ell^2`, sits between
/// `(c*SCALE)^2 - 2*ell*|c*SCALE|` and `(c*SCALE)^2`.
proof fn lemma_unit_comp_sq(c: int, ell: int)
    requires
        ell >= 1,
    ensures
        (ell * div_t(c * (SCALE as int), ell)) * (ell * div_t(c * (SCALE as int), ell))
            <= (c * (SCALE as int)) * (c * (SCALE as int)),
        (ell * div_t(c * (SCALE as int), ell)) * (ell * div_t(c * (SCALE as int), ell))
            >= (c * (SCALE as int)) * (c * (SCALE as int)) - 2 * ell * spec_abs(
            c * (SCALE as int),
        ),
{
    let x = c * (SCALE as int);
    let q = div_t(x, ell);
    let w = ell * q;
    crate::fixed::lemma_div_t_rem(x, ell);
    crate::fixed::lemma_div_t_bound(x, ell, spec_abs(x));
    if x >= 0 {
        assert(w >= 0) by (nonlinear_arith)
            requires w == ell * q && ell >= 1 && q >= 0;
        assert(w * w <= x * x && w * w >= x * x - 2 * ell * x) by (nonlinear_arith)
            requires x >= 0 && ell >= 1 && x - ell < w <= x && w >= 0;
    } else {
        assert(w <= 0) by (nonlinear_arith)
            requires w == ell * q && ell >= 1 && q <= 0;
        assert(w * w <= x * x && w * w >= x * x - 2 * ell * (-x)) by (nonlinear_arith)
            requires x < 0 && ell >= 1 && x <= w < x + ell && w <= 0;
    }
}

/// Normalizing a vector whose length is at least the degeneracy threshold
/// lands within a small band of one unit: the result's length is between
/// `SCALE - 8` and `SCALE + NEAR_EPS`.
pub proof fn lemma_unit3_len(v: (int, int, int))
    requires
        len3_s(v) >= crate::vec3::NEAR_EPS as int,
    ensures
        (SCALE - 8) as int <= len3_s(unit3_s(v)) <= (SCALE + crate::vec3::NEAR_EPS) as int,
{
    let s = SCALE as int;
    let ell = len3_s(v);
    let lw = len_w(v);
    crate::vec3::lemma_len_w_nonneg(v);
    crate::fixed::lemma_sqrt_floor((lw) as nat);
    assert(ell * ell <= lw < (ell + 1) * (ell + 1));
    lemma_comp_le_len(v);
    let u = unit3_s(v);
    lemma_unit_comp_sq(v.0, ell);
    lemma_unit_comp_sq(v.1, ell);
    lemma_unit_comp_sq(v.2, ell);
    let w0 = ell * u.0;
    let w1 = ell * u.1;
    let w2 = ell * u.2;
    assert(w0 * w0 == ell * ell * (u.0 * u.0)) by (nonlinear_arith)
        requires w0 == ell * u.0;
    assert(w1 * w1 == ell * ell * (u.1 * u.1)) by (nonlinear_arith)
        requires w1 == ell * u.1;
    assert(w2 * w2 == ell * ell * (u.2 * u.2)) by (nonlinear_arith)
        requires w2 == ell * u.2;
    assert(ell * ell * (u.0 * u.0 + u.1 * u.1 + u.2 * u.2) == ell * ell * (u.0 * u.0) + ell
        * ell * (u.1 * u.1) + ell * ell * (u.2 * u.2)) by (nonlinear_arith);
    assert(ell * ell * len_w(u) == w0 * w0 + w1 * w1 + w2 * w2);
    assert((v.0 * s) * (v.0 * s) == s * s * (v.0 * v.0)) by (nonlinear_arith);
    assert((v.1 * s) * (v.1 * s) == s * s * (v.1 * v.1)) by (nonlinear_arith);
    assert((v.2 * s) * (v.2 * s) == s * s * (v.2 * v.2)) by (nonlinear_arith);
    assert(s * s * (v.0 * v.0 + v.1 * v.1 + v.2 * v.2) == s * s * (v.0 * v.0) + s * s * (v.1
        * v.1) + s * s * (v.2 * v.2)) by (nonlinear_arith);
    assert((v.0 * s) * (v.0 * s) + (v.1 * s) * (v.1 * s) + (v.2 * s) * (v.2 * s) == s * s
        * lw);
    assert(spec_abs(v.0 * s) <= ell * s) by (nonlinear_arith)
        requires -ell <= v.0 <= ell && s == 65536;
    assert(spec_abs(v.1 * s) <= ell * s) by (nonlinear_arith)
        requires -ell <= v.1 <= ell && s == 65536;
    assert(spec_abs(v.2 * s) <= ell * s) by (nonlinear_arith)
        requires -ell <= v.2 <= ell && s == 65536;
    assert(2 * ell * spec_abs(v.0 * s) <= 2 * (ell * (ell * s))) by (nonlinear_arith)
        requires spec_abs(v.0 * s) <= ell * s && ell >= 1;
    assert(2 * ell * spec_abs(v.1 * s) <= 2 * (ell * (ell * s))) by (nonlinear_arith)
        requires spec_abs(v.1 * s) <= ell * s && ell >= 1;
    assert(2 * ell * spec_abs(v.2 * s) <= 2 * (ell * (ell * s))) by (nonlinear_arith)
        requires spec_abs(v.2 * s) <= ell * s && ell >= 1;
    assert(2 * (ell * (ell * s)) == 2 * s * (ell * ell)) by (nonlinear_arith);
    assert(u.0 == div_t(v.0 * s, ell) && u.1 == div_t(v.1 * s, ell) && u.2 == div_t(
        v.2 * s,
        ell,
    ));
    assert(w0 * w0 >= (v.0 * s) * (v.0 * s) - 2 * ell * spec_abs(v.0 * s));
    assert(w1 * w1 >= (v.1 * s) * (v.1 * s) - 2 * ell * spec_abs(v.1 * s));
    assert(w2 * w2 >= (v.2 * s) * (v.2 * s) - 2 * ell * spec_abs(v.2 * s));
    assert(2 * s * (ell * ell) + 2 * s * (ell * ell) + 2 * s * (ell * ell) == 6 * s * (ell
        * ell)) by (nonlinear_arith);
    assert(ell * ell * len_w(u) >= s * s * lw - 6 * s * (ell * ell));
    assert(ell * ell * len_w(u) <= s * s * lw);
    assert(len_w(u) >= s * s - 6 * s) by (nonlinear_arith)
        requires ell * ell * len_w(u) >= s * s * lw - 6 * s * (ell * ell) && lw >= ell * ell
            && ell >= 1;
    assert((s - 8) * (s - 8) <= s * s - 6 * s) by (nonlinear_arith)
        requires s == 65536;
    crate::fixed::lemma_sqrt_floor_ge(len_w(u) as nat, (s - 8) as nat);
    assert(s * s * lw <= s * s * (ell * ell + 2 * ell)) by (nonlinear_arith)
        requires lw < (ell + 1) * (ell + 1);
    assert(s * s * (ell * ell + 2 * ell) <= ell * ell * ((s + 256) * (s + 256)))
        by (nonlinear_arith)
        requires ell >= 256 && s == 65536;
    assert(len_w(u) <= (s + 256) * (s + 256)) by (nonlinear_arith)
        requires ell * ell * len_w(u) <= ell * ell * ((s + 256) * (s + 256)) && ell >= 1;
    assert(len_w(u) as nat <= ((s + 256) as nat) * ((s + 256) as nat));
    crate::fixed::lemma_sqrt_floor_le(len_w(u) as nat, (s + 256) as nat);
}

/// Normalization is idempotent within tolerance: normalizing twice moves
/// every component of the once-normalized vector by less than 1/250 of a
/// unit, for any vector at least the degeneracy threshold long.
pub proof fn lemma_unit_near_idempotent(v: (int, int, int))
    requires
        len3_s(v) >= crate::vec3::NEAR_EPS as int,
    ensures
        bounded3(sub3_s(unit3_s(unit3_s(v)), unit3_s(v)), 258),
{
    let s = SCALE as int;
    let u = unit3_s(v);
    lemma_unit3_len(v);
    crate::vec3::lemma_unit3_bounded(v);
    let ell2 = len3_s(u);
    assert(s - 8 <= ell2 <= s + 256);
    lemma_near_idem_comp(u.0, ell2);
    lemma_near_idem_comp(u.1, ell2);
    lemma_near_idem_comp(u.2, ell2);
}

/// The one-dimensional step of the tolerance argument: dividing a
/// component of magnitude at most one unit by a length within the band
/// moves it by at most 258.
proof fn lemma_near_idem_comp(c: int, ell2: int)
    requires
        -(SCALE as int) <= c <= SCALE as int,
        (SCALE - 8) as int <= ell2 <= (SCALE + 256) as int,
    ensures
        -258 <= div_t(c * (SCALE as int), ell2) - c <= 258,
{
    let s = SCALE as int;
    let x = c * s;
    let q = div_t(x, ell2);
    crate::fixed::lemma_div_t_rem(x, ell2);
    assert(-258 <= q - c <= 258) by (nonlinear_arith)
        requires
            s == 65536 && -s <= c <= s && s - 8 <= ell2 <= s + 256 && x == c * s && ((x >= 0
                && x - ell2 < ell2 * q <= x) || (x <= 0 && x <= ell2 * q < x + ell2));
}

/// Normalizing twice equals normalizing once whenever the first
/// normalization lands on a vector of exactly unit length.
pub proof fn lemma_unit_idempotent(v: (int, int, int))
    requires
        len3_s(unit3_s(v)) == SCALE as int,
    ensures
        unit3_s(unit3_s(v)) == unit3_s(v),
{
    lemma_unit_exact(unit3_s(v));
}

/// The rounded fixed-point dot product.
pub fn dot(u: &Vec3, v: &Vec3) -> (r: i64)
    requires
        bounded3(u.m(), FMAX as int),
        bounded3(v.m(), FMAX as int),
    ensures
        r == dot3_s(u.m(), v.m()),
{
    let a = crate::fixed::wide_mul(u.x, v.x);
    let b = crate::fixed::wide_mul(u.y, v.y);
    let c = crate::fixed::wide_mul(u.z, v.z);
    proof {
        lemma_mul_bounds(u.x as int, v.x as int, FMAX as int, FMAX as int);
        lemma_mul_bounds(u.y as int, v.y as int, FMAX as int, FMAX as int);
        lemma_mul_bounds(u.z as int, v.z as int, FMAX as int, FMAX as int);
    }
    let s: i128 = a + b + c;
    proof {
        lemma_div_t_bound(s as int, SCALE as int, 3int * (FMAX as int) * (FMAX as int));
    }
    let q = crate::fixed::div_down(s, 65536);
    q as i64
}

/// The fixed-point cross product, each component rounded once.
pub fn cross(u: &Vec3, v: &Vec3) -> (r: Vec3)
    requires
        bounded3(u.m(), FMAX as int),
        bounded3(v.m(), FMAX as int),
    ensures
        r.m() == cross3_s(u.m(), v.m()),
{
    let x = cross_term(u.y, v.z, u.z, v.y);
    let y = cross_term(u.z, v.x, u.x, v.z);
    let z = cross_term(u.x, v.y, u.y, v.x);
    Vec3 { x, y, z }
}

fn cross_term(a: i64, b: i64, c: i64, d: i64) -> (r: i64)
    requires
        -FMAX <= a <= FMAX,
        -FMAX <= b <= FMAX,
        -FMAX <= c <= FMAX,
        -FMAX <= d <= FMAX,
    ensures
        r == div_t(a * b - c * d, SCALE as int),
{
    let p = crate::fixed::wide_mul(a, b);
    let q = crate::fixed::wide_mul(c, d);
    proof {
        lemma_mul_bounds(a as int, b as int, FMAX as int, FMAX as int);
        lemma_mul_bounds(c as int, d as int, FMAX as int, FMAX as int);
        lemma_div_t_bound(
            (p - q) as int,
            SCALE as int,
            2int * (FMAX as int) * (FMAX as int),
        );
    }
    let w = crate::fixed::div_down(p - q, 65536);
    w as i64
}

/// Normalization: `v` scaled by `SCALE / length(v)`.
pub fn unit_vector(v: Vec3) -> (r: Vec3)
    requires
        bounded3(v.m(), FMAX as int),
        len3_s(v.m()) >= 1,
    ensures
        r.m() == unit3_s(v.m()),
        bounded3(r.m(), SCALE as int),
{
    let ell = v.length();
    proof {
        lemma_comp_le_len(v.m());
        crate::vec3::lemma_unit3_bounded(v.m());
    }
    let x = unit_comp(v.x, ell);
    let y = unit_comp(v.y, ell);
    let z = unit_comp(v.z, ell);
    Vec3 { x, y, z }
}

fn unit_comp(c: i64, ell: i64) -> (r: i64)
    requires
        ell >= 1,
        -ell <= c <= ell,
    ensures
        r == div_t(c * (SCALE as int), ell as int),
{
    let p = crate::fixed::wide_mul(c, 65536);
    proof {
        lemma_mul_bounds(c as int, SCALE as int, ell as int, SCALE as int);
        lemma_div_t_bound(p as int, ell as int, (ell as int) * (SCALE as int));
        vstd::arithmetic::div_mod::lemma_div_multiples_vanish(SCALE as int, ell as int);
        assert((ell as int) * (SCALE as int) == (SCALE as int) * (ell as int));
    }
    let q = crate::fixed::div_down(p, ell as i128);
    q as i64
}

/// Mirror reflection about a normal: `v - 2 * dot(v, n) * n`.
pub fn reflect(v: &Vec3, n: &Vec3) -> (r: Vec3)
    requires
        bounded3(v.m(), 2 * SCALE as int),
        bounded3(n.m(), 2 * SCALE as int),
    ensures
        r.m() == reflect3_s(v.m(), n.m()),
        bounded3(r.m(), 0x400000int),
{
    let d = dot(v, n);
    proof {
        lemma_dot3_s_bound_small(v.m(), n.m());
        lemma_fmul_s_bound(2 * d, n.x as int, 0x180000, 0x20000);
        lemma_fmul_s_bound(2 * d, n.y as int, 0x180000, 0x20000);
        lemma_fmul_s_bound(2 * d, n.z as int, 0x180000, 0x20000);
    }
    let k: i64 = 2 * d;
    let x = v.x - fmul(k, n.x);
    let y = v.y - fmul(k, n.y);
    let z = v.z - fmul(k, n.z);
    Vec3 { x, y, z }
}

/// Dot products of vectors with components up to two units stay below
/// twelve units in magnitude.
proof fn lemma_dot3_s_bound_small(u: (int, int, int), v: (int, int, int))
    requires
        bounded3(u, 0x20000int),
        bounded3(v, 0x20000int),
    ensures
        -0xc0000 <= dot3_s(u, v) <= 0xc0000,
{
    lemma_mul_bounds(u.0, v.0, 0x20000, 0x20000);
    lemma_mul_bounds(u.1, v.1, 0x20000, 0x20000);
    lemma_mul_bounds(u.2, v.2, 0x20000, 0x20000);
    lemma_div_t_bound(dot_w(u, v), SCALE as int, 3int * 0x20000 * 0x20000);
}

/// The smaller of two fixed-point values.
pub fn min(x: i64, y: i64) -> (r: i64)
    ensures
        r == spec_min(x as int, y as int),
{
    if x < y {
        x
    } else {
        y
    }
}

/// Snell refraction of a unit direction about a unit-scale normal.
pub fn refract(uv: &Vec3, n: &Vec3, etai_over_etat: i64) -> (r: Vec3)
    requires
        bounded3(uv.m(), 2 * SCALE as int),
        bounded3(n.m(), 2 * SCALE as int),
        0 <= etai_over_etat <= 4 * SCALE,
    ensures
        r.m() == refract3_s(uv.m(), n.m(), etai_over_etat as int),
        bounded3(r.m(), 0x2000000int),
{
    let d = dot(&uv.neg(), n);
    let cos_theta = min(d, 65536);
    proof {
        lemma_mul_bounds(-uv.m().0, n.m().0, 0x20000, 0x20000);
        lemma_mul_bounds(-uv.m().1, n.m().1, 0x20000, 0x20000);
        lemma_mul_bounds(-uv.m().2, n.m().2, 0x20000, 0x20000);
        lemma_div_t_bound(dot_w(neg3_s(uv.m()), n.m()), SCALE as int, 3int * 0x20000 * 0x20000);
        lemma_fmul_s_bound(cos_theta as int, n.x as int, 0xc0000, 0x20000);
        lemma_fmul_s_bound(cos_theta as int, n.y as int, 0xc0000, 0x20000);
        lemma_fmul_s_bound(cos_theta as int, n.z as int, 0xc0000, 0x20000);
    }
    let px = fmul(etai_over_etat, uv.x + fmul(cos_theta, n.x));
    let py = fmul(etai_over_etat, uv.y + fmul(cos_theta, n.y));
    let pz = fmul(etai_over_etat, uv.z + fmul(cos_theta, n.z));
    proof {
        lemma_fmul_s_bound(etai_over_etat as int, uv.m().0 + fmul_s(cos_theta as int, n.m().0), 0x40000, 0x1a0000);
        lemma_fmul_s_bound(etai_over_etat as int, uv.m().1 + fmul_s(cos_theta as int, n.m().1), 0x40000, 0x1a0000);
        lemma_fmul_s_bound(etai_over_etat as int, uv.m().2 + fmul_s(cos_theta as int, n.m().2), 0x40000, 0x1a0000);
    }
    let perp = Vec3 { x: px, y: py, z: pz };
    let ls = perp.length_squared();
    proof {
        lemma_mul_bounds(perp.m().0, perp.m().0, 0x680000, 0x680000);
        lemma_mul_bounds(perp.m().1, perp.m().1, 0x680000, 0x680000);
        lemma_mul_bounds(perp.m().2, perp.m().2, 0x680000, 0x680000);
        lemma_div_t_bound(dot_w(perp.m(), perp.m()), SCALE as int, 3int * 0x680000 * 0x680000);
    }
    let arg: i64 = if 65536 - ls >= 0 {
        65536 - ls
    } else {
        -(65536 - ls)
    };
    let par_len = sqrt_fixed(arg);
    proof {
        assert(((arg as int) * (SCALE as int)) as nat
            <= 0xc00000nat * 0xc00000nat)
            by (nonlinear_arith)
            requires 0 <= arg <= 0x8000_0000i64;
        crate::fixed::lemma_sqrt_floor_le(
            ((arg as int) * (SCALE as int)) as nat,
            0xc00000nat,
        );
        lemma_fmul_s_bound(par_len as int, n.x as int, 0xc00000, 0x20000);
        lemma_fmul_s_bound(par_len as int, n.y as int, 0xc00000, 0x20000);
        lemma_fmul_s_bound(par_len as int, n.z as int, 0xc00000, 0x20000);
    }
    let x = px - fmul(par_len, n.x);
    let y = py - fmul(par_len, n.y);
    let z = pz - fmul(par_len, n.z);
    Vec3 { x, y, z }
}

/// Rejection-sample a point of the open unit disk in the z = 0 plane; after
/// the retry budget the center is returned.
pub fn random_in_unit_disk(rng: &mut RandomState) -> (r: Vec3)
    ensures
        dot3_s(r.m(), r.m()) < SCALE as int,
        r.z == 0,
        bounded3(r.m(), SCALE as int),
{
    let mut i: u64 = 0;
    while i < 1024
        decreases 1024 - i,
    {
        let x = rng.next_fixed_range(-65536, 65536);
        let y = rng.next_fixed_range(-65536, 65536);
        let p = Vec3 { x, y, z: 0 };
        if p.length_squared() < 65536 {
            return p;
        }
        i = i + 1;
    }
    let p = Vec3 { x: 0, y: 0, z: 0 };
    proof {
        lemma_div_t_bound(dot_w(p.m(), p.m()), SCALE as int, 0);
    }
    p
}

} // verus!
