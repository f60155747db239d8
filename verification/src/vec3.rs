//! The 3-component fixed-point vector, used for points, directions and
//! colors alike.

use vstd::prelude::*;
use crate::fixed::{
    div_t, fdiv, fdiv_s, fmul, fmul_s, lemma_div_t_bound, lemma_mul_bounds,
    lemma_sqrt_floor_ge, lemma_sqrt_floor_le, sqrt_floor, FMAX, SCALE,
};
use crate::rng::RandomState;

verus! {

/// Components of this magnitude or below make a direction too short to
/// normalize: 256 is the smallest magnitude whose square still registers at
/// the scale (256 * 256 == SCALE).
pub const NEAR_EPS: i64 = 256;

/// Magnitude cap under which vector addition and subtraction cannot overflow.
pub const VHUGE: i64 = 0x3fff_ffff_ffff_ffff;

pub open spec fn bounded3(v: (int, int, int), m: int) -> bool {
    &&& -m <= v.0 <= m
    &&& -m <= v.1 <= m
    &&& -m <= v.2 <= m
}

pub open spec fn add3_s(u: (int, int, int), v: (int, int, int)) -> (int, int, int) {
    (u.0 + v.0, u.1 + v.1, u.2 + v.2)
}

pub open spec fn sub3_s(u: (int, int, int), v: (int, int, int)) -> (int, int, int) {
    (u.0 - v.0, u.1 - v.1, u.2 - v.2)
}

pub open spec fn neg3_s(u: (int, int, int)) -> (int, int, int) {
    (-u.0, -u.1, -u.2)
}

/// Componentwise fixed-point product.
pub open spec fn mul3_s(u: (int, int, int), v: (int, int, int)) -> (int, int, int) {
    (fmul_s(u.0, v.0), fmul_s(u.1, v.1), fmul_s(u.2, v.2))
}

/// Scalar fixed-point product.
pub open spec fn smul3_s(u: (int, int, int), k: int) -> (int, int, int) {
    (fmul_s(u.0, k), fmul_s(u.1, k), fmul_s(u.2, k))
}

/// Scalar fixed-point quotient (positive divisor).
pub open spec fn sdiv3_s(u: (int, int, int), k: int) -> (int, int, int) {
    (fdiv_s(u.0, k), fdiv_s(u.1, k), fdiv_s(u.2, k))
}

/// The wide dot product, at scale SCALE * SCALE: no rounding happens here.
pub open spec fn dot_w(u: (int, int, int), v: (int, int, int)) -> int {
    u.0 * v.0 + u.1 * v.1 + u.2 * v.2
}

/// The fixed-point dot product: the wide sum brought back to scale.
pub open spec fn dot3_s(u: (int, int, int), v: (int, int, int)) -> int {
    div_t(dot_w(u, v), SCALE as int)
}

/// The squared length before rounding, at scale SCALE * SCALE.
pub open spec fn len_w(u: (int, int, int)) -> int {
    dot_w(u, u)
}

/// The fixed-point length: floor square root of the wide squared length.
pub open spec fn len3_s(u: (int, int, int)) -> int {
    sqrt_floor(len_w(u) as nat) as int
}

pub open spec fn cross3_s(u: (int, int, int), v: (int, int, int)) -> (int, int, int) {
    (
        div_t(u.1 * v.2 - u.2 * v.1, SCALE as int),
        div_t(u.2 * v.0 - u.0 * v.2, SCALE as int),
        div_t(u.0 * v.1 - u.1 * v.0, SCALE as int),
    )
}

/// Normalization: each component scaled by SCALE / length; the zero vector
/// for inputs whose length rounds to zero.
pub open spec fn unit3_s(u: (int, int, int)) -> (int, int, int) {
    if len3_s(u) >= 1 {
        (
            div_t(u.0 * (SCALE as int), len3_s(u)),
            div_t(u.1 * (SCALE as int), len3_s(u)),
            div_t(u.2 * (SCALE as int), len3_s(u)),
        )
    } else {
        (0, 0, 0)
    }
}

/// All three components below the degeneracy threshold in magnitude.
pub open spec fn near_zero3(u: (int, int, int)) -> bool {
    &&& -(NEAR_EPS as int) < u.0 < NEAR_EPS as int
    &&& -(NEAR_EPS as int) < u.1 < NEAR_EPS as int
    &&& -(NEAR_EPS as int) < u.2 < NEAR_EPS as int
}

/// The wide squared length is a sum of squares, so it is never negative.
pub proof fn lemma_len_w_nonneg(u: (int, int, int))
    ensures
        len_w(u) >= 0,
        u.0 * u.0 <= len_w(u),
        u.1 * u.1 <= len_w(u),
        u.2 * u.2 <= len_w(u),
{
    assert(u.0 * u.0 >= 0 && u.1 * u.1 >= 0 && u.2 * u.2 >= 0) by (nonlinear_arith);
}

/// Each component is bounded by the vector's length.
pub proof fn lemma_comp_le_len(u: (int, int, int))
    ensures
        -len3_s(u) <= u.0 <= len3_s(u),
        -len3_s(u) <= u.1 <= len3_s(u),
        -len3_s(u) <= u.2 <= len3_s(u),
        len3_s(u) >= 0,
{
    lemma_len_w_nonneg(u);
    let n = len_w(u) as nat;
    lemma_sqrt_floor_comp(n, u.0);
    lemma_sqrt_floor_comp(n, u.1);
    lemma_sqrt_floor_comp(n, u.2);
}

proof fn lemma_sqrt_floor_comp(n: nat, c: int)
    requires
        c * c <= n,
    ensures
        -(sqrt_floor(n) as int) <= c <= sqrt_floor(n) as int,
{
    let a: int = if c >= 0 { c } else { -c };
    assert(a * a == c * c) by (nonlinear_arith)
        requires a == c || a == -c;
    assert((a as nat) * (a as nat) == a * a);
    lemma_sqrt_floor_ge(n, a as nat);
}

/// A vector that is not near zero has length at least NEAR_EPS, and its
/// rounded squared length is at least one unit.
pub proof fn lemma_not_near_zero(u: (int, int, int))
    requires
        !near_zero3(u),
    ensures
        len_w(u) >= (SCALE as int),
        len3_s(u) >= NEAR_EPS as int,
        dot3_s(u, u) >= 1,
{
    lemma_len_w_nonneg(u);
    assert(len_w(u) >= 65536) by (nonlinear_arith)
        requires
            (u.0 >= 256 || u.0 <= -256 || u.1 >= 256 || u.1 <= -256 || u.2 >= 256
                || u.2 <= -256) && len_w(u) == u.0 * u.0 + u.1 * u.1 + u.2 * u.2;
    lemma_sqrt_floor_ge(len_w(u) as nat, 256nat);
    assert(div_t(len_w(u), SCALE as int) >= 1) by {
        vstd::arithmetic::div_mod::lemma_div_is_ordered(65536, len_w(u), 65536);
        vstd::arithmetic::div_mod::lemma_div_by_self(65536);
    }
}

/// What the unit-vector sampler can yield: the normalization of some
/// non-degenerate point of the unit cube.
pub open spec fn is_unit_sample(u: (int, int, int)) -> bool {
    exists|v: (int, int, int)|
        !near_zero3(v) && bounded3(v, SCALE as int) && u == #[trigger] unit3_s(v)
}

/// Negation preserves the length.
pub proof fn lemma_len3_neg(u: (int, int, int))
    ensures
        len3_s(neg3_s(u)) == len3_s(u),
{
    assert(len_w(neg3_s(u)) == len_w(u)) by (nonlinear_arith);
}

/// A normalized vector has components no larger than one unit.
pub proof fn lemma_unit3_bounded(u: (int, int, int))
    ensures
        bounded3(unit3_s(u), SCALE as int),
{
    if len3_s(u) >= 1 {
        let ell = len3_s(u);
        lemma_comp_le_len(u);
        lemma_unit_comp(u.0, ell);
        lemma_unit_comp(u.1, ell);
        lemma_unit_comp(u.2, ell);
    }
}

proof fn lemma_unit_comp(c: int, ell: int)
    requires
        ell >= 1,
        -ell <= c <= ell,
    ensures
        -(SCALE as int) <= div_t(c * (SCALE as int), ell) <= SCALE as int,
{
    assert(-(ell * 65536) <= c * 65536 <= ell * 65536) by (nonlinear_arith)
        requires -ell <= c <= ell;
    lemma_div_t_bound(c * 65536, ell, ell * 65536);
    vstd::arithmetic::div_mod::lemma_div_multiples_vanish(65536, ell);
    assert(ell * 65536 == 65536 * ell);
}

/// A 3-component fixed-point vector; doubles as a point and as an RGB color.
#[derive(Clone, Copy, PartialEq, Eq, Structural, Debug)]
pub struct Vec3 {
    pub x: i64,
    pub y: i64,
    pub z: i64,
}

impl Vec3 {
    /// Mathematical model: the components as unbounded integers.
    pub open spec fn m(self) -> (int, int, int) {
        (self.x as int, self.y as int, self.z as int)
    }

    /// The zero vector.
    pub fn new() -> (r: Vec3)
        ensures
            r.m() == (0int, 0int, 0int),
    {
        Vec3 { x: 0, y: 0, z: 0 }
    }

    pub fn new_with_values(x: i64, y: i64, z: i64) -> (r: Vec3)
        ensures
            r.x == x && r.y == y && r.z == z,
    {
        Vec3 { x, y, z }
    }

    pub fn x(&self) -> (r: i64)
        ensures
            r == self.x,
    {
        self.x
    }

    pub fn y(&self) -> (r: i64)
        ensures
            r == self.y,
    {
        self.y
    }

    pub fn z(&self) -> (r: i64)
        ensures
            r == self.z,
    {
        self.z
    }

    /// Component access by index; indices outside 0..3 are a caller error.
    pub fn index(&self, i: usize) -> (r: i64)
        requires
            i < 3,
        ensures
            i == 0 ==> r == self.x,
            i == 1 ==> r == self.y,
            i == 2 ==> r == self.z,
    {
        if i == 0 {
            self.x
        } else if i == 1 {
            self.y
        } else {
            self.z
        }
    }

    pub fn add(self, other: Vec3) -> (r: Vec3)
        requires
            bounded3(self.m(), VHUGE as int),
            bounded3(other.m(), VHUGE as int),
        ensures
            r.m() == add3_s(self.m(), other.m()),
    {
        Vec3 { x: self.x + other.x, y: self.y + other.y, z: self.z + other.z }
    }

    pub fn sub(self, other: Vec3) -> (r: Vec3)
        requires
            bounded3(self.m(), VHUGE as int),
            bounded3(other.m(), VHUGE as int),
        ensures
            r.m() == sub3_s(self.m(), other.m()),
    {
        Vec3 { x: self.x - other.x, y: self.y - other.y, z: self.z - other.z }
    }

    /// Componentwise product, as between a color and an attenuation.
    pub fn mul(self, other: Vec3) -> (r: Vec3)
        requires
            bounded3(self.m(), FMAX as int),
            bounded3(other.m(), FMAX as int),
        ensures
            r.m() == mul3_s(self.m(), other.m()),
    {
        Vec3 {
            x: fmul(self.x, other.x),
            y: fmul(self.y, other.y),
            z: fmul(self.z, other.z),
        }
    }

    pub fn mul_scalar(self, k: i64) -> (r: Vec3)
        requires
            bounded3(self.m(), FMAX as int),
            -FMAX <= k <= FMAX,
        ensures
            r.m() == smul3_s(self.m(), k as int),
    {
        Vec3 { x: fmul(self.x, k), y: fmul(self.y, k), z: fmul(self.z, k) }
    }

    pub fn div_scalar(self, k: i64) -> (r: Vec3)
        requires
            bounded3(self.m(), FMAX as int),
            k > 0,
        ensures
            r.m() == sdiv3_s(self.m(), k as int),
    {
        Vec3 { x: fdiv(self.x, k), y: fdiv(self.y, k), z: fdiv(self.z, k) }
    }

    pub fn neg(self) -> (r: Vec3)
        requires
            bounded3(self.m(), VHUGE as int),
        ensures
            r.m() == neg3_s(self.m()),
    {
        Vec3 { x: -self.x, y: -self.y, z: -self.z }
    }

    /// The rounded squared length.
    pub fn length_squared(&self) -> (r: i64)
        requires
            bounded3(self.m(), FMAX as int),
        ensures
            r == dot3_s(self.m(), self.m()),
    {
        crate::vec3_utils::dot(self, self)
    }

    /// The fixed-point length: floor square root of the exact squared length.
    pub fn length(&self) -> (r: i64)
        requires
            bounded3(self.m(), FMAX as int),
        ensures
            r == len3_s(self.m()),
            r >= 0,
    {
        let xx = crate::fixed::wide_mul(self.x, self.x);
        let yy = crate::fixed::wide_mul(self.y, self.y);
        let zz = crate::fixed::wide_mul(self.z, self.z);
        proof {
            lemma_mul_bounds(self.x as int, self.x as int, FMAX as int, FMAX as int);
            lemma_mul_bounds(self.y as int, self.y as int, FMAX as int, FMAX as int);
            lemma_mul_bounds(self.z as int, self.z as int, FMAX as int, FMAX as int);
            lemma_len_w_nonneg(self.m());
        }
        let s: i128 = xx + yy + zz;
        let r = crate::fixed::isqrt(s as u128);
        proof {
            lemma_sqrt_floor_le((s as u128) as nat, 0x4000_0000_0000_0000nat);
            assert((s as u128) as nat <= 0x4000_0000_0000_0000nat * 0x4000_0000_0000_0000nat)
                by (nonlinear_arith)
                requires (s as u128) <= 0xc000_0000_0000_0000_0000u128;
        }
        r as i64
    }

    /// Componentwise uniform draw in `[0, 1)`, that is in `[0, SCALE)`.
    pub fn random_vec3(rng: &mut RandomState) -> (r: Vec3)
        ensures
            0 <= r.x < SCALE,
            0 <= r.y < SCALE,
            0 <= r.z < SCALE,
    {
        let x = rng.next_fixed();
        let y = rng.next_fixed();
        let z = rng.next_fixed();
        Vec3 { x, y, z }
    }

    /// Componentwise uniform draw in `[min, max)`.
    pub fn random_vec3_min_max(rng: &mut RandomState, min: i64, max: i64) -> (r: Vec3)
        requires
            min < max,
            -0x1000_0000_0000 <= min,
            max <= 0x1000_0000_0000,
        ensures
            min <= r.x < max,
            min <= r.y < max,
            min <= r.z < max,
    {
        let x = rng.next_fixed_range(min, max);
        let y = rng.next_fixed_range(min, max);
        let z = rng.next_fixed_range(min, max);
        Vec3 { x, y, z }
    }

    /// Rejection-sample a point of the closed unit ball; after a generous
    /// retry budget, which randomness essentially never exhausts, the center
    /// is returned.
    pub fn random_in_unit_sphere(rng: &mut RandomState) -> (r: Vec3)
        ensures
            len3_s(r.m()) <= SCALE as int,
            bounded3(r.m(), SCALE as int),
    {
        let mut i: u64 = 0;
        while i < 1024
            decreases 1024 - i,
        {
            let v = Vec3::random_vec3_min_max(rng, -65536, 65536);
            if v.length() <= 65536 {
                proof {
                    lemma_comp_le_len(v.m());
                }
                return v;
            }
            i = i + 1;
        }
        proof {
            let zv = (0int, 0int, 0int);
            assert(len_w(zv) == 0);
            assert(sqrt_floor(0nat) == 0);
            assert(len3_s(zv) == 0);
        }
        Vec3 { x: 0, y: 0, z: 0 }
    }

    /// A point of the unit ball, normalized; the same retry budget guards
    /// against a degenerate (near-zero) draw.
    pub fn random_unit_vector(rng: &mut RandomState) -> (r: Vec3)
        ensures
            is_unit_sample(r.m()),
            bounded3(r.m(), SCALE as int),
    {
        let mut i: u64 = 0;
        while i < 1024
            decreases 1024 - i,
        {
            let v = Vec3::random_in_unit_sphere(rng);
            if !v.near_zero() {
                proof {
                    lemma_not_near_zero(v.m());
                }
                let u = crate::vec3_utils::unit_vector(v);
                proof {
                    lemma_unit3_bounded(v.m());
                    assert(!near_zero3(v.m()) && bounded3(v.m(), SCALE as int) && u.m()
                        == unit3_s(v.m()));
                }
                return u;
            }
            i = i + 1;
        }
        let w = Vec3 { x: 65536, y: 0, z: 0 };
        proof {
            let wm = (65536int, 0int, 0int);
            lemma_len_w_nonneg(wm);
            assert(len_w(wm) == 0x1_0000_0000);
            assert(65537int * 65537 == 0x1_0002_0001) by (nonlinear_arith);
            crate::fixed::lemma_sqrt_floor_unique(0x1_0000_0000nat, 65536nat);
            assert(len3_s(wm) == 65536);
            assert(div_t(65536int * 65536, 65536) == 65536) by {
                vstd::arithmetic::div_mod::lemma_div_multiples_vanish(65536, 65536);
            }
            assert(unit3_s(wm).0 == 65536);
            assert(unit3_s(wm) == wm);
            assert(!near_zero3(wm) && bounded3(wm, SCALE as int) && w.m() == unit3_s(wm));
            assert(is_unit_sample(w.m()));
        }
        w
    }

    /// True when every component is below the degeneracy threshold.
    pub fn near_zero(&self) -> (r: bool)
        ensures
            r == near_zero3(self.m()),
    {
        -256 < self.x && self.x < 256 && -256 < self.y && self.y < 256 && -256 < self.z
            && self.z < 256
    }
}

} // verus!
