//! Materials: a closed set of three scattering models.  Each is a function
//! of the incoming ray, the hit record and the random source; it either
//! yields a scattered ray with an attenuation color or reports absorption.

use vstd::prelude::*;
use crate::fixed::{fdiv, fdiv_s, fmul, fmul_s, fsqrt_s, lemma_fmul_s_bound, sqrt_fixed, SCALE};
use crate::vec3::{
    add3_s, bounded3, dot3_s, len3_s, near_zero3, neg3_s, smul3_s, unit3_s, Vec3,
};
use crate::vec3_utils::{
    dot, min, reflect, reflect3_s, refract, refract3_s, spec_abs, spec_min, unit_vector,
};
use crate::ray::Ray;
use crate::rng::RandomState;
use crate::hittable::HitRecord;

verus! {

/// A color: every component within the unit interval.
pub open spec fn color3(v: (int, int, int)) -> bool {
    &&& 0 <= v.0 <= SCALE as int
    &&& 0 <= v.1 <= SCALE as int
    &&& 0 <= v.2 <= SCALE as int
}

/// Diffuse: scatters around the normal, never absorbs.
#[derive(Clone, Copy, PartialEq, Eq, Structural, Debug)]
pub struct Lambertian {
    pub albedo: Vec3,
}

/// Mirror with roughness `fuzz` in `[0, 1]`; absorbs rays that the
/// perturbation sends under the surface.
#[derive(Clone, Copy, PartialEq, Eq, Structural, Debug)]
pub struct Metal {
    pub albedo: Vec3,
    pub fuzz: i64,
}

/// Clear refractive material with index `ir`; never absorbs.
#[derive(Clone, Copy, PartialEq, Eq, Structural, Debug)]
pub struct Dielectric {
    pub ir: i64,
}

#[derive(Clone, Copy, PartialEq, Eq, Structural, Debug)]
pub enum Material {
    Lambertian(Lambertian),
    Metal(Metal),
    Dielectric(Dielectric),
}

impl Material {
    /// Parameter ranges under which scattering is defined: colors in the
    /// unit cube, fuzz in `[0, 1]`, a refractive index between one half
    /// and four.
    pub open spec fn wf(self) -> bool {
        match self {
            Material::Lambertian(l) => color3(l.albedo.m()),
            Material::Metal(m) => color3(m.albedo.m()) && 0 <= m.fuzz <= SCALE,
            Material::Dielectric(d) => SCALE / 2 <= d.ir <= 4 * SCALE,
        }
    }
}

/// The diffuse scatter direction for normal `n` and unit sample `u`: their
/// sum, or the bare normal when the sum degenerates to near zero.
pub open spec fn lambertian_dir_s(n: (int, int, int), u: (int, int, int)) -> (int, int, int) {
    if near_zero3(add3_s(n, u)) {
        n
    } else {
        add3_s(n, u)
    }
}

/// The larger of two values.
pub open spec fn spec_max(a: int, b: int) -> int {
    if a > b {
        a
    } else {
        b
    }
}

/// Cosine of the incidence angle: `min(dot(-unit_dir, normal), 1)`.
pub open spec fn cos_theta_s(u: (int, int, int), n: (int, int, int)) -> int {
    spec_min(dot3_s(neg3_s(u), n), SCALE as int)
}

/// Sine of the incidence angle, from the cosine, clamped under the root.
pub open spec fn sin_theta_s(u: (int, int, int), n: (int, int, int)) -> int {
    fsqrt_s(spec_max((SCALE as int) - fmul_s(cos_theta_s(u, n), cos_theta_s(u, n)), 0))
}

/// The index ratio used by a dielectric: `1 / ir` entering the surface,
/// `ir` leaving it.
pub open spec fn refraction_ratio_s(d: Dielectric, front: bool) -> int {
    if front {
        fdiv_s(SCALE as int, d.ir as int)
    } else {
        d.ir as int
    }
}

/// Total internal reflection: `ratio * sin_theta > 1`.
pub open spec fn cannot_refract_s(
    d: Dielectric,
    u: (int, int, int),
    n: (int, int, int),
    front: bool,
) -> bool {
    fmul_s(refraction_ratio_s(d, front), sin_theta_s(u, n)) > SCALE as int
}

/// The dielectric's outgoing direction, given the Schlick draw: reflect
/// under total internal reflection or when the draw falls under the
/// reflectance; refract otherwise.  At matched index (ir equal to one) the
/// draw is bypassed and the ray always refracts.
pub open spec fn dielectric_dir_s(
    d: Dielectric,
    u: (int, int, int),
    nm: (int, int, int),
    front: bool,
    draw: int,
) -> (int, int, int) {
    let ratio = refraction_ratio_s(d, front);
    if cannot_refract_s(d, u, nm, front) || (d.ir != SCALE && reflectance_s(
        cos_theta_s(u, nm),
        ratio,
    ) > draw) {
        reflect3_s(u, nm)
    } else {
        refract3_s(u, nm, ratio)
    }
}

/// Schlick's approximation: `r0 + (1 - r0) * (1 - cosine)^5` with
/// `r0 = ((1 - ref_idx) / (1 + ref_idx))^2`.
pub open spec fn reflectance_s(cosine: int, ref_idx: int) -> int {
    let q = fdiv_s((SCALE as int) - ref_idx, (SCALE as int) + ref_idx);
    let r0 = fmul_s(q, q);
    let w = (SCALE as int) - cosine;
    let p2 = fmul_s(w, w);
    let p4 = fmul_s(p2, p2);
    let p5 = fmul_s(p4, w);
    r0 + fmul_s((SCALE as int) - r0, p5)
}

/// A matched-index dielectric refracts a head-on ray straight through:
/// for a unit-scale normal, refracting `-n` about `n` with ratio one
/// returns `-n` unchanged.
pub proof fn lemma_refract_matched(n: (int, int, int))
    requires
        dot3_s(n, n) == SCALE as int,
    ensures
        refract3_s(neg3_s(n), n, SCALE as int) == neg3_s(n),
{
    let u = neg3_s(n);
    crate::hittable::lemma_dot3_s_neg(n, n);
    assert(dot3_s(neg3_s(u), n) == SCALE as int);
    let cos = spec_min(dot3_s(neg3_s(u), n), SCALE as int);
    assert(cos == SCALE as int);
    lemma_one_mul(n.0);
    lemma_one_mul(n.1);
    lemma_one_mul(n.2);
    assert(u.0 + fmul_s(cos, n.0) == 0);
    lemma_zero_mul();
    assert(fmul_s(SCALE as int, u.0 + fmul_s(cos, n.0)) == 0);
    assert(fmul_s(SCALE as int, u.1 + fmul_s(cos, n.1)) == 0);
    assert(fmul_s(SCALE as int, u.2 + fmul_s(cos, n.2)) == 0);
    let perp = (0int, 0int, 0int);
    assert(dot3_s(perp, perp) == 0) by {
        lemma_zero_mul();
    }
    assert(spec_abs((SCALE as int) - dot3_s(perp, perp)) == SCALE as int);
    assert(fsqrt_s(SCALE as int) == SCALE as int) by {
        assert(65536int * 65536 == 0x1_0000_0000);
        assert(65537int * 65537 == 0x1_0002_0001) by (nonlinear_arith);
        crate::fixed::lemma_sqrt_floor_unique(0x1_0000_0000nat, 65536nat);
    }
    assert(0int - fmul_s(SCALE as int, n.0) == u.0);
    assert(0int - fmul_s(SCALE as int, n.1) == u.1);
    assert(0int - fmul_s(SCALE as int, n.2) == u.2);
}

/// Multiplying a fixed-point value by one unit returns it unchanged.
pub proof fn lemma_one_mul(c: int)
    ensures
        fmul_s(SCALE as int, c) == c,
        fmul_s(c, SCALE as int) == c,
{
    if c >= 0 {
        vstd::arithmetic::div_mod::lemma_div_multiples_vanish(c, SCALE as int);
    } else {
        vstd::arithmetic::div_mod::lemma_div_multiples_vanish(-c, SCALE as int);
        assert(-((SCALE as int) * c) == (SCALE as int) * (-c)) by (nonlinear_arith);
    }
    assert(c * (SCALE as int) == (SCALE as int) * c);
}

/// Multiplying by a unit of either sign returns the value or its negation.
pub proof fn lemma_sign_unit_mul(c: int, s: int)
    requires
        s == SCALE as int || s == -(SCALE as int),
    ensures
        fmul_s(c, s) == if s == SCALE as int {
            c
        } else {
            -c
        },
        fmul_s(s, c) == if s == SCALE as int {
            c
        } else {
            -c
        },
{
    lemma_one_mul(c);
    if s == -(SCALE as int) {
        assert(c * s == -(c * (SCALE as int))) by (nonlinear_arith)
            requires s == -(SCALE as int);
        assert(s * c == -((SCALE as int) * c)) by (nonlinear_arith)
            requires s == -(SCALE as int);
        crate::fixed::lemma_div_t_neg(c * (SCALE as int), SCALE as int);
        crate::fixed::lemma_div_t_neg((SCALE as int) * c, SCALE as int);
    }
}

/// Multiplying by zero gives zero.
pub proof fn lemma_zero_mul()
    ensures
        forall|c: int| #[trigger] fmul_s(c, 0) == 0,
        forall|c: int| #[trigger] fmul_s(0, c) == 0,
{
    vstd::arithmetic::div_mod::lemma_div_of0(SCALE as int);
    assert forall|c: int| #[trigger] fmul_s(c, 0) == 0 by {
        assert(c * 0 == 0) by (nonlinear_arith);
    }
    assert forall|c: int| #[trigger] fmul_s(0, c) == 0 by {
        assert(0 * c == 0) by (nonlinear_arith);
    }
}

impl Lambertian {
    /// Diffuse scattering: the normal plus a random unit vector, falling
    /// back to the bare normal when the sum degenerates.  Never absorbs.
    pub fn scatter(&self, r_in: &Ray, rec: &HitRecord, rng: &mut RandomState) -> (res: Option<
        (Ray, Vec3),
    >)
        requires
            color3(self.albedo.m()),
            bounded3(rec.normal.m(), 2 * SCALE as int),
        ensures
            res is Some,
            res matches Some((sc, att)) ==> {
                &&& att == self.albedo
                &&& sc.orig == rec.p
                &&& bounded3(sc.dir.m(), 3 * SCALE as int)
                &&& (exists|u: (int, int, int)|
                    crate::vec3::is_unit_sample(u) && bounded3(u, SCALE as int) && sc.dir.m()
                        == #[trigger] lambertian_dir_s(rec.normal.m(), u))
            },
    {
        let ruv = Vec3::random_unit_vector(rng);
        let cand = rec.normal.add(ruv);
        let scatter_direction = if cand.near_zero() {
            rec.normal
        } else {
            cand
        };
        let scattered = Ray { orig: rec.p, dir: scatter_direction };
        proof {
            let u = ruv.m();
            assert(crate::vec3::is_unit_sample(u) && bounded3(u, SCALE as int)
                && scattered.dir.m() == lambertian_dir_s(rec.normal.m(), u));
        }
        Some((scattered, self.albedo))
    }
}

impl Metal {
    /// Mirror scattering with fuzz: reflect the unit incoming direction,
    /// perturb by `fuzz` times a random point of the unit ball, and absorb
    /// the ray when the result points into the surface.
    pub fn scatter(&self, r_in: &Ray, rec: &HitRecord, rng: &mut RandomState) -> (res: Option<
        (Ray, Vec3),
    >)
        requires
            color3(self.albedo.m()),
            0 <= self.fuzz <= SCALE,
            bounded3(rec.normal.m(), 2 * SCALE as int),
            bounded3(r_in.dir.m(), crate::fixed::FMAX as int),
            len3_s(r_in.dir.m()) >= 1,
        ensures
            res matches Some((sc, att)) ==> {
                &&& att == self.albedo
                &&& sc.orig == rec.p
                &&& bounded3(sc.dir.m(), 0x500000int)
                &&& dot3_s(sc.dir.m(), rec.normal.m()) > 0
            },
            exists|u: (int, int, int)|
                {
                    let dd = add3_s(
                        reflect3_s(unit3_s(r_in.dir.m()), rec.normal.m()),
                        #[trigger] smul3_s(u, self.fuzz as int),
                    );
                    &&& bounded3(u, SCALE as int)
                    &&& len3_s(u) <= SCALE as int
                    &&& (res is Some <==> dot3_s(dd, rec.normal.m()) > 0)
                    &&& (res matches Some((sc, _)) ==> sc.dir.m() == dd)
                },
            self.fuzz == 0 ==> {
                let refl = reflect3_s(unit3_s(r_in.dir.m()), rec.normal.m());
                &&& (res is Some <==> dot3_s(refl, rec.normal.m()) > 0)
                &&& (res matches Some((sc, _)) ==> sc.dir.m() == refl)
            },
    {
        let ud = unit_vector(r_in.direction());
        let reflected = reflect(&ud, &rec.normal);
        let rs = Vec3::random_in_unit_sphere(rng);
        proof {
            lemma_fmul_s_bound(rs.m().0, self.fuzz as int, SCALE as int, SCALE as int);
            lemma_fmul_s_bound(rs.m().1, self.fuzz as int, SCALE as int, SCALE as int);
            lemma_fmul_s_bound(rs.m().2, self.fuzz as int, SCALE as int, SCALE as int);
        }
        let fz = rs.mul_scalar(self.fuzz);
        let dir = reflected.add(fz);
        let scattered = Ray { orig: rec.p, dir };
        let d = dot(&scattered.direction(), &rec.normal);
        let res: Option<(Ray, Vec3)> = if d > 0 {
            Some((scattered, self.albedo))
        } else {
            None
        };
        proof {
            let u = rs.m();
            assert(scattered.dir.m() == add3_s(
                reflect3_s(unit3_s(r_in.dir.m()), rec.normal.m()),
                smul3_s(u, self.fuzz as int),
            ));
            assert(bounded3(u, SCALE as int) && len3_s(u) <= SCALE as int);
            if self.fuzz == 0 {
                lemma_zero_mul();
                assert(smul3_s(u, 0) == (0int, 0int, 0int));
                assert(scattered.dir.m() == reflect3_s(unit3_s(r_in.dir.m()), rec.normal.m()));
            }
        }
        res
    }
}

impl Dielectric {
    /// Schlick's reflectance approximation.
    fn reflectance(&self, cosine: i64, ref_idx: i64) -> (r: i64)
        requires
            SCALE / 4 <= ref_idx <= 4 * SCALE,
            -0xc0000 <= cosine <= SCALE,
        ensures
            r == reflectance_s(cosine as int, ref_idx as int),
    {
        proof {
            vstd::arithmetic::div_mod::lemma_div_is_ordered_by_denominator(
                0x3_0000_0000int,
                65536int,
                (SCALE as int) + ref_idx,
            );
            vstd::arithmetic::div_mod::lemma_div_multiples_vanish(0x30000int, 65536int);
            crate::fixed::lemma_div_t_bound(
                ((SCALE as int) - ref_idx) * (SCALE as int),
                (SCALE as int) + ref_idx,
                0x3_0000_0000int,
            );
            assert(((SCALE as int) - ref_idx) * (SCALE as int) <= 0x3_0000_0000int
                && -0x3_0000_0000int <= ((SCALE as int) - ref_idx) * (SCALE as int))
                by (nonlinear_arith)
                requires SCALE / 4 <= ref_idx <= 4 * SCALE && SCALE == 65536i64;
        }
        let q = fdiv(65536 - ref_idx, 65536 + ref_idx);
        proof {
            lemma_fmul_s_bound(q as int, q as int, 0x30000int, 0x30000int);
        }
        let r0 = fmul(q, q);
        let w = 65536 - cosine;
        proof {
            lemma_fmul_s_bound(w as int, w as int, 0xd0000int, 0xd0000int);
        }
        let p2 = fmul(w, w);
        proof {
            lemma_fmul_s_bound(p2 as int, p2 as int, 0xa90000int, 0xa90000int);
        }
        let p4 = fmul(p2, p2);
        proof {
            lemma_fmul_s_bound(p4 as int, w as int, 0x6f910000int, 0xd0000int);
        }
        let p5 = fmul(p4, w);
        proof {
            lemma_fmul_s_bound((SCALE as int) - r0, p5 as int, 0xa0000int, 0x5_aa66_d000int);
        }
        r0 + fmul(65536 - r0, p5)
    }

    /// Dielectric scattering: reflect under total internal reflection or a
    /// Schlick-weighted random draw, refract otherwise; at matched index
    /// (ir equal to one) the draw is bypassed and the ray always refracts.
    /// Never absorbs; attenuation is always opaque white.
    pub fn scatter(&self, r_in: &Ray, rec: &HitRecord, rng: &mut RandomState) -> (res: Option<
        (Ray, Vec3),
    >)
        requires
            SCALE / 2 <= self.ir <= 4 * SCALE,
            bounded3(rec.normal.m(), 2 * SCALE as int),
            bounded3(r_in.dir.m(), crate::fixed::FMAX as int),
            len3_s(r_in.dir.m()) >= 1,
        ensures
            res is Some,
            res matches Some((sc, att)) ==> {
                &&& att.m() == (SCALE as int, SCALE as int, SCALE as int)
                &&& sc.orig == rec.p
                &&& bounded3(sc.dir.m(), 0x2000000int)
            },
            res matches Some((sc, _)) ==> {
                let u = unit3_s(r_in.dir.m());
                let nm = rec.normal.m();
                let ratio = refraction_ratio_s(*self, rec.front_face);
                &&& sc.dir.m() == dielectric_dir_s(
                    *self,
                    u,
                    nm,
                    rec.front_face,
                    crate::rng::draw_s(old(rng).state as int, SCALE as int),
                )
                &&& (cannot_refract_s(*self, u, nm, rec.front_face) ==> sc.dir.m()
                    == reflect3_s(u, nm))
                &&& (sc.dir.m() == reflect3_s(u, nm) || sc.dir.m() == refract3_s(u, nm, ratio))
            },
            self.ir == SCALE ==> !cannot_refract_s(
                *self,
                unit3_s(r_in.dir.m()),
                rec.normal.m(),
                rec.front_face,
            ),
            self.ir == SCALE ==> (res matches Some((sc, _)) ==> sc.dir.m() == refract3_s(
                unit3_s(r_in.dir.m()),
                rec.normal.m(),
                SCALE as int,
            )),
    {
        let attenuation = Vec3 { x: 65536, y: 65536, z: 65536 };
        proof {
            vstd::arithmetic::div_mod::lemma_div_is_ordered_by_denominator(
                0x1_0000_0000int,
                32768int,
                self.ir as int,
            );
            vstd::arithmetic::div_mod::lemma_div_is_ordered_by_denominator(
                0x1_0000_0000int,
                self.ir as int,
                262144int,
            );
            vstd::arithmetic::div_mod::lemma_div_multiples_vanish(131072int, 32768int);
            vstd::arithmetic::div_mod::lemma_div_multiples_vanish(16384int, 262144int);
            vstd::arithmetic::div_mod::lemma_div_pos_is_pos(0x1_0000_0000int, self.ir as int);
        }
        let refraction_ratio = if rec.front_face {
            fdiv(65536, self.ir)
        } else {
            self.ir
        };
        proof {
            assert(16384 <= refraction_ratio as int <= 262144);
        }
        let unit_direction = unit_vector(r_in.direction());
        let neg_ud = unit_direction.neg();
        let dt = dot(&neg_ud, &rec.normal);
        proof {
            crate::fixed::lemma_mul_bounds(neg_ud.m().0, rec.normal.m().0, 0x10000, 0x20000);
            crate::fixed::lemma_mul_bounds(neg_ud.m().1, rec.normal.m().1, 0x10000, 0x20000);
            crate::fixed::lemma_mul_bounds(neg_ud.m().2, rec.normal.m().2, 0x10000, 0x20000);
            crate::fixed::lemma_div_t_bound(
                crate::vec3::dot_w(neg_ud.m(), rec.normal.m()),
                SCALE as int,
                3int * 0x10000 * 0x20000,
            );
        }
        let cos_theta = min(dt, 65536);
        proof {
            crate::fixed::lemma_mul_bounds(cos_theta as int, cos_theta as int, 0x60000, 0x60000);
            crate::fixed::lemma_div_t_bound(
                (cos_theta as int) * (cos_theta as int),
                SCALE as int,
                0x60000int * 0x60000,
            );
            assert((cos_theta as int) * (cos_theta as int) >= 0) by (nonlinear_arith);
        }
        let c2 = fmul(cos_theta, cos_theta);
        let argv: i64 = 65536 - c2;
        let arg: i64 = if argv >= 0 {
            argv
        } else {
            0
        };
        let sin_theta = crate::fixed::sqrt_fixed(arg);
        proof {
            assert(((arg as int) * (SCALE as int)) as nat <= 65536nat * 65536nat)
                by (nonlinear_arith)
                requires 0 <= arg <= 65536i64;
            crate::fixed::lemma_sqrt_floor_le(((arg as int) * (SCALE as int)) as nat, 65536nat);
            lemma_fmul_s_bound(refraction_ratio as int, sin_theta as int, 0x40000, 0x10000);
        }
        let cr = fmul(refraction_ratio, sin_theta) > 65536;
        let do_reflect: bool = if cr {
            true
        } else if self.ir == 65536 {
            false
        } else {
            let refl_p = self.reflectance(cos_theta, refraction_ratio);
            let draw = rng.next_fixed();
            refl_p > draw
        };
        let direction = if do_reflect {
            reflect(&unit_direction, &rec.normal)
        } else {
            refract(&unit_direction, &rec.normal, refraction_ratio)
        };
        let scattered = Ray { orig: rec.p, dir: direction };
        proof {
            if self.ir == SCALE {
                vstd::arithmetic::div_mod::lemma_div_multiples_vanish(65536int, 65536int);
                assert(refraction_ratio_s(*self, rec.front_face) == SCALE as int);
                lemma_one_mul(sin_theta as int);
                assert(fmul_s(SCALE as int, sin_theta as int) <= SCALE as int);
            }
            assert(scattered.dir.m() == dielectric_dir_s(
                *self,
                unit3_s(r_in.dir.m()),
                rec.normal.m(),
                rec.front_face,
                crate::rng::draw_s(old(rng).state as int, SCALE as int),
            ));
        }
        Some((scattered, attenuation))
    }
}

/// What scattering can produce, per material, with the random ingredients
/// existentially quantified: the relation every outcome of `scatter`
/// satisfies, and the one the path integrator's contract is built on.
pub open spec fn scatter_rel(
    mat: Material,
    r_in: Ray,
    rec: HitRecord,
    out: Option<(Ray, Vec3)>,
) -> bool {
    match mat {
        Material::Lambertian(l) => {
            &&& out is Some
            &&& (out matches Some((sc, att)) ==> {
                &&& att == l.albedo
                &&& sc.orig == rec.p
                &&& (exists|u: (int, int, int)|
                    crate::vec3::is_unit_sample(u) && sc.dir.m()
                        == #[trigger] lambertian_dir_s(rec.normal.m(), u))
            })
        },
        Material::Metal(m) => exists|u: (int, int, int)|
            {
                let dd = add3_s(
                    reflect3_s(unit3_s(r_in.dir.m()), rec.normal.m()),
                    #[trigger] smul3_s(u, m.fuzz as int),
                );
                &&& bounded3(u, SCALE as int)
                &&& len3_s(u) <= SCALE as int
                &&& (out is Some <==> dot3_s(dd, rec.normal.m()) > 0)
                &&& (out matches Some((sc, att)) ==> sc.dir.m() == dd && att == m.albedo
                    && sc.orig == rec.p)
            },
        Material::Dielectric(d) => {
            &&& out is Some
            &&& (out matches Some((sc, att)) ==> {
                &&& att.m() == (SCALE as int, SCALE as int, SCALE as int)
                &&& sc.orig == rec.p
                &&& (exists|draw: int|
                    0 <= draw < SCALE as int && sc.dir.m() == #[trigger] dielectric_dir_s(
                        d,
                        unit3_s(r_in.dir.m()),
                        rec.normal.m(),
                        rec.front_face,
                        draw,
                    ))
            })
        },
    }
}

impl Material {
    /// Scatter dispatch over the closed material set.
    pub fn scatter(&self, r_in: &Ray, rec: &HitRecord, rng: &mut RandomState) -> (res: Option<
        (Ray, Vec3),
    >)
        requires
            self.wf(),
            rec.mat == *self,
            bounded3(rec.normal.m(), 2 * SCALE as int),
            bounded3(r_in.dir.m(), crate::fixed::FMAX as int),
            len3_s(r_in.dir.m()) >= 1,
        ensures
            res matches Some((sc, att)) ==> {
                &&& color3(att.m())
                &&& sc.orig == rec.p
                &&& bounded3(sc.dir.m(), 0x2000000int)
            },
            self matches Material::Lambertian(_) ==> res is Some,
            self matches Material::Dielectric(_) ==> res is Some,
            scatter_rel(*self, *r_in, *rec, res),
    {
        match self {
            Material::Lambertian(l) => l.scatter(r_in, rec, rng),
            Material::Metal(m) => m.scatter(r_in, rec, rng),
            Material::Dielectric(d) => {
                let out = d.scatter(r_in, rec, rng);
                proof {
                    if let Some((sc, att)) = out {
                        let dv = crate::rng::draw_s(old(rng).state as int, SCALE as int);
                        lemma_draw_in_range(old(rng).state as int);
                        assert(0 <= dv < SCALE as int && sc.dir.m() == dielectric_dir_s(
                            *d,
                            unit3_s(r_in.dir.m()),
                            rec.normal.m(),
                            rec.front_face,
                            dv,
                        ));
                    }
                }
                out
            },
        }
    }
}

/// A Schlick draw lies in the unit interval.
pub proof fn lemma_draw_in_range(s: int)
    ensures
        0 <= crate::rng::draw_s(s, SCALE as int) < SCALE as int,
{
    let stepped = crate::rng::lcg_s(s);
    vstd::arithmetic::div_mod::lemma_mod_bound(
        s * 6364136223846793005 + 1442695040888963407,
        0x1_0000_0000_0000_0000,
    );
    vstd::arithmetic::div_mod::lemma_div_pos_is_pos(stepped, 65536int);
    vstd::arithmetic::div_mod::lemma_mod_bound(stepped / 65536, SCALE as int);
}

} // verus!
