//! Sphere geometry and the quadratic intersection routine.

use vstd::prelude::*;
use crate::fixed::{div_t, lemma_mul_bounds, sqrt_floor, FMAX, SCALE};
use crate::vec3::{
    bounded3, dot3_s, dot_w, lemma_len_w_nonneg, len3_s, len_w, neg3_s, sdiv3_s, sub3_s, Vec3,
};
use crate::ray::{at3_s, Ray};
use crate::material::Material;
use crate::hittable::{HitRecord, DIR_CAP, MAX_COORD, ORIG_CAP};

verus! {

#[derive(Clone, Copy, PartialEq, Eq, Structural, Debug)]
pub struct Sphere {
    pub center: Vec3,
    pub radius: i64,
    pub mat: Material,
}

/// The quadratic's leading coefficient: the wide squared length of the
/// direction.
pub open spec fn sphere_a_w(ray: Ray) -> int {
    dot_w(ray.dir.m(), ray.dir.m())
}

/// Origin minus center.
pub open spec fn sphere_oc(s: Sphere, ray: Ray) -> (int, int, int) {
    sub3_s(ray.orig.m(), s.center.m())
}

/// The quadratic's half linear coefficient, wide.
pub open spec fn sphere_hb_w(s: Sphere, ray: Ray) -> int {
    dot_w(sphere_oc(s, ray), ray.dir.m())
}

/// The quadratic's constant coefficient, wide.
pub open spec fn sphere_c_w(s: Sphere, ray: Ray) -> int {
    dot_w(sphere_oc(s, ray), sphere_oc(s, ray)) - (s.radius as int) * (s.radius as int)
}

/// The discriminant `half_b^2 - a * c`, wide (scale SCALE^4).
pub open spec fn sphere_disc(s: Sphere, ray: Ray) -> int {
    sphere_hb_w(s, ray) * sphere_hb_w(s, ray) - sphere_a_w(ray) * sphere_c_w(s, ray)
}

/// The smaller quadratic root, as a fixed-point ray parameter.
pub open spec fn sphere_root1(s: Sphere, ray: Ray) -> int {
    div_t(
        (-sphere_hb_w(s, ray) - sqrt_floor(sphere_disc(s, ray) as nat) as int) * (SCALE as int),
        sphere_a_w(ray),
    )
}

/// The larger quadratic root, as a fixed-point ray parameter.
pub open spec fn sphere_root2(s: Sphere, ray: Ray) -> int {
    div_t(
        (-sphere_hb_w(s, ray) + sqrt_floor(sphere_disc(s, ray) as nat) as int) * (SCALE as int),
        sphere_a_w(ray),
    )
}

/// The root the intersection reports, before any record is built: no root
/// for a degenerate direction or a negative discriminant; otherwise the
/// nearer root within `[t_min, t_max]`, falling back to the farther root.
pub open spec fn sphere_chosen_root(s: Sphere, ray: Ray, t_min: int, t_max: int) -> Option<
    int,
> {
    if sphere_a_w(ray) <= 0 {
        None
    } else if sphere_disc(s, ray) < 0 {
        None
    } else {
        let r1 = sphere_root1(s, ray);
        let r2 = sphere_root2(s, ray);
        if t_min <= r1 <= t_max {
            Some(r1)
        } else if t_min <= r2 <= t_max {
            Some(r2)
        } else {
            None
        }
    }
}

/// The record reported for a hit at parameter `t`: the hit point, the
/// outward normal `(p - center) / radius` corrected to the incoming side,
/// and the sphere's material.  A hit is discarded when the computed point
/// leaves the coordinate cap or the computed normal's length strays more
/// than NORM_TOL from one unit: with round-toward-zero arithmetic a nearly
/// degenerate direction can place the computed point arbitrarily far from
/// the sphere, and these caps are the machine limits the 64-bit fixed-point
/// pipeline relies on.
pub open spec fn hit_record_at(s: Sphere, ray: Ray, t: int) -> Option<HitRecord> {
    let p = at3_s(ray.orig.m(), ray.dir.m(), t);
    let ow = sdiv3_s(sub3_s(p, s.center.m()), s.radius as int);
    if bounded3(p, MAX_COORD as int) && bounded3(ow, 2 * SCALE as int) && (SCALE
        - crate::hittable::NORM_TOL) as int <= len3_s(ow) <= (SCALE
        + crate::hittable::NORM_TOL) as int {
        let ff = dot3_s(ray.dir.m(), ow) < 0;
        let nm = if ff {
            ow
        } else {
            neg3_s(ow)
        };
        Some(
            HitRecord {
                p: Vec3 { x: p.0 as i64, y: p.1 as i64, z: p.2 as i64 },
                normal: Vec3 { x: nm.0 as i64, y: nm.1 as i64, z: nm.2 as i64 },
                t: t as i64,
                front_face: ff,
                mat: s.mat,
            },
        )
    } else {
        None
    }
}

/// The whole intersection: no hit for a degenerate direction or a negative
/// discriminant; otherwise the nearer root within `[t_min, t_max]`, falling
/// back to the farther root, and no hit when both are outside.
pub open spec fn sphere_hit_s(s: Sphere, ray: Ray, t_min: int, t_max: int) -> Option<
    HitRecord,
> {
    match sphere_chosen_root(s, ray, t_min, t_max) {
        Some(t) => hit_record_at(s, ray, t),
        None => None,
    }
}

impl Sphere {
    /// Scene parameters the intersection contract relies on.
    pub open spec fn wf(self) -> bool {
        &&& bounded3(self.center.m(), MAX_COORD as int)
        &&& 1 <= self.radius <= MAX_COORD
        &&& self.mat.wf()
    }

    pub fn new(center: Vec3, radius: i64, mat: Material) -> (r: Sphere)
        ensures
            r.center == center && r.radius == radius && r.mat == mat,
    {
        Sphere { center, radius, mat }
    }

    /// The nearest intersection of `ray` with this sphere whose parameter
    /// lies in `[t_min, t_max]`, or no hit.
    pub fn hit(&self, ray: &Ray, t_min: i64, t_max: i64) -> (res: Option<HitRecord>)
        requires
            self.wf(),
            bounded3(ray.orig.m(), ORIG_CAP as int),
            bounded3(ray.dir.m(), DIR_CAP as int),
            0 <= t_min <= t_max <= FMAX,
        ensures
            res == sphere_hit_s(*self, *ray, t_min as int, t_max as int),
            match sphere_chosen_root(*self, *ray, t_min as int, t_max as int) {
                Some(t) => res == hit_record_at(*self, *ray, t),
                None => res is None,
            },
            res matches Some(rec) ==> {
                &&& t_min <= rec.t <= t_max
                &&& bounded3(rec.p.m(), MAX_COORD as int)
                &&& bounded3(rec.normal.m(), 2 * SCALE as int)
                &&& (SCALE - crate::hittable::NORM_TOL) as int <= len3_s(rec.normal.m())
                    <= (SCALE + crate::hittable::NORM_TOL) as int
                &&& dot3_s(rec.normal.m(), ray.dir.m()) <= 0
                &&& rec.mat == self.mat
            },
    {
        let oc = ray.origin().sub(self.center);
        let d = ray.direction();
        proof {
            lemma_mul_bounds(d.x as int, d.x as int, DIR_CAP as int, DIR_CAP as int);
            lemma_mul_bounds(d.y as int, d.y as int, DIR_CAP as int, DIR_CAP as int);
            lemma_mul_bounds(d.z as int, d.z as int, DIR_CAP as int, DIR_CAP as int);
            lemma_mul_bounds(oc.x as int, d.x as int, 0xc00_0000, DIR_CAP as int);
            lemma_mul_bounds(oc.y as int, d.y as int, 0xc00_0000, DIR_CAP as int);
            lemma_mul_bounds(oc.z as int, d.z as int, 0xc00_0000, DIR_CAP as int);
            lemma_mul_bounds(oc.x as int, oc.x as int, 0xc00_0000, 0xc00_0000);
            lemma_mul_bounds(oc.y as int, oc.y as int, 0xc00_0000, 0xc00_0000);
            lemma_mul_bounds(oc.z as int, oc.z as int, 0xc00_0000, 0xc00_0000);
            lemma_mul_bounds(self.radius as int, self.radius as int, MAX_COORD as int, MAX_COORD as int);
            lemma_len_w_nonneg(d.m());
            lemma_len_w_nonneg(oc.m());
        }
        let a: i128 = crate::fixed::wide_mul(d.x, d.x) + crate::fixed::wide_mul(d.y, d.y)
            + crate::fixed::wide_mul(d.z, d.z);
        if a == 0 {
            return None;
        }
        let hb: i128 = crate::fixed::wide_mul(oc.x, d.x) + crate::fixed::wide_mul(oc.y, d.y)
            + crate::fixed::wide_mul(oc.z, d.z);
        let cc: i128 = crate::fixed::wide_mul(oc.x, oc.x) + crate::fixed::wide_mul(oc.y, oc.y)
            + crate::fixed::wide_mul(oc.z, oc.z) - crate::fixed::wide_mul(self.radius, self.radius);
        proof {
            assert(a == len_w(d.m()));
            assert(0 <= a <= 0xc000_0000_0000_0000i128);
            assert(-0x1200_0000_0000_0000 <= hb <= 0x1200_0000_0000_0000i128);
            assert(-0x200_0000_0000_0000 <= cc <= 0x200_0000_0000_0000i128);
            assert(0 <= hb * hb <= 0x200_0000_0000_0000_0000_0000_0000_0000)
                by (nonlinear_arith)
                requires -0x1200_0000_0000_0000i128 <= hb <= 0x1200_0000_0000_0000i128;
            assert(-0x200_0000_0000_0000_0000_0000_0000_0000 <= a * cc
                <= 0x200_0000_0000_0000_0000_0000_0000_0000) by (nonlinear_arith)
                requires 0 <= a <= 0xc000_0000_0000_0000i128
                    && -0x200_0000_0000_0000i128 <= cc <= 0x200_0000_0000_0000i128;
        }
        let disc: i128 = hb * hb - a * cc;
        if disc < 0 {
            return None;
        }
        let sq = crate::fixed::isqrt(disc as u128);
        proof {
            assert(0 <= disc <= 0x400_0000_0000_0000_0000_0000_0000_0000i128);
            assert(0x2000_0000_0000_0000nat * 0x2000_0000_0000_0000nat
                == 0x400_0000_0000_0000_0000_0000_0000_0000nat) by (nonlinear_arith);
            assert((disc as u128) as nat
                <= 0x2000_0000_0000_0000nat * 0x2000_0000_0000_0000nat);
            crate::fixed::lemma_sqrt_floor_le((disc as u128) as nat, 0x2000_0000_0000_0000nat);
        }
        let sqw: i128 = sq as i128;
        let r1: i128 = crate::fixed::div_down((-hb - sqw) * 65536, a);
        proof {
            crate::fixed::lemma_div_t_bound(
                ((-hb - sqw) * 65536) as int,
                a as int,
                0x3300_0000_0000_0000_0000int * 65536,
            );
        }
        let root: i64;
        if t_min as i128 <= r1 && r1 <= t_max as i128 {
            root = r1 as i64;
        } else {
            let r2: i128 = crate::fixed::div_down((-hb + sqw) * 65536, a);
            proof {
                crate::fixed::lemma_div_t_bound(
                    ((-hb + sqw) * 65536) as int,
                    a as int,
                    0x3300_0000_0000_0000_0000int * 65536,
                );
            }
            if t_min as i128 <= r2 && r2 <= t_max as i128 {
                root = r2 as i64;
            } else {
                return None;
            }
        }
        let p = ray.at(root);
        if p.x < -MAX_COORD || p.x > MAX_COORD || p.y < -MAX_COORD || p.y > MAX_COORD
            || p.z < -MAX_COORD || p.z > MAX_COORD {
            return None;
        }
        let ow = p.sub(self.center).div_scalar(self.radius);
        if ow.x < -2 * SCALE || ow.x > 2 * SCALE || ow.y < -2 * SCALE || ow.y > 2 * SCALE
            || ow.z < -2 * SCALE || ow.z > 2 * SCALE {
            return None;
        }
        let owl = ow.length();
        if owl < 65536 - 4096 || owl > 65536 + 4096 {
            return None;
        }
        proof {
            crate::vec3::lemma_len3_neg(ow.m());
        }
        let mut rec = HitRecord {
            t: root,
            p,
            normal: Vec3 { x: 0, y: 0, z: 0 },
            front_face: false,
            mat: self.mat,
        };
        rec.set_face_normal(ray, &ow);
        proof {
            crate::hittable::lemma_dot3_s_sym(rec.normal.m(), ray.dir.m());
        }
        Some(rec)
    }
}

} // verus!
