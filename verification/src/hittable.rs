//! Hit records: what an intersection reports to the material system.

use vstd::prelude::*;
use crate::fixed::{div_t, FMAX, SCALE};
use crate::vec3::{bounded3, dot3_s, dot_w, neg3_s, Vec3};
use crate::ray::Ray;
use crate::material::Material;

verus! {

/// Magnitude cap on scene coordinates and hit points (1024 units).
pub const MAX_COORD: i64 = 0x400_0000;

/// Magnitude cap on ray-origin components accepted by hit testing.
pub const ORIG_CAP: i64 = 0x800_0000;

/// How far, at most, a reported hit normal's length may stray from one
/// unit (1/16 of a unit).
pub const NORM_TOL: i64 = 4096;

/// Magnitude cap on ray-direction components accepted by hit testing.
pub const DIR_CAP: i64 = 0x8000_0000;

/// Rounding toward zero is symmetric, so the rounded dot product flips sign
/// with either argument.
pub proof fn lemma_dot3_s_neg(u: (int, int, int), v: (int, int, int))
    ensures
        dot3_s(neg3_s(u), v) == -dot3_s(u, v),
{
    assert(dot_w(neg3_s(u), v) == -dot_w(u, v)) by (nonlinear_arith);
    let d = dot_w(u, v);
    if d >= 0 {
        assert(div_t(-d, SCALE as int) == -div_t(d, SCALE as int));
    } else {
        assert(div_t(-d, SCALE as int) == -div_t(d, SCALE as int));
    }
}

/// The rounded dot product is symmetric in its arguments.
pub proof fn lemma_dot3_s_sym(u: (int, int, int), v: (int, int, int))
    ensures
        dot3_s(u, v) == dot3_s(v, u),
{
    assert(dot_w(u, v) == dot_w(v, u)) by (nonlinear_arith);
}

#[derive(Clone, Copy, PartialEq, Eq, Structural, Debug)]
pub struct HitRecord {
    pub p: Vec3,
    pub normal: Vec3,
    pub t: i64,
    pub front_face: bool,
    pub mat: Material,
}

impl HitRecord {
    /// Store the normal on the side the ray came from: keep the outward
    /// normal when the ray arrives from outside, flip it otherwise.  The
    /// stored normal never points along the ray direction.
    pub fn set_face_normal(&mut self, r: &Ray, outward_normal: &Vec3)
        requires
            bounded3(r.dir.m(), FMAX as int),
            bounded3(outward_normal.m(), FMAX as int),
        ensures
            final(self).front_face == (dot3_s(r.dir.m(), outward_normal.m()) < 0),
            final(self).normal.m() == if final(self).front_face {
                outward_normal.m()
            } else {
                neg3_s(outward_normal.m())
            },
            dot3_s(final(self).normal.m(), r.dir.m()) <= 0,
            final(self).p == old(self).p,
            final(self).t == old(self).t,
            final(self).mat == old(self).mat,
    {
        let d = crate::vec3_utils::dot(&r.direction(), outward_normal);
        self.front_face = d < 0;
        self.normal = if self.front_face {
            *outward_normal
        } else {
            outward_normal.neg()
        };
        proof {
            lemma_dot3_s_sym(r.dir.m(), outward_normal.m());
            lemma_dot3_s_neg(outward_normal.m(), r.dir.m());
        }
    }
}

} // verus!
