//! Rays: an origin point and a direction vector.

use vstd::prelude::*;
use crate::fixed::{fmul, FMAX};
use crate::vec3::{add3_s, bounded3, smul3_s, Vec3};

verus! {

/// The point reached after travelling `t` along `d` from `o`.
pub open spec fn at3_s(o: (int, int, int), d: (int, int, int), t: int) -> (int, int, int) {
    add3_s(o, smul3_s(d, t))
}

#[derive(Clone, Copy, PartialEq, Eq, Structural, Debug)]
pub struct Ray {
    pub orig: Vec3,
    pub dir: Vec3,
}

impl Ray {
    pub fn origin(&self) -> (r: Vec3)
        ensures
            r == self.orig,
    {
        self.orig
    }

    pub fn direction(&self) -> (r: Vec3)
        ensures
            r == self.dir,
    {
        self.dir
    }

    /// `origin + t * direction`.
    pub fn at(&self, t: i64) -> (r: Vec3)
        requires
            bounded3(self.orig.m(), 0x2000_0000_0000_0000int),
            bounded3(self.dir.m(), FMAX as int),
            -FMAX <= t <= FMAX,
        ensures
            r.m() == at3_s(self.orig.m(), self.dir.m(), t as int),
    {
        Vec3 {
            x: self.orig.x + fmul(self.dir.x, t),
            y: self.orig.y + fmul(self.dir.y, t),
            z: self.orig.z + fmul(self.dir.z, t),
        }
    }
}

} // verus!
