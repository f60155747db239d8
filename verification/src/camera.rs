//! The camera: an orthonormal basis derived from look-from/look-at/up, a
//! focus-plane viewport, and a lens radius for depth of field.

use vstd::prelude::*;
use crate::fixed::{fdiv, fdiv_s, fmul, fmul_s, lemma_fmul_s_bound, SCALE};
use crate::vec3::{
    add3_s, bounded3, cross3_s, dot3_s, len3_s, sdiv3_s, smul3_s, sub3_s, unit3_s, Vec3,
};
use crate::vec3_utils::{cross, random_in_unit_disk, unit_vector};
use crate::ray::Ray;
use crate::rng::RandomState;
use crate::hittable::{DIR_CAP, ORIG_CAP};

verus! {

/// The lens offset for a disk sample `rd`: `u * (lens_radius * rd.x) + v *
/// (lens_radius * rd.y)`.
pub open spec fn camera_offset_s(cam: Camera, rd: (int, int, int)) -> (int, int, int) {
    add3_s(
        smul3_s(cam.u.m(), fmul_s(rd.0, cam.lens_radius as int)),
        smul3_s(cam.v.m(), fmul_s(rd.1, cam.lens_radius as int)),
    )
}

/// The ray direction for viewport coordinates `(s, t)` and a lens offset:
/// `lower_left + s * horizontal + t * vertical - origin - offset`.
pub open spec fn camera_dir_s(cam: Camera, s: int, t: int, offset: (int, int, int)) -> (
    int,
    int,
    int,
) {
    sub3_s(
        sub3_s(
            add3_s(
                add3_s(cam.lower_left_corner.m(), smul3_s(cam.horizontal.m(), s)),
                smul3_s(cam.vertical.m(), t),
            ),
            cam.origin.m(),
        ),
        offset,
    )
}

pub struct Camera {
    pub origin: Vec3,
    pub lower_left_corner: Vec3,
    pub horizontal: Vec3,
    pub vertical: Vec3,
    pub u: Vec3,
    pub v: Vec3,
    pub w: Vec3,
    pub lens_radius: i64,
}

impl Camera {
    /// Field magnitudes that keep every ray the camera builds within the
    /// caps of the hit-testing pipeline.
    pub open spec fn wf(self) -> bool {
        &&& bounded3(self.origin.m(), 0x400_0000int)
        &&& bounded3(self.lower_left_corner.m(), 0x4000_0000int)
        &&& bounded3(self.horizontal.m(), 0x1000_0000int)
        &&& bounded3(self.vertical.m(), 0x800_0000int)
        &&& bounded3(self.u.m(), SCALE as int)
        &&& bounded3(self.v.m(), 2 * SCALE as int)
        &&& bounded3(self.w.m(), SCALE as int)
        &&& 0 <= self.lens_radius <= 0x80_0000
    }

    /// Derive the camera from its configuration.  `tan_half_vfov` is the
    /// tangent of half the vertical field of view, as a fixed-point value.
    /// The magnitude caps on the inputs are headroom limits of the 64-bit
    /// fixed-point encoding: they keep every derived field and every ray
    /// the camera builds within the bounds the hit-testing pipeline
    /// requires.
    pub fn new(
        lookfrom: Vec3,
        lookat: Vec3,
        vup: Vec3,
        tan_half_vfov: i64,
        aspect_ratio: i64,
        aperture: i64,
        focus_dist: i64,
    ) -> (r: Camera)
        requires
            bounded3(lookfrom.m(), 0x400_0000int),
            bounded3(lookat.m(), 0x400_0000int),
            bounded3(vup.m(), 0x400_0000int),
            0 <= tan_half_vfov <= 4 * SCALE,
            0 < aspect_ratio <= 4 * SCALE,
            0 <= aperture <= 0x80_0000,
            1 <= focus_dist <= 0x80_0000,
            len3_s(sub3_s(lookfrom.m(), lookat.m())) >= 1,
            len3_s(cross3_s(vup.m(), unit3_s(sub3_s(lookfrom.m(), lookat.m())))) >= 1,
        ensures
            r.wf(),
            r.origin == lookfrom,
            r.w.m() == unit3_s(sub3_s(lookfrom.m(), lookat.m())),
            r.u.m() == unit3_s(cross3_s(vup.m(), r.w.m())),
            r.v.m() == cross3_s(r.w.m(), r.u.m()),
            r.lens_radius as int == fdiv_s(aperture as int, 2 * SCALE as int),
            r.horizontal.m() == smul3_s(
                r.u.m(),
                fmul_s(focus_dist as int, fmul_s(aspect_ratio as int, 2 * tan_half_vfov as int)),
            ),
            r.vertical.m() == smul3_s(
                r.v.m(),
                fmul_s(focus_dist as int, 2 * tan_half_vfov as int),
            ),
            r.lower_left_corner.m() == sub3_s(
                sub3_s(
                    sub3_s(lookfrom.m(), sdiv3_s(r.horizontal.m(), 2 * SCALE as int)),
                    sdiv3_s(r.vertical.m(), 2 * SCALE as int),
                ),
                smul3_s(r.w.m(), focus_dist as int),
            ),
    {
        let viewport_height: i64 = 2 * tan_half_vfov;
        proof {
            lemma_fmul_s_bound(aspect_ratio as int, viewport_height as int, 0x40000, 0x80000);
        }
        let viewport_width: i64 = fmul(aspect_ratio, viewport_height);
        let w = unit_vector(lookfrom.sub(lookat));
        let cu = cross(&vup, &w);
        proof {
            cross_bound(vup.m(), w.m());
        }
        let u = unit_vector(cu);
        let v = cross(&w, &u);
        proof {
            cross_bound_unit(w.m(), u.m());
            lemma_fmul_s_bound(focus_dist as int, viewport_width as int, 0x80_0000, 0x200000);
            lemma_fmul_s_bound(focus_dist as int, viewport_height as int, 0x80_0000, 0x80000);
        }
        let kh = fmul(focus_dist, viewport_width);
        let kv = fmul(focus_dist, viewport_height);
        proof {
            lemma_fmul_s_bound(u.m().0, kh as int, SCALE as int, 0x1000_0000);
            lemma_fmul_s_bound(u.m().1, kh as int, SCALE as int, 0x1000_0000);
            lemma_fmul_s_bound(u.m().2, kh as int, SCALE as int, 0x1000_0000);
            lemma_fmul_s_bound(v.m().0, kv as int, 2 * SCALE as int, 0x400_0000);
            lemma_fmul_s_bound(v.m().1, kv as int, 2 * SCALE as int, 0x400_0000);
            lemma_fmul_s_bound(v.m().2, kv as int, 2 * SCALE as int, 0x400_0000);
            lemma_fmul_s_bound(w.m().0, focus_dist as int, SCALE as int, 0x80_0000);
            lemma_fmul_s_bound(w.m().1, focus_dist as int, SCALE as int, 0x80_0000);
            lemma_fmul_s_bound(w.m().2, focus_dist as int, SCALE as int, 0x80_0000);
        }
        let origin = lookfrom;
        let horizontal = u.mul_scalar(kh);
        let vertical = v.mul_scalar(kv);
        let lower_left_corner = origin
            .sub(horizontal.div_scalar(131072))
            .sub(vertical.div_scalar(131072))
            .sub(w.mul_scalar(focus_dist));
        let lens_radius = fdiv(aperture, 131072);
        proof {
            crate::fixed::lemma_div_t_bound(
                (aperture as int) * (SCALE as int),
                2 * SCALE as int,
                0x80_0000int * 65536,
            );
            vstd::arithmetic::div_mod::lemma_div_multiples_vanish(0x40_0000int, 131072int);
            vstd::arithmetic::div_mod::lemma_div_pos_is_pos(
                (aperture as int) * (SCALE as int),
                2 * SCALE as int,
            );
            assert((aperture as int) * (SCALE as int) >= 0) by (nonlinear_arith)
                requires aperture >= 0i64;
            div2_bound(horizontal.m().0);
            div2_bound(horizontal.m().1);
            div2_bound(horizontal.m().2);
            div2_bound(vertical.m().0);
            div2_bound(vertical.m().1);
            div2_bound(vertical.m().2);
        }
        Camera { origin, horizontal, vertical, lower_left_corner, u, v, w, lens_radius }
    }

    /// The camera ray through viewport coordinates `(s, t)`, its origin
    /// jittered across the lens disk.
    pub fn get_ray(&self, s: i64, t: i64, rng: &mut RandomState) -> (r: Ray)
        requires
            self.wf(),
            0 <= s <= 2 * SCALE,
            0 <= t <= 2 * SCALE,
        ensures
            bounded3(r.orig.m(), ORIG_CAP as int),
            bounded3(r.dir.m(), DIR_CAP as int),
            exists|rd: (int, int, int)|
                {
                    &&& dot3_s(rd, rd) < SCALE as int
                    &&& rd.2 == 0
                    &&& bounded3(rd, SCALE as int)
                    &&& r.orig.m() == add3_s(
                        self.origin.m(),
                        #[trigger] camera_offset_s(*self, rd),
                    )
                    &&& r.dir.m() == camera_dir_s(*self, s as int, t as int, camera_offset_s(*self, rd))
                },
            self.lens_radius == 0 ==> r.orig == self.origin && r.dir.m() == camera_dir_s(
                *self,
                s as int,
                t as int,
                (0int, 0int, 0int),
            ),
    {
        let disk = random_in_unit_disk(rng);
        proof {
            lemma_fmul_s_bound(disk.m().0, self.lens_radius as int, SCALE as int, 0x80_0000);
            lemma_fmul_s_bound(disk.m().1, self.lens_radius as int, SCALE as int, 0x80_0000);
            lemma_fmul_s_bound(disk.m().2, self.lens_radius as int, SCALE as int, 0x80_0000);
        }
        let rd = disk.mul_scalar(self.lens_radius);
        proof {
            lemma_fmul_s_bound(self.u.m().0, rd.m().0, SCALE as int, 0x80_0000);
            lemma_fmul_s_bound(self.u.m().1, rd.m().0, SCALE as int, 0x80_0000);
            lemma_fmul_s_bound(self.u.m().2, rd.m().0, SCALE as int, 0x80_0000);
            lemma_fmul_s_bound(self.v.m().0, rd.m().1, 2 * SCALE as int, 0x80_0000);
            lemma_fmul_s_bound(self.v.m().1, rd.m().1, 2 * SCALE as int, 0x80_0000);
            lemma_fmul_s_bound(self.v.m().2, rd.m().1, 2 * SCALE as int, 0x80_0000);
        }
        let offset = self.u.mul_scalar(rd.x).add(self.v.mul_scalar(rd.y));
        proof {
            lemma_fmul_s_bound(self.horizontal.m().0, s as int, 0x1000_0000, 2 * SCALE as int);
            lemma_fmul_s_bound(self.horizontal.m().1, s as int, 0x1000_0000, 2 * SCALE as int);
            lemma_fmul_s_bound(self.horizontal.m().2, s as int, 0x1000_0000, 2 * SCALE as int);
            lemma_fmul_s_bound(self.vertical.m().0, t as int, 0x800_0000, 2 * SCALE as int);
            lemma_fmul_s_bound(self.vertical.m().1, t as int, 0x800_0000, 2 * SCALE as int);
            lemma_fmul_s_bound(self.vertical.m().2, t as int, 0x800_0000, 2 * SCALE as int);
        }
        let dir = self
            .lower_left_corner
            .add(self.horizontal.mul_scalar(s))
            .add(self.vertical.mul_scalar(t))
            .sub(self.origin)
            .sub(offset);
        let orig = self.origin.add(offset);
        let ray = Ray { orig, dir };
        proof {
            let rdm = disk.m();
            assert(dot3_s(rdm, rdm) < SCALE as int && rdm.2 == 0 && bounded3(rdm, SCALE as int)
                && ray.orig.m() == add3_s(self.origin.m(), camera_offset_s(*self, rdm))
                && ray.dir.m() == camera_dir_s(
                *self,
                s as int,
                t as int,
                camera_offset_s(*self, rdm),
            ));
            if self.lens_radius == 0 {
                crate::material::lemma_zero_mul();
            }
        }
        ray
    }
}

/// Each component of a cross product of vectors bounded by `ma` and `mb`
/// is below `2 * ma * mb / SCALE`.
proof fn cross_bound(a: (int, int, int), b: (int, int, int))
    requires
        bounded3(a, 0x400_0000int),
        bounded3(b, SCALE as int),
    ensures
        bounded3(cross3_s(a, b), 2 * SCALE as int * 0x400),
{
    cross_term_bound(a.1, b.2, a.2, b.1);
    cross_term_bound(a.2, b.0, a.0, b.2);
    cross_term_bound(a.0, b.1, a.1, b.0);
}

proof fn cross_term_bound(x: int, y: int, z: int, w: int)
    requires
        -0x400_0000 <= x <= 0x400_0000,
        -0x400_0000 <= z <= 0x400_0000,
        -(SCALE as int) <= y <= SCALE as int,
        -(SCALE as int) <= w <= SCALE as int,
    ensures
        -(2 * SCALE as int * 0x400) <= crate::fixed::div_t(x * y - z * w, SCALE as int) <= 2
            * SCALE as int * 0x400,
{
    crate::fixed::lemma_mul_bounds(x, y, 0x400_0000, SCALE as int);
    crate::fixed::lemma_mul_bounds(z, w, 0x400_0000, SCALE as int);
    crate::fixed::lemma_div_t_bound(x * y - z * w, SCALE as int, 2 * 0x400_0000 * (SCALE as int));
}

/// A cross product of two unit-scale vectors stays within two units.
proof fn cross_bound_unit(a: (int, int, int), b: (int, int, int))
    requires
        bounded3(a, SCALE as int),
        bounded3(b, SCALE as int),
    ensures
        bounded3(cross3_s(a, b), 2 * SCALE as int),
{
    cross_term_bound_unit(a.1, b.2, a.2, b.1);
    cross_term_bound_unit(a.2, b.0, a.0, b.2);
    cross_term_bound_unit(a.0, b.1, a.1, b.0);
}

proof fn cross_term_bound_unit(x: int, y: int, z: int, w: int)
    requires
        -(SCALE as int) <= x <= SCALE as int,
        -(SCALE as int) <= z <= SCALE as int,
        -(SCALE as int) <= y <= SCALE as int,
        -(SCALE as int) <= w <= SCALE as int,
    ensures
        -(2 * SCALE as int) <= crate::fixed::div_t(x * y - z * w, SCALE as int) <= 2 * (
        SCALE as int),
{
    crate::fixed::lemma_mul_bounds(x, y, SCALE as int, SCALE as int);
    crate::fixed::lemma_mul_bounds(z, w, SCALE as int, SCALE as int);
    crate::fixed::lemma_div_t_bound(x * y - z * w, SCALE as int, 2 * (SCALE as int) * (SCALE as int));
    vstd::arithmetic::div_mod::lemma_div_multiples_vanish(2 * SCALE as int, SCALE as int);
}

/// Halving by the fixed-point divide keeps a magnitude bound.
proof fn div2_bound(c: int)
    requires
        -0x1000_0000 <= c <= 0x1000_0000,
    ensures
        -0x1000_0000 <= fdiv_s(c, 2 * SCALE as int) <= 0x1000_0000,
{
    crate::fixed::lemma_div_t_bound(
        c * (SCALE as int),
        2 * SCALE as int,
        0x1000_0000int * 65536,
    );
    vstd::arithmetic::div_mod::lemma_div_is_ordered_by_denominator(
        0x1000_0000int * 65536,
        65536int,
        2 * SCALE as int,
    );
    vstd::arithmetic::div_mod::lemma_div_multiples_vanish(0x1000_0000int, 65536int);
}

} // verus!
