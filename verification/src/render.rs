//! The path integrator and the render driver.

use vstd::prelude::*;
use crate::fixed::{fdiv, fdiv_s, fmul_s, lemma_div_t_bound, SCALE};
use crate::vec3::{
    add3_s, bounded3, dot3_s, len3_s, mul3_s, sdiv3_s, smul3_s, unit3_s, Vec3,
};
use crate::vec3_utils::unit_vector;
use crate::ray::Ray;
use crate::rng::RandomState;
use crate::material::{color3, scatter_rel};
use crate::sphere::Sphere;
use crate::hittable::HitRecord;
use crate::hittable_list::{list_hit_s, HittableList};
use crate::camera::{camera_dir_s, camera_offset_s, Camera};

verus! {

/// Lower hit bound that suppresses self-intersection of scattered rays
/// (about 0.001 units).
pub const T_MIN_HIT: i64 = 66;

/// Stand-in for an unbounded upper hit parameter.
pub const T_INF: i64 = 0x40_0000_0000;

/// The sky gradient for a unit direction: white at the horizon blending to
/// sky blue straight up, by `t = (dir.y + 1) / 2`.
pub open spec fn sky_color_s(u: (int, int, int)) -> (int, int, int) {
    let t = fdiv_s(u.1 + SCALE as int, 2 * SCALE as int);
    add3_s(
        smul3_s((SCALE as int, SCALE as int, SCALE as int), SCALE as int - t),
        smul3_s((SCALE as int / 2, 45875int, SCALE as int), t),
    )
}

/// A fixed-point product of two unit-interval values stays in the unit
/// interval, below either factor.
pub proof fn lemma_fmul_color(a: int, b: int)
    requires
        0 <= a <= SCALE as int,
        0 <= b <= SCALE as int,
    ensures
        0 <= fmul_s(a, b) <= b,
        fmul_s(a, b) <= SCALE as int,
{
    assert(0 <= a * b <= (SCALE as int) * b) by (nonlinear_arith)
        requires 0 <= a <= SCALE as int && 0 <= b;
    vstd::arithmetic::div_mod::lemma_div_is_ordered(a * b, (SCALE as int) * b, SCALE as int);
    vstd::arithmetic::div_mod::lemma_div_multiples_vanish(b, SCALE as int);
    vstd::arithmetic::div_mod::lemma_div_pos_is_pos(a * b, SCALE as int);
}

/// One bounce per entry: the ray the material scattered, the attenuation
/// it applied, and the color the scattered ray produced at the remaining
/// depth.  The relation walks the trace: black once the depth budget is
/// spent or the direction is degenerate, the sky gradient on a miss, black
/// on absorption, and otherwise the attenuation times the next color, with
/// every bounce an outcome the hit material admits.
pub open spec fn trace_rel(
    objs: Seq<Sphere>,
    r: Ray,
    steps: Seq<(Ray, Vec3, (int, int, int))>,
    depth: int,
    res: (int, int, int),
) -> bool
    decreases steps.len(),
{
    if depth <= 0 {
        steps.len() == 0 && res == (0int, 0int, 0int)
    } else if len3_s(r.dir.m()) == 0 {
        steps.len() == 0 && res == (0int, 0int, 0int)
    } else {
        match list_hit_s(objs, r, T_MIN_HIT as int, T_INF as int) {
            None => steps.len() == 0 && res == sky_color_s(unit3_s(r.dir.m())),
            Some(rec) => {
                if steps.len() == 0 {
                    scatter_rel(rec.mat, r, rec, None::<(Ray, Vec3)>) && res == (
                        0int,
                        0int,
                        0int,
                    )
                } else {
                    let sc = steps[0].0;
                    let att = steps[0].1;
                    let c2 = steps[0].2;
                    &&& scatter_rel(rec.mat, r, rec, Some((sc, att)))
                    &&& color3(c2)
                    &&& trace_rel(objs, sc, steps.subrange(1, steps.len() as int), depth - 1, c2)
                    &&& res == mul3_s(att.m(), c2)
                }
            },
        }
    }
}

/// What the path integrator can return: some bounce trace, each bounce an
/// outcome the hit material admits, explains the color.
pub open spec fn ray_color_rel(r: Ray, objs: Seq<Sphere>, depth: int, res: (int, int, int)) -> bool {
    exists|steps: Seq<(Ray, Vec3, (int, int, int))>|
        #[trigger] trace_rel(objs, r, steps, depth, res)
}

/// The recursive path integrator, returning its color together with the
/// bounce trace that witnesses the integrator relation.
fn ray_color_traced(r: &Ray, world: &HittableList, depth: i32, rng: &mut RandomState) -> (res: (
    Vec3,
    Ghost<Seq<(Ray, Vec3, (int, int, int))>>,
))
    requires
        world.wf(),
        bounded3(r.orig.m(), crate::hittable::ORIG_CAP as int),
        bounded3(r.dir.m(), crate::hittable::DIR_CAP as int),
    ensures
        color3(res.0.m()),
        trace_rel(world.objects@, *r, res.1@, depth as int, res.0.m()),
        depth <= 0 ==> res.0.m() == (0int, 0int, 0int),
        depth > 0 && len3_s(r.dir.m()) == 0 ==> res.0.m() == (0int, 0int, 0int),
        depth > 0 && len3_s(r.dir.m()) >= 1 && list_hit_s(
            world.objects@,
            *r,
            T_MIN_HIT as int,
            T_INF as int,
        ) is None ==> res.0.m() == sky_color_s(unit3_s(r.dir.m())),
    decreases depth,
{
    if depth <= 0 {
        return (Vec3::new(), Ghost(Seq::empty()));
    }
    let ell = r.direction().length();
    if ell == 0 {
        return (Vec3::new(), Ghost(Seq::empty()));
    }
    match world.hit(r, T_MIN_HIT, T_INF) {
        None => {
            let ud = unit_vector(r.direction());
            proof {
                lemma_div_t_bound(
                    (ud.m().1 + SCALE as int) * (SCALE as int),
                    2 * SCALE as int,
                    0x2_0000int * 65536,
                );
                vstd::arithmetic::div_mod::lemma_div_pos_is_pos(
                    (ud.m().1 + SCALE as int) * (SCALE as int),
                    2 * SCALE as int,
                );
                assert((ud.m().1 + SCALE as int) * (SCALE as int) >= 0) by (nonlinear_arith)
                    requires ud.m().1 + SCALE as int >= 0;
                vstd::arithmetic::div_mod::lemma_div_is_ordered(
                    (ud.m().1 + SCALE as int) * (SCALE as int),
                    (2 * SCALE as int) * (SCALE as int),
                    2 * SCALE as int,
                );
                assert((ud.m().1 + SCALE as int) * (SCALE as int)
                    <= (2 * SCALE as int) * (SCALE as int)) by (nonlinear_arith)
                    requires ud.m().1 <= SCALE as int;
                vstd::arithmetic::div_mod::lemma_div_multiples_vanish(
                    SCALE as int,
                    2 * SCALE as int,
                );
            }
            let t = fdiv(ud.y + 65536, 131072);
            let white = Vec3 { x: 65536, y: 65536, z: 65536 };
            let blue = Vec3 { x: 32768, y: 45875, z: 65536 };
            proof {
                crate::material::lemma_one_mul(SCALE as int - t);
                lemma_fmul_color(32768int, t as int);
                lemma_fmul_color(45875int, t as int);
                crate::material::lemma_one_mul(t as int);
            }
            let c = white.mul_scalar(65536 - t).add(blue.mul_scalar(t));
            (c, Ghost(Seq::empty()))
        },
        Some(rec) => {
            match rec.mat.scatter(r, &rec, rng) {
                None => (Vec3::new(), Ghost(Seq::empty())),
                Some((scattered, attenuation)) => {
                    let (c2, tr2) = ray_color_traced(&scattered, world, depth - 1, rng);
                    proof {
                        lemma_fmul_color(attenuation.m().0, c2.m().0);
                        lemma_fmul_color(attenuation.m().1, c2.m().1);
                        lemma_fmul_color(attenuation.m().2, c2.m().2);
                    }
                    let prod = attenuation.mul(c2);
                    let ghost steps = seq![(scattered, attenuation, c2.m())].add(tr2@);
                    proof {
                        assert(steps.subrange(1, steps.len() as int) =~= tr2@);
                        assert(steps[0] == (scattered, attenuation, c2.m()));
                        assert(trace_rel(world.objects@, *r, steps, depth as int, prod.m()));
                    }
                    (prod, Ghost(steps))
                },
            }
        },
    }
}

/// The recursive path integrator: black once the depth budget is spent or
/// the ray is degenerate, the sky gradient on a miss, black on absorption,
/// and otherwise the scattered ray's color filtered by the attenuation, as
/// the integrator relation states.
pub fn ray_color(r: &Ray, world: &HittableList, depth: i32, rng: &mut RandomState) -> (res:
    Vec3)
    requires
        world.wf(),
        bounded3(r.orig.m(), crate::hittable::ORIG_CAP as int),
        bounded3(r.dir.m(), crate::hittable::DIR_CAP as int),
    ensures
        color3(res.m()),
        depth <= 0 ==> res.m() == (0int, 0int, 0int),
        depth > 0 && len3_s(r.dir.m()) == 0 ==> res.m() == (0int, 0int, 0int),
        depth > 0 && len3_s(r.dir.m()) >= 1 && list_hit_s(
            world.objects@,
            *r,
            T_MIN_HIT as int,
            T_INF as int,
        ) is None ==> res.m() == sky_color_s(unit3_s(r.dir.m())),
        ray_color_rel(*r, world.objects@, depth as int, res.m()),
{
    let (c, tr) = ray_color_traced(r, world, depth, rng);
    proof {
        assert(trace_rel(world.objects@, *r, tr@, depth as int, c.m()));
    }
    c
}

/// Fixed render parameters: image size, the per-pixel sample budget, and
/// the recursion depth budget.
#[derive(Clone, Copy, PartialEq, Eq, Structural, Debug)]
pub struct RenderConfig {
    pub image_width: u32,
    pub image_height: u32,
    pub samples_per_pixel: u32,
    pub max_depth: i32,
}

impl RenderConfig {
    pub open spec fn wf(self) -> bool {
        &&& 1 <= self.image_width <= 65536
        &&& 1 <= self.image_height <= 65536
        &&& 1 <= self.samples_per_pixel <= 16384
    }
}

/// One viewport coordinate: `(k + jitter) / (limit - 1)`, with a
/// denominator floor of one so single-pixel images stay defined.
pub open spec fn pixel_coord_s(k: int, limit: int, jitter: int) -> int {
    let den = if limit > 1 {
        limit - 1
    } else {
        1int
    };
    fdiv_s(k * (SCALE as int) + jitter, den * (SCALE as int))
}

fn pixel_coord(k: u32, limit: u32, jitter: i64) -> (r: i64)
    requires
        k < limit,
        limit <= 65536,
        0 <= jitter < SCALE,
    ensures
        r == pixel_coord_s(k as int, limit as int, jitter as int),
        0 <= r <= 2 * SCALE,
{
    let den: i64 = if limit > 1 {
        (limit - 1) as i64
    } else {
        1
    };
    let num: i64 = (k as i64) * 65536 + jitter;
    proof {
        lemma_div_t_bound(
            (num as int) * (SCALE as int),
            (den as int) * 65536,
            0x1_0001_0000int * 65536,
        );
        vstd::arithmetic::div_mod::lemma_div_pos_is_pos(
            (num as int) * (SCALE as int),
            (den as int) * 65536,
        );
        assert((num as int) * (SCALE as int) >= 0) by (nonlinear_arith)
            requires num >= 0i64;
        assert((num as int) * (SCALE as int) <= ((den as int) * 65536) * (2 * SCALE as int))
            by (nonlinear_arith)
            requires num <= 2 * (den as int) * 65536 && den >= 1i64 && SCALE == 65536i64;
        assert(num <= 2 * (den as int) * 65536) by (nonlinear_arith)
            requires (k as int) <= den as int && jitter < 65536i64 && den >= 1i64
                && num == (k as int) * 65536 + jitter;
        vstd::arithmetic::div_mod::lemma_div_is_ordered(
            (num as int) * (SCALE as int),
            ((den as int) * 65536) * (2 * SCALE as int),
            (den as int) * 65536,
        );
        vstd::arithmetic::div_mod::lemma_div_multiples_vanish(
            2 * SCALE as int,
            (den as int) * 65536,
        );
    }
    fdiv(num, den * 65536)
}

/// The componentwise sum of a sequence of colors.
pub open spec fn sum3(cs: Seq<(int, int, int)>) -> (int, int, int)
    decreases cs.len(),
{
    if cs.len() == 0 {
        (0int, 0int, 0int)
    } else {
        add3_s(sum3(cs.drop_last()), cs.last())
    }
}

/// One Monte Carlo sample of a pixel: for some jitters in the unit
/// interval and some lens-disk point, the color is one the integrator
/// relation admits for the camera ray through the jittered coordinates.
pub open spec fn sample_rel(
    objs: Seq<Sphere>,
    cam: Camera,
    cfg: RenderConfig,
    x: int,
    y: int,
    c: (int, int, int),
) -> bool {
    exists|ju: int, jv: int, rd: (int, int, int), ray: Ray|
        #![trigger pixel_coord_s(x, cfg.image_width as int, ju), pixel_coord_s(y, cfg.image_height as int, jv), camera_offset_s(cam, rd), ray_color_rel(ray, objs, cfg.max_depth as int, c)]
        {
            &&& 0 <= ju < SCALE as int
            &&& 0 <= jv < SCALE as int
            &&& dot3_s(rd, rd) < SCALE as int
            &&& rd.2 == 0
            &&& bounded3(rd, SCALE as int)
            &&& ray.orig.m() == add3_s(cam.origin.m(), camera_offset_s(cam, rd))
            &&& ray.dir.m() == camera_dir_s(
                cam,
                pixel_coord_s(x, cfg.image_width as int, ju),
                pixel_coord_s(y, cfg.image_height as int, jv),
                camera_offset_s(cam, rd),
            )
            &&& ray_color_rel(ray, objs, cfg.max_depth as int, c)
        }
}

/// A pixel's value: the sum of `samples_per_pixel` admissible sample
/// colors, divided by the sample count.
pub open spec fn pixel_rel(
    objs: Seq<Sphere>,
    cam: Camera,
    cfg: RenderConfig,
    x: int,
    y: int,
    res: (int, int, int),
) -> bool {
    exists|cs: Seq<(int, int, int)>|
        #![trigger sum3(cs)]
        {
            &&& cs.len() == cfg.samples_per_pixel
            &&& (forall|i: int| 0 <= i < cs.len() ==> sample_rel(objs, cam, cfg, x, y, #[trigger] cs[i]))
            &&& res == sdiv3_s(sum3(cs), (cfg.samples_per_pixel as int) * (SCALE as int))
        }
}

/// A whole row: width pixels, each satisfying the pixel relation at its
/// coordinate.
pub open spec fn row_ok(
    objs: Seq<Sphere>,
    cam: Camera,
    cfg: RenderConfig,
    y: int,
    row: Seq<Vec3>,
) -> bool {
    &&& row.len() == cfg.image_width
    &&& (forall|i: int| 0 <= i < row.len() ==> color3((#[trigger] row[i]).m()))
    &&& (forall|i: int| 0 <= i < row.len() ==> pixel_rel(objs, cam, cfg, i, y, (#[trigger] row[i]).m()))
}

/// The averaged color of one pixel: `samples_per_pixel` jittered camera
/// rays, each traced to the depth budget, averaged.
pub fn render_pixel(
    world: &HittableList,
    cam: &Camera,
    cfg: &RenderConfig,
    x: u32,
    y: u32,
    rng: &mut RandomState,
) -> (res: Vec3)
    requires
        world.wf(),
        cam.wf(),
        cfg.wf(),
        x < cfg.image_width,
        y < cfg.image_height,
    ensures
        color3(res.m()),
        pixel_rel(world.objects@, *cam, *cfg, x as int, y as int, res.m()),
{
    let mut total = Vec3::new();
    let samples = cfg.samples_per_pixel;
    let mut sidx: u32 = 0;
    let ghost mut cs: Seq<(int, int, int)> = Seq::empty();
    while sidx < samples
        invariant
            sidx <= samples,
            samples <= 16384,
            world.wf(),
            cam.wf(),
            cfg.wf(),
            x < cfg.image_width,
            y < cfg.image_height,
            samples == cfg.samples_per_pixel,
            0 <= total.m().0 <= (sidx as int) * (SCALE as int),
            0 <= total.m().1 <= (sidx as int) * (SCALE as int),
            0 <= total.m().2 <= (sidx as int) * (SCALE as int),
            cs.len() == sidx,
            total.m() == sum3(cs),
            forall|i: int| 0 <= i < cs.len() ==> sample_rel(
                world.objects@,
                *cam,
                *cfg,
                x as int,
                y as int,
                #[trigger] cs[i],
            ),
        decreases samples - sidx,
    {
        let ju = rng.next_fixed();
        let jv = rng.next_fixed();
        let u = pixel_coord(x, cfg.image_width, ju);
        let v = pixel_coord(y, cfg.image_height, jv);
        let ray = cam.get_ray(u, v, rng);
        let col = ray_color(&ray, world, cfg.max_depth, rng);
        proof {
            assert((sidx as int) * (SCALE as int) + (SCALE as int)
                == (sidx as int + 1) * (SCALE as int)) by (nonlinear_arith);
            assert((sidx as int) * (SCALE as int) <= 16384 * 65536) by (nonlinear_arith)
                requires sidx <= 16384u32;
            let rd = choose|rd: (int, int, int)|
                {
                    &&& dot3_s(rd, rd) < SCALE as int
                    &&& rd.2 == 0
                    &&& bounded3(rd, SCALE as int)
                    &&& ray.orig.m() == add3_s(
                        cam.origin.m(),
                        #[trigger] camera_offset_s(*cam, rd),
                    )
                    &&& ray.dir.m() == camera_dir_s(
                        *cam,
                        u as int,
                        v as int,
                        camera_offset_s(*cam, rd),
                    )
                };
            assert(ray.dir.m() == camera_dir_s(
                *cam,
                pixel_coord_s(x as int, cfg.image_width as int, ju as int),
                pixel_coord_s(y as int, cfg.image_height as int, jv as int),
                camera_offset_s(*cam, rd),
            ));
            assert(sample_rel(world.objects@, *cam, *cfg, x as int, y as int, col.m()));
        }
        total = total.add(col);
        proof {
            let cs0 = cs;
            cs = cs.push(col.m());
            assert(cs.drop_last() =~= cs0);
            assert(cs.last() == col.m());
            assert(sum3(cs) == add3_s(sum3(cs0), col.m()));
        }
        sidx = sidx + 1;
    }
    proof {
        assert((samples as int) * (SCALE as int) <= 16384 * 65536) by (nonlinear_arith)
            requires samples <= 16384u32;
        avg_bound(total.m().0, samples as int);
        avg_bound(total.m().1, samples as int);
        avg_bound(total.m().2, samples as int);
    }
    let avg = total.div_scalar((samples as i64) * 65536);
    proof {
        assert((samples as i64 * 65536) as int == (cfg.samples_per_pixel as int) * (
        SCALE as int));
        assert(avg.m() == sdiv3_s(sum3(cs), (cfg.samples_per_pixel as int) * (SCALE as int)));
        assert(pixel_rel(world.objects@, *cam, *cfg, x as int, y as int, avg.m()));
    }
    avg
}

/// Dividing an accumulated color by the sample count lands in the unit
/// interval.
proof fn avg_bound(c: int, n: int)
    requires
        1 <= n <= 16384,
        0 <= c <= n * (SCALE as int),
    ensures
        0 <= fdiv_s(c, n * (SCALE as int)) <= SCALE as int,
{
    assert(c * (SCALE as int) <= (n * (SCALE as int)) * (SCALE as int)) by (nonlinear_arith)
        requires 0 <= c <= n * (SCALE as int) && SCALE == 65536i64;
    assert(c * (SCALE as int) >= 0) by (nonlinear_arith)
        requires c >= 0;
    vstd::arithmetic::div_mod::lemma_div_is_ordered(
        c * (SCALE as int),
        (n * (SCALE as int)) * (SCALE as int),
        n * (SCALE as int),
    );
    vstd::arithmetic::div_mod::lemma_div_multiples_vanish(SCALE as int, n * (SCALE as int));
    vstd::arithmetic::div_mod::lemma_div_pos_is_pos(c * (SCALE as int), n * (SCALE as int));
}

/// One image row of averaged pixel colors, left to right.
pub fn render_row(
    world: &HittableList,
    cam: &Camera,
    cfg: &RenderConfig,
    y: u32,
    rng: &mut RandomState,
) -> (res: Vec<Vec3>)
    requires
        world.wf(),
        cam.wf(),
        cfg.wf(),
        y < cfg.image_height,
    ensures
        res@.len() == cfg.image_width,
        forall|i: int| 0 <= i < res@.len() ==> color3(#[trigger] res@[i].m()),
        row_ok(world.objects@, *cam, *cfg, y as int, res@),
{
    let mut row: Vec<Vec3> = Vec::new();
    let mut x: u32 = 0;
    while x < cfg.image_width
        invariant
            x <= cfg.image_width,
            world.wf(),
            cam.wf(),
            cfg.wf(),
            y < cfg.image_height,
            row@.len() == x,
            forall|i: int| 0 <= i < row@.len() ==> color3(#[trigger] row@[i].m()),
            forall|i: int| 0 <= i < row@.len() ==> pixel_rel(
                world.objects@,
                *cam,
                *cfg,
                i,
                y as int,
                (#[trigger] row@[i]).m(),
            ),
        decreases cfg.image_width - x,
    {
        let c = render_pixel(world, cam, cfg, x, y, rng);
        row.push(c);
        x = x + 1;
    }
    row
}

/// The whole image, row by row from y = 0 upward; emitting it as a raster
/// file flips rows so that the last row lands on top.
pub fn render_image(
    world: &HittableList,
    cam: &Camera,
    cfg: &RenderConfig,
    rng: &mut RandomState,
) -> (res: Vec<Vec<Vec3>>)
    requires
        world.wf(),
        cam.wf(),
        cfg.wf(),
    ensures
        res@.len() == cfg.image_height,
        forall|j: int| 0 <= j < res@.len() ==> (#[trigger] res@[j])@.len() == cfg.image_width,
        forall|j: int| 0 <= j < res@.len() ==> row_ok(
            world.objects@,
            *cam,
            *cfg,
            j,
            (#[trigger] res@[j])@,
        ),
{
    let mut rows: Vec<Vec<Vec3>> = Vec::new();
    let mut y: u32 = 0;
    while y < cfg.image_height
        invariant
            y <= cfg.image_height,
            world.wf(),
            cam.wf(),
            cfg.wf(),
            rows@.len() == y,
            forall|j: int| 0 <= j < rows@.len() ==> (#[trigger] rows@[j])@.len()
                == cfg.image_width,
            forall|j: int| 0 <= j < rows@.len() ==> row_ok(
                world.objects@,
                *cam,
                *cfg,
                j,
                (#[trigger] rows@[j])@,
            ),
        decreases cfg.image_height - y,
    {
        let row = render_row(world, cam, cfg, y, rng);
        rows.push(row);
        y = y + 1;
    }
    rows
}

} // verus!
