//! The integrator and the per-pixel sampling loop: the recursive radiance
//! estimate, row rendering, and assembly of the plain-text image.

use vstd::prelude::*;
use rayon::iter::{IntoParallelIterator, ParallelIterator};
use crate::vec::{Vector, V3, okv, lsq3, add3, sub3, scale3, prod3, unit3, lemma_mul_pre, lemma_scale_pre};
use crate::fx::{
    ONE,
    fdiv,
    fx_div,
    lemma_fmul_frac,
    lemma_fdiv_nonneg,
    lemma_fdiv_bound,
};
use crate::util::{clamp, clamp_s};
use crate::ray::{Ray, RayV, ray_ok};
use crate::color::{Color, ppm_line};
use crate::world::{World, world_ok, world_hit_s};
use crate::material::{color_ok, scatter_s};
use crate::camera::{Camera, camera_ok};
use crate::rng::Rng64;

verus! {

/// Lower edge of the query window: hits nearer than this are skipped, so a
/// scattered ray does not immediately re-hit its own surface.
pub const T_EPS: i128 = 4294967;

/// Upper edge of the query window: beyond any scene the coordinate ranges
/// admit, standing in for an unbounded window.
pub const T_FAR: i128 = 70368744177664;

/// The background gradient: a vertical blend between white and sky blue by
/// the unit direction's vertical component (clamped against rounding
/// overshoot of normalization).
pub open spec fn background_s(d: V3) -> V3 {
    let uy = clamp_s(unit3(d).y, -(ONE as int), ONE as int);
    let t = fdiv(uy + ONE, 2 * (ONE as int));
    add3(
        scale3(V3 { x: ONE as int, y: ONE as int, z: ONE as int }, ONE - t),
        scale3(V3 { x: 2147483648, y: 3006477107, z: ONE as int }, t),
    )
}

/// The radiance estimate and final generator state, as a function of the
/// ray, the scene, the starting generator state, and the depth budget: the
/// spec-level mirror of `ray_color`, bounce by bounce.
pub open spec fn ray_color_s(r: RayV, objs: Seq<crate::figure::Figure>, s: u64, depth: nat) -> (
    V3,
    u64,
)
    decreases depth,
{
    let black = V3 { x: 0, y: 0, z: 0 };
    if depth == 0 {
        (black, s)
    } else {
        match world_hit_s(objs, r, T_EPS as int, T_FAR as int) {
            None => (background_s(r.direction), s),
            Some(h) => {
                if !(okv(h.normal, 0x400000000) && okv(h.p, 0x800000000000)) {
                    (black, s)
                } else {
                    let (res, s2) = scatter_s(h.material, r.direction, h.normal, h.front_face, s);
                    match res {
                        None => (black, s2),
                        Some((att, dir)) => {
                            if lsq3(dir) >= 1 && okv(dir, 0x100000000000) {
                                let (inner, s3) = ray_color_s(
                                    RayV { origin: h.p, direction: dir },
                                    objs,
                                    s2,
                                    (depth - 1) as nat,
                                );
                                (prod3(att, inner), s3)
                            } else {
                                (black, s2)
                            }
                        },
                    }
                }
            },
        }
    }
}

/// The camera ray for viewport coordinates `(sc, tc)`: the mirror of
/// `Camera::get_ray`.
pub open spec fn cam_ray_s(cam: Camera, sc: int, tc: int) -> RayV {
    RayV {
        origin: cam.origin@,
        direction: sub3(
            add3(
                add3(cam.lower_left_corner@, scale3(cam.horizontal@, sc)),
                scale3(cam.vertical@, tc),
            ),
            cam.origin@,
        ),
    }
}

/// One sample of one pixel: two jitter draws, the camera ray through the
/// jittered viewport coordinates, and its radiance estimate (black for a
/// camera ray outside the tracer's ranges).
pub open spec fn sample_one_s(
    cam: Camera,
    objs: Seq<crate::figure::Figure>,
    col: int,
    row: int,
    w: int,
    hgt: int,
    depth: nat,
    s: u64,
) -> (V3, u64) {
    let ru = crate::rng::unit_of(crate::rng::nth_s(s, 1));
    let rv = crate::rng::unit_of(crate::rng::nth_s(s, 2));
    let s2 = crate::rng::nth_s(s, 2);
    let sc = fdiv(col * (ONE as int) + ru, (w - 1) * (ONE as int));
    let tc = fdiv(row * (ONE as int) + rv, (hgt - 1) * (ONE as int));
    let ray = cam_ray_s(cam, sc, tc);
    if lsq3(ray.direction) >= 1 {
        ray_color_s(ray, objs, s2, depth)
    } else {
        (V3 { x: 0, y: 0, z: 0 }, s2)
    }
}

/// The sum of a pixel's first `k` sample estimates, the generator state
/// threaded through sample by sample.
pub open spec fn pixel_sum_s(
    cam: Camera,
    objs: Seq<crate::figure::Figure>,
    col: int,
    row: int,
    w: int,
    hgt: int,
    depth: nat,
    s: u64,
    k: nat,
) -> (V3, u64)
    decreases k,
{
    if k == 0 {
        (V3 { x: 0, y: 0, z: 0 }, s)
    } else {
        let (acc, s1) = pixel_sum_s(cam, objs, col, row, w, hgt, depth, s, (k - 1) as nat);
        let (c, s2) = sample_one_s(cam, objs, col, row, w, hgt, depth, s1);
        (add3(acc, c), s2)
    }
}

/// The text of one row's first `cols` pixels (one line per pixel), and the
/// generator state after them.
pub open spec fn row_bytes_s(
    cam: Camera,
    objs: Seq<crate::figure::Figure>,
    row: int,
    w: int,
    hgt: int,
    samples: nat,
    depth: nat,
    s: u64,
    cols: nat,
) -> (Seq<u8>, u64)
    decreases cols,
{
    if cols == 0 {
        (Seq::empty(), s)
    } else {
        let (pre, s1) = row_bytes_s(cam, objs, row, w, hgt, samples, depth, s, (cols - 1) as nat);
        let (sum, s2) = pixel_sum_s(cam, objs, (cols - 1) as int, row, w, hgt, depth, s1, samples);
        (pre + ppm_line(sum, samples as int) + seq![10u8], s2)
    }
}

/// The generator seed of one row: the render seed mixed with the row index.
pub open spec fn row_seed_s(seed: u64, row: int) -> u64 {
    seed ^ vstd::wrapping::u64_specs::wrapping_mul(row as u64, 0x9e3779b97f4a7c15)
}

/// The full text of one row.
pub open spec fn row_out_s(
    cam: Camera,
    objs: Seq<crate::figure::Figure>,
    row: int,
    w: int,
    hgt: int,
    samples: nat,
    depth: nat,
    seed: u64,
) -> Seq<u8> {
    row_bytes_s(cam, objs, row, w, hgt, samples, depth, row_seed_s(seed, row), w as nat).0
}

/// The image body after `k` rows have been emitted, top to bottom: the
/// `k`-th emitted row is row index `hgt - k`.
pub open spec fn image_rows_s(
    cam: Camera,
    objs: Seq<crate::figure::Figure>,
    w: int,
    hgt: int,
    samples: nat,
    depth: nat,
    seed: u64,
    k: nat,
) -> Seq<u8>
    decreases k,
{
    if k == 0 {
        Seq::empty()
    } else {
        image_rows_s(cam, objs, w, hgt, samples, depth, seed, (k - 1) as nat) + row_out_s(
            cam,
            objs,
            hgt - k,
            w,
            hgt,
            samples,
            depth,
            seed,
        )
    }
}

/// Whether every component lies within `[-b, b]`.
fn vec_within(v: &Vector, b: i128) -> (r: bool)
    requires
        b >= 0,
    ensures
        r == okv(v@, b as int),
{
    v.x >= -b && v.x <= b && v.y >= -b && v.y <= b && v.z >= -b && v.z <= b
}

/// The recursive radiance estimate: black once the depth budget is spent;
/// on a hit, the material's attenuation times the estimate for the
/// scattered ray (black on absorption, and on a numerically degenerate
/// scatter outside the ranges the tracer accepts); the background gradient
/// on a miss.
pub fn ray_color(r: &Ray, world: &World, rng: &mut Rng64, depth: u8) -> (c: Color)
    requires
        ray_ok(r@),
        world_ok(*world),
    ensures
        color_ok(c@),
        c@ == ray_color_s(r@, world.objects@, old(rng).state, depth as nat).0,
        final(rng).state == ray_color_s(r@, world.objects@, old(rng).state, depth as nat).1,
        depth == 0 ==> c@ == (V3 { x: 0int, y: 0int, z: 0int }),
        depth > 0 && world_hit_s(world.objects@, r@, T_EPS as int, T_FAR as int) is None ==> c@
            == background_s(r@.direction),
    decreases depth,
{
    if depth == 0 {
        return Vector::new_color(0, 0, 0);
    }
    match world.hit(r, T_EPS, T_FAR) {
        Some(rec) => {
            if !(vec_within(&rec.normal, 0x400000000) && vec_within(&rec.p, 0x800000000000)) {
                return Vector::new_color(0, 0, 0);
            }
            let m = rec.material.clone();
            match m.scatter(r, &rec, rng) {
                Some((attenuation, scattered)) => {
                    proof {
                        lemma_mul_pre(
                            scattered@.direction,
                            scattered@.direction,
                            0x10000000000000,
                            0x10000000000000,
                        );
                    }
                    let dl: i128 = scattered.direction.length_squared();
                    if dl >= 1 && vec_within(&scattered.direction, 0x100000000000) {
                        let inner: Color = ray_color(&scattered, world, rng, depth - 1);
                        proof {
                            lemma_mul_pre(attenuation@, inner@, ONE as int, ONE as int);
                            lemma_fmul_frac(attenuation@.x, inner@.x);
                            lemma_fmul_frac(attenuation@.y, inner@.y);
                            lemma_fmul_frac(attenuation@.z, inner@.z);
                        }
                        attenuation.prod(&inner)
                    } else {
                        Vector::new_color(0, 0, 0)
                    }
                },
                None => Vector::new_color(0, 0, 0),
            }
        },
        None => {
            let u: Vector = r.direction.unit_vector();
            let uy: i128 = clamp(u.y(), -ONE, ONE);
            proof {
                lemma_fdiv_nonneg((uy + ONE) as int, 2 * (ONE as int));
                lemma_fdiv_bound((uy + ONE) as int, 2 * (ONE as int), 8589934592, 8589934592);
            }
            let tpar: i128 = fx_div(uy + ONE, 2 * ONE);
            let white: Color = Vector::new_color(ONE, ONE, ONE);
            let blue: Color = Vector::new_color(2147483648, 3006477107, ONE);
            proof {
                lemma_scale_pre(white@, (ONE - tpar) as int, ONE as int, ONE as int);
                lemma_scale_pre(blue@, tpar as int, ONE as int, ONE as int);
                lemma_fmul_frac(ONE as int, (ONE - tpar) as int);
                lemma_fmul_frac(2147483648, tpar as int);
                lemma_fmul_frac(3006477107, tpar as int);
                lemma_fmul_frac(ONE as int, tpar as int);
            }
            white.scale(ONE - tpar).add_vec(&blue.scale(tpar))
        },
    }
}

/// One viewport coordinate: the jittered pixel index as a fraction of the
/// image extent.
fn sample_coord(idx: usize, extent: usize, jitter: i128) -> (r: i128)
    requires
        2 <= extent <= 4096,
        idx < extent,
        0 <= jitter < ONE as int,
    ensures
        r as int == fdiv(idx * (ONE as int) + jitter, (extent - 1) * (ONE as int)),
        0 <= r <= 2 * (ONE as int),
{
    let num: i128 = (idx as i128) * ONE + jitter;
    let den: i128 = ((extent - 1) as i128) * ONE;
    proof {
        assert((idx as int) * (ONE as int) + jitter <= 2 * ((extent - 1) as int) * (ONE as int))
            by (nonlinear_arith)
            requires
                (idx as int) < (extent as int) && 2 <= (extent as int) && 0 <= jitter < (ONE as int),
        ;
        lemma_fdiv_nonneg(num as int, den as int);
        crate::fx::lemma_mag_mul(num as int, ONE as int);
        assert((num as int) * (ONE as int) <= (den as int) * (2 * (ONE as int)))
            by (nonlinear_arith)
            requires
                0 <= (num as int) <= 2 * (den as int) && (ONE as int) >= 1 && (den as int) >= 1,
        ;
        vstd::arithmetic::div_mod::lemma_div_is_ordered(
            (num as int) * (ONE as int),
            (den as int) * (2 * (ONE as int)),
            den as int,
        );
        vstd::arithmetic::div_mod::lemma_div_multiples_vanish(2 * (ONE as int), den as int);
    }
    fx_div(num, den)
}

/// One sample of one pixel, drawn from the worker's generator.
fn sample_once(
    world: &World,
    camera: &Camera,
    col: usize,
    row: usize,
    width: usize,
    height: usize,
    depth: u8,
    rng: &mut Rng64,
) -> (c: Vector)
    requires
        world_ok(*world),
        camera_ok(*camera),
        2 <= width <= 4096,
        2 <= height <= 4096,
        row < height,
        col < width,
    ensures
        color_ok(c@),
        c@ == sample_one_s(
            *camera,
            world.objects@,
            col as int,
            row as int,
            width as int,
            height as int,
            depth as nat,
            old(rng).state,
        ).0,
        final(rng).state == sample_one_s(
            *camera,
            world.objects@,
            col as int,
            row as int,
            width as int,
            height as int,
            depth as nat,
            old(rng).state,
        ).1,
{
    let ghost s0: u64 = rng.state;
    let ru: i128 = rng.next_unit();
    let rv: i128 = rng.next_unit();
    proof {
        assert(crate::rng::nth_s(s0, 0) == s0);
        assert(crate::rng::nth_s(s0, 1) == crate::rng::next_s(crate::rng::nth_s(s0, 0)));
        assert(crate::rng::nth_s(s0, 2) == crate::rng::next_s(crate::rng::nth_s(s0, 1)));
    }
    let u: i128 = sample_coord(col, width, ru);
    let v: i128 = sample_coord(row, height, rv);
    let ray: Ray = camera.get_ray(u, v);
    proof {
        assert(ray@ == cam_ray_s(*camera, u as int, v as int));
        lemma_mul_pre(ray@.direction, ray@.direction, 0x100000000000, 0x100000000000);
    }
    let dl: i128 = ray.direction.length_squared();
    if dl >= 1 {
        ray_color(&ray, world, rng, depth)
    } else {
        Vector::new_color(0, 0, 0)
    }
}

/// The accumulated sum of one pixel's samples.
fn pixel_sum(
    world: &World,
    camera: &Camera,
    col: usize,
    row: usize,
    width: usize,
    height: usize,
    samples: usize,
    depth: u8,
    rng: &mut Rng64,
) -> (sum: Vector)
    requires
        world_ok(*world),
        camera_ok(*camera),
        2 <= width <= 4096,
        2 <= height <= 4096,
        row < height,
        col < width,
        1 <= samples <= 1048576,
    ensures
        0 <= sum@.x <= samples * (ONE as int),
        0 <= sum@.y <= samples * (ONE as int),
        0 <= sum@.z <= samples * (ONE as int),
        sum@ == pixel_sum_s(
            *camera,
            world.objects@,
            col as int,
            row as int,
            width as int,
            height as int,
            depth as nat,
            old(rng).state,
            samples as nat,
        ).0,
        final(rng).state == pixel_sum_s(
            *camera,
            world.objects@,
            col as int,
            row as int,
            width as int,
            height as int,
            depth as nat,
            old(rng).state,
            samples as nat,
        ).1,
{
    let ghost s0: u64 = rng.state;
    let mut sum: Vector = Vector::new_color(0, 0, 0);
    let mut s_i: usize = 0;
    while s_i < samples
        invariant
            world_ok(*world),
            camera_ok(*camera),
            2 <= width <= 4096,
            2 <= height <= 4096,
            row < height,
            col < width,
            1 <= samples <= 1048576,
            s_i <= samples,
            s0 == old(rng).state,
            0 <= sum@.x <= s_i * (ONE as int),
            0 <= sum@.y <= s_i * (ONE as int),
            0 <= sum@.z <= s_i * (ONE as int),
            sum@ == pixel_sum_s(
                *camera,
                world.objects@,
                col as int,
                row as int,
                width as int,
                height as int,
                depth as nat,
                s0,
                s_i as nat,
            ).0,
            rng.state == pixel_sum_s(
                *camera,
                world.objects@,
                col as int,
                row as int,
                width as int,
                height as int,
                depth as nat,
                s0,
                s_i as nat,
            ).1,
        decreases samples - s_i,
    {
        let c: Vector = sample_once(world, camera, col, row, width, height, depth, rng);
        sum = sum.add_vec(&c);
        s_i = s_i + 1;
    }
    sum
}

/// One image row, bottom-indexed: `samples` jittered estimates per pixel,
/// converted to one text line per pixel; the output is pinned to the
/// worker's seeded generator.
pub fn render_row(
    world: &World,
    camera: &Camera,
    row: usize,
    width: usize,
    height: usize,
    samples: usize,
    depth: u8,
    seed: u64,
) -> (out: Vec<u8>)
    requires
        world_ok(*world),
        camera_ok(*camera),
        2 <= width <= 4096,
        2 <= height <= 4096,
        row < height,
        1 <= samples <= 1048576,
    ensures
        out@ == row_out_s(
            *camera,
            world.objects@,
            row as int,
            width as int,
            height as int,
            samples as nat,
            depth as nat,
            seed,
        ),
{
    let mut rng: Rng64 = Rng64::new(seed ^ ((row as u64).wrapping_mul(0x9e3779b97f4a7c15)));
    proof {
        assert(rng.state == row_seed_s(seed, row as int));
    }
    let ghost s0: u64 = rng.state;
    let mut out: Vec<u8> = Vec::new();
    let mut col: usize = 0;
    while col < width
        invariant
            world_ok(*world),
            camera_ok(*camera),
            2 <= width <= 4096,
            2 <= height <= 4096,
            row < height,
            1 <= samples <= 1048576,
            col <= width,
            out@ == row_bytes_s(
                *camera,
                world.objects@,
                row as int,
                width as int,
                height as int,
                samples as nat,
                depth as nat,
                s0,
                col as nat,
            ).0,
            rng.state == row_bytes_s(
                *camera,
                world.objects@,
                row as int,
                width as int,
                height as int,
                samples as nat,
                depth as nat,
                s0,
                col as nat,
            ).1,
        decreases width - col,
    {
        let sum: Vector = pixel_sum(world, camera, col, row, width, height, samples, depth, &mut rng);
        let line: Vec<u8> = sum.ppm_color(samples as i128);
        let mut lv: Vec<u8> = line;
        out.append(&mut lv);
        out.push(10);
        proof {
            assert(out@ =~= row_bytes_s(
                *camera,
                world.objects@,
                row as int,
                width as int,
                height as int,
                samples as nat,
                depth as nat,
                s0,
                (col + 1) as nat,
            ).0);
        }
        col = col + 1;
    }
    out
}

/// Decimal ASCII digits of a nonnegative number.
pub open spec fn dec_u(n: nat) -> Seq<u8>
    decreases n,
{
    if n < 10 {
        seq![(48 + n) as u8]
    } else {
        dec_u(n / 10) + seq![(48 + (n % 10)) as u8]
    }
}

/// The image header: the magic, the dimensions, and the channel maximum.
pub open spec fn ppm_header_s(w: int, h: int) -> Seq<u8> {
    seq![80u8, 51u8, 10u8] + dec_u(w as nat) + seq![32u8] + dec_u(h as nat) + seq![10u8] + seq![
        50u8,
        53u8,
        53u8,
        10u8,
    ]
}

/// The decimal ASCII digits of a number.
fn dec_of(n: usize) -> (r: Vec<u8>)
    ensures
        r@ == dec_u(n as nat),
    decreases n,
{
    if n < 10 {
        let mut v: Vec<u8> = Vec::new();
        v.push(48 + (n as u8));
        proof {
            assert(v@ =~= dec_u(n as nat));
        }
        v
    } else {
        let mut v: Vec<u8> = dec_of(n / 10);
        v.push(48 + ((n % 10) as u8));
        proof {
            assert(v@ =~= dec_u(n as nat));
        }
        v
    }
}

/// The assembled image: header, then one line per pixel, rows emitted top
/// to bottom, all pixels averaged over `samples` jittered estimates.
pub fn render(
    world: &World,
    camera: &Camera,
    width: usize,
    height: usize,
    samples: usize,
    depth: u8,
    seed: u64,
) -> (out: Vec<u8>)
    requires
        world_ok(*world),
        camera_ok(*camera),
        2 <= width <= 4096,
        2 <= height <= 4096,
        1 <= samples <= 1048576,
    ensures
        out@ == ppm_header_s(width as int, height as int) + image_rows_s(
            *camera,
            world.objects@,
            width as int,
            height as int,
            samples as nat,
            depth as nat,
            seed,
            height as nat,
        ),
{
    let mut out: Vec<u8> = ppm_header(width, height);
    let mut row: usize = height;
    while row > 0
        invariant
            world_ok(*world),
            camera_ok(*camera),
            2 <= width <= 4096,
            2 <= height <= 4096,
            1 <= samples <= 1048576,
            row <= height,
            out@ == ppm_header_s(width as int, height as int) + image_rows_s(
                *camera,
                world.objects@,
                width as int,
                height as int,
                samples as nat,
                depth as nat,
                seed,
                (height - row) as nat,
            ),
        decreases row,
    {
        row = row - 1;
        let mut rv: Vec<u8> = render_row(world, camera, row, width, height, samples, depth, seed);
        out.append(&mut rv);
        proof {
            assert(out@ =~= ppm_header_s(width as int, height as int) + image_rows_s(
                *camera,
                world.objects@,
                width as int,
                height as int,
                samples as nat,
                depth as nat,
                seed,
                (height - row) as nat,
            ));
        }
    }
    proof {
        assert(out@ =~= ppm_header_s(width as int, height as int) + image_rows_s(
            *camera,
            world.objects@,
            width as int,
            height as int,
            samples as nat,
            depth as nat,
            seed,
            height as nat,
        ));
    }
    out
}

/// The header bytes for the given image dimensions.
fn ppm_header(width: usize, height: usize) -> (out: Vec<u8>)
    ensures
        out@ == ppm_header_s(width as int, height as int),
{
    let mut out: Vec<u8> = Vec::new();
    out.push(80);
    out.push(51);
    out.push(10);
    let mut wd: Vec<u8> = dec_of(width);
    out.append(&mut wd);
    out.push(32);
    let mut hd: Vec<u8> = dec_of(height);
    out.append(&mut hd);
    out.push(10);
    out.push(50);
    out.push(53);
    out.push(53);
    out.push(10);
    proof {
        assert(out@ =~= ppm_header_s(width as int, height as int));
    }
    out
}

/// Relies on rayon's into_par_iter, map and collect: one result per row
/// index, computed across the worker pool and collected back in index
/// order, so the element at index `i` is what the mapped closure — the
/// verified `render_row`, whose contract pins its output — returns for
/// row `i`.
#[verifier::external_body]
fn render_rows_par(
    world: &World,
    camera: &Camera,
    width: usize,
    height: usize,
    samples: usize,
    depth: u8,
    seed: u64,
) -> (r: Vec<Vec<u8>>)
    requires
        world_ok(*world),
        camera_ok(*camera),
        2 <= width <= 4096,
        2 <= height <= 4096,
        1 <= samples <= 1048576,
    ensures
        r@.len() == height as int,
        forall|i: int|
            0 <= i < height as int ==> (#[trigger] r@[i])@ == row_out_s(
                *camera,
                world.objects@,
                i,
                width as int,
                height as int,
                samples as nat,
                depth as nat,
                seed,
            ),
{
    (0..height).into_par_iter().map(
        |row| render_row(world, camera, row, width, height, samples, depth, seed),
    ).collect()
}

/// The assembled image, with rows computed in parallel (one independent
/// unit of work per row) and collected into top-to-bottom order.
pub fn render_par(
    world: &World,
    camera: &Camera,
    width: usize,
    height: usize,
    samples: usize,
    depth: u8,
    seed: u64,
) -> (out: Vec<u8>)
    requires
        world_ok(*world),
        camera_ok(*camera),
        2 <= width <= 4096,
        2 <= height <= 4096,
        1 <= samples <= 1048576,
    ensures
        out@ == ppm_header_s(width as int, height as int) + image_rows_s(
            *camera,
            world.objects@,
            width as int,
            height as int,
            samples as nat,
            depth as nat,
            seed,
            height as nat,
        ),
{
    let mut out: Vec<u8> = ppm_header(width, height);
    let mut rows: Vec<Vec<u8>> = render_rows_par(world, camera, width, height, samples, depth, seed);
    while rows.len() > 0
        invariant
            rows@.len() <= height as int,
            forall|i: int|
                0 <= i < rows@.len() ==> (#[trigger] rows@[i])@ == row_out_s(
                    *camera,
                    world.objects@,
                    i,
                    width as int,
                    height as int,
                    samples as nat,
                    depth as nat,
                    seed,
                ),
            out@ == ppm_header_s(width as int, height as int) + image_rows_s(
                *camera,
                world.objects@,
                width as int,
                height as int,
                samples as nat,
                depth as nat,
                seed,
                (height - rows@.len()) as nat,
            ),
        decreases rows@.len(),
    {
        let ghost k_before: int = rows@.len() as int;
        let ghost rows_before: Seq<Vec<u8>> = rows@;
        let mut rv: Vec<u8> = rows.pop().unwrap();
        proof {
            assert(rv == rows_before[k_before - 1]);
            assert((rows_before[k_before - 1])@ == row_out_s(
                *camera,
                world.objects@,
                k_before - 1,
                width as int,
                height as int,
                samples as nat,
                depth as nat,
                seed,
            ));
        }
        out.append(&mut rv);
        proof {
            assert(out@ =~= ppm_header_s(width as int, height as int) + image_rows_s(
                *camera,
                world.objects@,
                width as int,
                height as int,
                samples as nat,
                depth as nat,
                seed,
                (height - rows@.len()) as nat,
            ));
        }
    }
    proof {
        assert(out@ =~= ppm_header_s(width as int, height as int) + image_rows_s(
            *camera,
            world.objects@,
            width as int,
            height as int,
            samples as nat,
            depth as nat,
            seed,
            height as nat,
        ));
    }
    out
}

} // verus!
