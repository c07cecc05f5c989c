//! The renderer: per-pixel multi-sample averaging, full per-task buffers,
//! their pixelwise reduction, and the square-root gamma pass.  The buffer
//! is column-major: pixel `(i, j)` lives at index `i * height + j`, and
//! row `j = 0` is the top of the image.

use vstd::prelude::*;
use crate::fixed::{SCALE, tdiv, isq, div_fx, narrow, isqrt_u128, lemma_tdiv_bound, lemma_abs_mul_bound};
use vstd::arithmetic::div_mod::{lemma_multiply_divide_lt, lemma_mod_division_less_than_divisor, lemma_mod_bound};
use crate::vec3::{Vec3, V3, v3, okv, vadd};
use crate::rng::{Rng, step64, jitter_from, seed_fix};
use crate::object::Object;
use crate::integrator::{ray_color, ray_color_s, scene_ok, CMAX};
use crate::camera::{Camera, camera_ok, cam_ray_s};

verus! {

/// The sum of `n` independent samples of pixel `(i, j)`, threading the
/// random state through jitter, lens sample and integrator.
pub open spec fn sample_sum_s(c: Camera, objs: Seq<Object>, w: int, h: int, i: int, j: int, n: nat, depth: nat, state: u64) -> (V3, u64)
    decreases n,
{
    if n == 0 {
        ((0int, 0int, 0int), state)
    } else {
        let (acc, st0) = sample_sum_s(c, objs, w, h, i, j, (n - 1) as nat, depth, state);
        let s1 = step64(st0);
        let jx = jitter_from(s1);
        let s2 = step64(s1);
        let jy = jitter_from(s2);
        let u = tdiv(i * SCALE + jx, w);
        let v = SCALE - tdiv(j * SCALE + jy, h);
        let (cray, st3) = cam_ray_s(c, u, v, s2);
        let (col, st4) = ray_color_s(objs, cray.0, cray.1, depth, st3);
        (vadd(acc, col), st4)
    }
}

/// One pixel: the sample sum divided by the sample count.
pub open spec fn pixel_s(c: Camera, objs: Seq<Object>, w: int, h: int, i: int, j: int, n: nat, depth: nat, state: u64) -> (V3, u64) {
    let (sum, st) = sample_sum_s(c, objs, w, h, i, j, n, depth, state);
    ((tdiv(sum.0, n as int), tdiv(sum.1, n as int), tdiv(sum.2, n as int)), st)
}

/// The first `p` pixels of one task's buffer, in column-major order.
pub open spec fn buffer_s(c: Camera, objs: Seq<Object>, w: int, h: int, samples: nat, depth: nat, state: u64, p: nat) -> (Seq<V3>, u64)
    decreases p,
{
    if p == 0 {
        (Seq::<V3>::empty(), state)
    } else {
        let (s, st) = buffer_s(c, objs, w, h, samples, depth, state, (p - 1) as nat);
        let (col, st2) = pixel_s(c, objs, w, h, ((p - 1) as int) / h, ((p - 1) as int) % h, samples, depth, st);
        (s.push(col), st2)
    }
}

/// Pixelwise sum of two buffers of equal size.
pub open spec fn seq_add_s(x: Seq<V3>, y: Seq<V3>) -> Seq<V3> {
    Seq::new(x.len(), |i: int| vadd(x[i], y[i]))
}

/// Square-root gamma correction of one nonnegative channel; a negative
/// accumulated channel (possible only through degenerate inputs) clamps
/// to black.
pub open spec fn gamma_s(x: int) -> int {
    if x < 0 {
        0
    } else {
        isq(x * SCALE)
    }
}

/// Divide by the task count and gamma-correct every channel.
pub open spec fn finalize_s(s: Seq<V3>, n: int) -> Seq<V3> {
    Seq::new(s.len(), |i: int| (
        gamma_s(tdiv(s[i].0, n)),
        gamma_s(tdiv(s[i].1, n)),
        gamma_s(tdiv(s[i].2, n)),
    ))
}

/// The sum of the first `k` tasks' buffers.
pub open spec fn acc_s(c: Camera, objs: Seq<Object>, w: int, h: int, samples: nat, depth: nat, seeds: Seq<u64>, k: nat) -> Seq<V3>
    decreases k,
{
    if k <= 1 {
        buffer_s(c, objs, w, h, samples, depth, seed_fix(seeds[0]), (w * h) as nat).0
    } else {
        seq_add_s(
            acc_s(c, objs, w, h, samples, depth, seeds, (k - 1) as nat),
            buffer_s(c, objs, w, h, samples, depth, seed_fix(seeds[k - 1]), (w * h) as nat).0,
        )
    }
}

/// The full render: every task's buffer summed, averaged and
/// gamma-corrected.
pub open spec fn render_s(c: Camera, objs: Seq<Object>, w: int, h: int, samples: nat, depth: nat, seeds: Seq<u64>) -> Seq<V3> {
    finalize_s(acc_s(c, objs, w, h, samples, depth, seeds, seeds.len()), seeds.len() as int)
}

/// Average `samples` jittered camera-ray estimates of pixel `(i, j)`.
pub fn worker(camera: &Camera, objects: &Vec<Object>, width: u32, height: u32, i: u32, j: u32, samples: u32, depth: u32, rng: &mut Rng) -> (r: Vec3)
    requires
        camera_ok(*camera),
        scene_ok(objects@),
        1 <= width <= 0x4000,
        1 <= height <= 0x4000,
        i < width,
        j < height,
        1 <= samples <= 0x10000,
    ensures
        (v3(r), final(rng).state) == pixel_s(
            *camera, objects@, width as int, height as int, i as int, j as int,
            samples as nat, depth as nat, old(rng).state,
        ),
        okv(v3(r), CMAX as int),
{
    let mut acc = Vec3::zero();
    let mut s: u32 = 0;
    while s < samples
        invariant
            s <= samples,
            camera_ok(*camera),
            scene_ok(objects@),
            1 <= width <= 0x4000,
            1 <= height <= 0x4000,
            i < width,
            j < height,
            1 <= samples <= 0x10000,
            (v3(acc), rng.state) == sample_sum_s(
                *camera, objects@, width as int, height as int, i as int, j as int,
                s as nat, depth as nat, old(rng).state,
            ),
            okv(v3(acc), s as int * CMAX),
        decreases samples - s,
    {
        let jx = rng.next_jitter();
        let jy = rng.next_jitter();
        proof {
            lemma_tdiv_bound(i as int * SCALE + jx, width as int, SCALE as int);
            lemma_tdiv_bound(j as int * SCALE + jy, height as int, SCALE as int);
            lemma_abs_mul_bound(i as int, width as int - 1, SCALE as int, SCALE as int);
            lemma_abs_mul_bound(j as int, height as int - 1, SCALE as int, SCALE as int);
        }
        let u = narrow(div_fx((i as i128) * 65536 + (jx as i128), width as i128));
        let v = 65536 - narrow(div_fx((j as i128) * 65536 + (jy as i128), height as i128));
        let cray = camera.ray_at(u, v, rng);
        let col = ray_color(objects, &cray, depth, rng);
        acc = acc.add(col);
        s += 1;
    }
    proof {
        lemma_tdiv_bound(acc.x as int, samples as int, CMAX as int);
        lemma_tdiv_bound(acc.y as int, samples as int, CMAX as int);
        lemma_tdiv_bound(acc.z as int, samples as int, CMAX as int);
        lemma_abs_mul_bound(samples as int, 0x10000, CMAX as int, CMAX as int);
    }
    let x = narrow(div_fx(acc.x as i128, samples as i128));
    let y = narrow(div_fx(acc.y as i128, samples as i128));
    let z = narrow(div_fx(acc.z as i128, samples as i128));
    Vec3 { x, y, z }
}

/// One task's full column-major buffer, from its own seeded stream.
pub fn worker_buffer(camera: &Camera, objects: &Vec<Object>, width: u32, height: u32, samples: u32, depth: u32, seed: u64) -> (r: Vec<Vec3>)
    requires
        camera_ok(*camera),
        scene_ok(objects@),
        1 <= width <= 0x4000,
        1 <= height <= 0x4000,
        1 <= samples <= 0x10000,
    ensures
        r@.len() == width as int * height as int,
        r@.map_values(|c: Vec3| v3(c)) == buffer_s(
            *camera, objects@, width as int, height as int, samples as nat, depth as nat,
            seed_fix(seed), (width as int * height as int) as nat,
        ).0,
        forall|q: int| 0 <= q < r@.len() ==> okv(v3(#[trigger] r@[q]), CMAX as int),
{
    let mut rng = Rng::from_seed(seed);
    proof {
        lemma_abs_mul_bound(width as int, 0x4000, height as int, 0x4000);
    }
    let total: usize = (width as usize) * (height as usize);
    let mut buf: Vec<Vec3> = Vec::new();
    let mut p: usize = 0;
    while p < total
        invariant
            camera_ok(*camera),
            scene_ok(objects@),
            1 <= width <= 0x4000,
            1 <= height <= 0x4000,
            1 <= samples <= 0x10000,
            total == width as int * height as int,
            p <= total,
            buf@.len() == p,
            (buf@.map_values(|c: Vec3| v3(c)), rng.state) == buffer_s(
                *camera, objects@, width as int, height as int, samples as nat, depth as nat,
                seed_fix(seed), p as nat,
            ),
            forall|q: int| 0 <= q < buf@.len() ==> okv(v3(#[trigger] buf@[q]), CMAX as int),
        decreases total - p,
    {
        proof {
            assert(height as int * width as int == width as int * height as int) by (nonlinear_arith);
            lemma_multiply_divide_lt(p as int, height as int, width as int);
            lemma_mod_bound(p as int, height as int);
        }
        let i = (p / (height as usize)) as u32;
        let j = (p % (height as usize)) as u32;
        let col = worker(camera, objects, width, height, i, j, samples, depth, &mut rng);
        buf.push(col);
        proof {
            assert(buf@.map_values(|c: Vec3| v3(c))
                =~= buffer_s(
                    *camera, objects@, width as int, height as int, samples as nat, depth as nat,
                    seed_fix(seed), (p + 1) as nat,
                ).0);
        }
        p += 1;
    }
    buf
}

/// Pixelwise sum of two buffers.
pub fn sum_buffers(a: &Vec<Vec3>, b: &Vec<Vec3>) -> (r: Vec<Vec3>)
    requires
        a@.len() == b@.len(),
        forall|q: int| 0 <= q < a@.len() ==> okv(v3(#[trigger] a@[q]), 0x1000000000000000),
        forall|q: int| 0 <= q < b@.len() ==> okv(v3(#[trigger] b@[q]), 0x1000000000000000),
    ensures
        r@.len() == a@.len(),
        r@.map_values(|c: Vec3| v3(c)) == seq_add_s(
            a@.map_values(|c: Vec3| v3(c)),
            b@.map_values(|c: Vec3| v3(c)),
        ),
        forall|q: int| 0 <= q < r@.len() ==> v3(#[trigger] r@[q]) == vadd(v3(a@[q]), v3(b@[q])),
{
    let n = a.len();
    let mut out: Vec<Vec3> = Vec::new();
    let mut k: usize = 0;
    while k < n
        invariant
            n == a@.len() == b@.len(),
            k <= n,
            out@.len() == k,
            forall|q: int| 0 <= q < a@.len() ==> okv(v3(#[trigger] a@[q]), 0x1000000000000000),
            forall|q: int| 0 <= q < b@.len() ==> okv(v3(#[trigger] b@[q]), 0x1000000000000000),
            forall|q: int| 0 <= q < k ==> v3(#[trigger] out@[q]) == vadd(v3(a@[q]), v3(b@[q])),
        decreases n - k,
    {
        out.push(a[k].add(b[k]));
        k += 1;
    }
    proof {
        assert(out@.map_values(|c: Vec3| v3(c)) =~= seq_add_s(
            a@.map_values(|c: Vec3| v3(c)),
            b@.map_values(|c: Vec3| v3(c)),
        ));
    }
    out
}

/// One channel of the gamma pass: divide by the task count, then take
/// the fixed-point square root.
fn gamma_comp(c: i64, workers: u32) -> (r: i64)
    requires
        1 <= workers,
        -0x1000000000000000 <= c <= 0x1000000000000000,
    ensures
        r == gamma_s(tdiv(c as int, workers as int)),
        0 <= r <= 0x10000000000,
{
    proof {
        crate::fixed::lemma_tdiv_shrinks(c as int, workers as int);
    }
    let d = narrow(div_fx(c as i128, workers as i128));
    if d < 0 {
        0
    } else {
        let sq = isqrt_u128((d as u128) * 65536);
        proof {
            assert(sq as int * (sq as int) <= d as int * 65536);
            assert(sq <= 0x10000000000u128) by (nonlinear_arith)
                requires
                    sq as int * (sq as int) <= d as int * 65536,
                    d as int * 65536 < 0x10000000000int * 0x10000000000int,
                    0 <= d <= 0x1000000000000000,
            ;
        }
        sq as i64
    }
}

/// Average the accumulated buffer over the task count and gamma-correct.
pub fn finalize_buffer(buf: &Vec<Vec3>, workers: u32) -> (r: Vec<Vec3>)
    requires
        1 <= workers,
        forall|q: int| 0 <= q < buf@.len() ==> okv(v3(#[trigger] buf@[q]), 0x1000000000000000),
    ensures
        r@.len() == buf@.len(),
        r@.map_values(|c: Vec3| v3(c)) == finalize_s(buf@.map_values(|c: Vec3| v3(c)), workers as int),
        forall|q: int| 0 <= q < r@.len() ==> okv(v3(#[trigger] r@[q]), 0x10000000000),
{
    let n = buf.len();
    let mut out: Vec<Vec3> = Vec::new();
    let mut k: usize = 0;
    while k < n
        invariant
            n == buf@.len(),
            k <= n,
            out@.len() == k,
            1 <= workers,
            forall|q: int| 0 <= q < buf@.len() ==> okv(v3(#[trigger] buf@[q]), 0x1000000000000000),
            forall|q: int| 0 <= q < k ==> v3(#[trigger] out@[q]) == (
                gamma_s(tdiv(v3(buf@[q]).0, workers as int)),
                gamma_s(tdiv(v3(buf@[q]).1, workers as int)),
                gamma_s(tdiv(v3(buf@[q]).2, workers as int)),
            ),
            forall|q: int| 0 <= q < k ==> okv(v3(#[trigger] out@[q]), 0x10000000000),
        decreases n - k,
    {
        let c = buf[k];
        let x = gamma_comp(c.x, workers);
        let y = gamma_comp(c.y, workers);
        let z = gamma_comp(c.z, workers);
        out.push(Vec3 { x, y, z });
        k += 1;
    }
    proof {
        assert(out@.map_values(|c: Vec3| v3(c)) =~= finalize_s(
            buf@.map_values(|c: Vec3| v3(c)),
            workers as int,
        ));
    }
    out
}

/// Render the scene: one full buffer per seed, reduced pixelwise,
/// averaged and gamma-corrected.  The output is a pure function of the
/// scene, the camera, the configuration and the seeds.
pub fn render(camera: &Camera, objects: &Vec<Object>, width: u32, height: u32, samples: u32, depth: u32, seeds: &Vec<u64>) -> (r: (u32, u32, Vec<Vec3>))
    requires
        camera_ok(*camera),
        scene_ok(objects@),
        1 <= width <= 0x4000,
        1 <= height <= 0x4000,
        1 <= samples <= 0x10000,
        1 <= seeds@.len() <= 0x10000,
    ensures
        r.0 == width,
        r.1 == height,
        r.2@.len() == width as int * height as int,
        r.2@.map_values(|c: Vec3| v3(c)) == render_s(
            *camera, objects@, width as int, height as int, samples as nat, depth as nat, seeds@,
        ),
{
    let first = worker_buffer(camera, objects, width, height, samples, depth, seeds[0]);
    let mut buffer = first;
    let mut k: usize = 1;
    while k < seeds.len()
        invariant
            camera_ok(*camera),
            scene_ok(objects@),
            1 <= width <= 0x4000,
            1 <= height <= 0x4000,
            1 <= samples <= 0x10000,
            1 <= k <= seeds@.len() <= 0x10000,
            buffer@.len() == width as int * height as int,
            buffer@.map_values(|c: Vec3| v3(c)) == acc_s(
                *camera, objects@, width as int, height as int, samples as nat, depth as nat,
                seeds@, k as nat,
            ),
            forall|q: int| 0 <= q < buffer@.len() ==> okv(v3(#[trigger] buffer@[q]), k as int * CMAX),
        decreases seeds@.len() - k,
    {
        let wb = worker_buffer(camera, objects, width, height, samples, depth, seeds[k]);
        proof {
            lemma_abs_mul_bound(k as int, 0x10000, CMAX as int, CMAX as int);
        }
        let summed = sum_buffers(&buffer, &wb);
        buffer = summed;
        k += 1;
    }
    proof {
        lemma_abs_mul_bound(seeds@.len() as int, 0x10000, CMAX as int, CMAX as int);
    }
    let out = finalize_buffer(&buffer, seeds.len() as u32);
    (width, height, out)
}

/// With the same scene, camera, configuration and injected seeds, two
/// renders produce the same image: the render is a pure function of its
/// inputs.
pub proof fn lemma_render_deterministic(b1: Seq<V3>, b2: Seq<V3>, c: Camera, objs: Seq<Object>, w: int, h: int, samples: nat, depth: nat, seeds: Seq<u64>)
    requires
        b1 == render_s(c, objs, w, h, samples, depth, seeds),
        b2 == render_s(c, objs, w, h, samples, depth, seeds),
    ensures
        b1 == b2,
{
}

} // verus!
