//! The numeric core of the pixel codec.  A stored channel is an integer
//! in `[0, 255]`: writing multiplies by 255 and truncates (saturating at
//! the ends), reading maps the integer back to fixed point, rounding up
//! so that a write of what was read reproduces the stored byte exactly.

use vstd::prelude::*;
use crate::fixed::{SCALE, tdiv, clip, div_fx, narrow, lemma_tdiv_bound, lemma_abs_mul_bound};
use vstd::arithmetic::div_mod::{lemma_fundamental_div_mod, lemma_div_pos_is_pos, lemma_div_is_ordered};
use crate::vec3::{Vec3, V3, v3, okv};

verus! {

/// A channel written to storage: `clamp(trunc(255 x), 0, 255)`.
pub open spec fn quant_s(x: int) -> int {
    clip(tdiv(x * 255, SCALE as int), 0, 255)
}

/// A stored channel read back into fixed point: `ceil(k / 255)` in
/// scaled units.
pub open spec fn unquant_s(k: int) -> int {
    (k * SCALE + 254) / 255
}

/// Quantize one channel.
pub fn quantize(x: i64) -> (r: u8)
    requires
        -0x1000000000000 <= x <= 0x1000000000000,
    ensures
        r == quant_s(x as int),
{
    proof {
        lemma_abs_mul_bound(x as int, 0x1000000000000, 255, 255);
        lemma_tdiv_bound(x as int * 255, SCALE as int, 0xff0000000000);
    }
    let q = narrow(div_fx((x as i128) * 255, SCALE as i128));
    if q < 0 {
        0
    } else if q > 255 {
        255
    } else {
        q as u8
    }
}

/// Read one stored channel back.
pub fn unquantize(k: u8) -> (r: i64)
    ensures
        r == unquant_s(k as int),
        0 <= r <= SCALE,
    // The result is the least fixed-point value whose quantization is `k`.
{
    proof {
        lemma_div_pos_is_pos(k as int * SCALE + 254, 255);
        lemma_div_is_ordered(k as int * SCALE + 254, 255 * SCALE + 254, 255);
        vstd::arithmetic::div_mod::lemma_div_multiples_vanish_fancy(SCALE as int, 254, 255);
        assert((255 * (SCALE as int) + 254) / 255 == SCALE);
    }
    let n: u32 = (k as u32) * 65536 + 254;
    let r = (n / 255) as i64;
    assert(r == (k as int * SCALE + 254) / 255);
    r
}

/// Quantize a whole buffer into byte triples, in order.
pub fn quantize_buffer(buf: &Vec<Vec3>) -> (r: Vec<(u8, u8, u8)>)
    requires
        forall|q: int| 0 <= q < buf@.len() ==> okv(v3(#[trigger] buf@[q]), 0x1000000000000),
    ensures
        r@.len() == buf@.len(),
        forall|q: int| 0 <= q < r@.len() ==> #[trigger] r@[q] == (
            quant_s(v3(buf@[q]).0) as u8,
            quant_s(v3(buf@[q]).1) as u8,
            quant_s(v3(buf@[q]).2) as u8,
        ),
{
    let n = buf.len();
    let mut out: Vec<(u8, u8, u8)> = Vec::new();
    let mut i: usize = 0;
    while i < n
        invariant
            n == buf@.len(),
            i <= n,
            out@.len() == i,
            forall|q: int| 0 <= q < buf@.len() ==> okv(v3(#[trigger] buf@[q]), 0x1000000000000),
            forall|q: int| 0 <= q < i ==> #[trigger] out@[q] == (
                quant_s(v3(buf@[q]).0) as u8,
                quant_s(v3(buf@[q]).1) as u8,
                quant_s(v3(buf@[q]).2) as u8,
            ),
        decreases n - i,
    {
        let c = buf[i];
        out.push((quantize(c.x), quantize(c.y), quantize(c.z)));
        i += 1;
    }
    out
}

/// Read a whole buffer of byte triples back into fixed point.
pub fn unquantize_buffer(bytes: &Vec<(u8, u8, u8)>) -> (r: Vec<Vec3>)
    ensures
        r@.len() == bytes@.len(),
        forall|q: int| 0 <= q < r@.len() ==> v3(#[trigger] r@[q]) == (
            unquant_s(bytes@[q].0 as int),
            unquant_s(bytes@[q].1 as int),
            unquant_s(bytes@[q].2 as int),
        ),
        forall|q: int| 0 <= q < r@.len() ==> okv(v3(#[trigger] r@[q]), SCALE as int),
{
    let n = bytes.len();
    let mut out: Vec<Vec3> = Vec::new();
    let mut i: usize = 0;
    while i < n
        invariant
            n == bytes@.len(),
            i <= n,
            out@.len() == i,
            forall|q: int| 0 <= q < i ==> v3(#[trigger] out@[q]) == (
                unquant_s(bytes@[q].0 as int),
                unquant_s(bytes@[q].1 as int),
                unquant_s(bytes@[q].2 as int),
            ),
            forall|q: int| 0 <= q < i ==> okv(v3(#[trigger] out@[q]), SCALE as int),
        decreases n - i,
    {
        let b = bytes[i];
        out.push(Vec3 { x: unquantize(b.0), y: unquantize(b.1), z: unquantize(b.2) });
        i += 1;
    }
    out
}

/// Writing what was read is lossless: for any stored channel value,
/// reading it back and quantizing again returns the same value.
pub proof fn lemma_quant_round_trip(k: int)
    requires
        0 <= k <= 255,
    ensures
        quant_s(unquant_s(k)) == k,
{
    let u = (k * SCALE + 254) / 255;
    lemma_fundamental_div_mod(k * SCALE + 254, 255);
    let rem = (k * SCALE + 254) % 255;
    assert(0 <= rem < 255) by {
        vstd::arithmetic::div_mod::lemma_mod_bound(k * SCALE + 254, 255);
    }
    assert(k * SCALE + 254 == 255 * u + rem);
    lemma_div_pos_is_pos(k * SCALE + 254, 255);
    assert(u * 255 == 255 * u) by (nonlinear_arith);
    // 255 u = k * SCALE + 254 - rem, with 0 <= 254 - rem <= 254 < SCALE,
    // so truncating division by SCALE returns exactly k.
    assert(255 * u == k * SCALE + (254 - rem));
    assert((k * SCALE + (254 - rem)) / SCALE as int == k) by {
        vstd::arithmetic::div_mod::lemma_div_multiples_vanish_fancy(k, 254 - rem, SCALE as int);
    }
    assert(tdiv(u * 255, SCALE as int) == k);
}

/// Reading what was written is close: for any channel in `[0, 1]`, one
/// write/read cycle moves it by less than one storage step (`1/255`,
/// which is at most 258 scaled units), never below zero nor above one.
pub proof fn lemma_unquant_close(x: int)
    requires
        0 <= x <= SCALE,
    ensures
        0 <= unquant_s(quant_s(x)),
        unquant_s(quant_s(x)) <= SCALE,
        -258 <= unquant_s(quant_s(x)) - x <= 258,
{
    let q = quant_s(x);
    lemma_abs_mul_bound(x, SCALE as int, 255, 255);
    lemma_div_pos_is_pos(x * 255, SCALE as int);
    lemma_tdiv_bound(x * 255, SCALE as int, 255);
    assert(0 <= q <= 255);
    lemma_fundamental_div_mod(x * 255, SCALE as int);
    vstd::arithmetic::div_mod::lemma_mod_bound(x * 255, SCALE as int);
    let r1 = (x * 255) % SCALE as int;
    assert(x * 255 == SCALE as int * tdiv(x * 255, SCALE as int) + r1);
    assert(q == tdiv(x * 255, SCALE as int));
    lemma_fundamental_div_mod(q * SCALE + 254, 255);
    vstd::arithmetic::div_mod::lemma_mod_bound(q * SCALE + 254, 255);
    let r2 = (q * SCALE + 254) % 255;
    assert(q * SCALE + 254 == 255 * unquant_s(q) + r2);
    assert(q * SCALE == SCALE as int * q) by (nonlinear_arith);
    // 255 (unquant(q) - x) == 254 - r2 - r1, which lies in (-SCALE, 255).
    assert(255 * (unquant_s(q) - x) == 254 - r2 - r1) by (nonlinear_arith)
        requires
            x * 255 == SCALE as int * q + r1,
            q * SCALE + 254 == 255 * unquant_s(q) + r2,
            q * SCALE == SCALE as int * q,
    ;
    assert(-258 <= unquant_s(q) - x <= 258) by (nonlinear_arith)
        requires
            255 * (unquant_s(q) - x) == 254 - r2 - r1,
            0 <= r2 < 255,
            0 <= r1 < SCALE,
    ;
    lemma_div_pos_is_pos(q * SCALE + 254, 255);
    lemma_div_is_ordered(q * SCALE + 254, 255 * SCALE + 254, 255);
    vstd::arithmetic::div_mod::lemma_div_multiples_vanish_fancy(SCALE as int, 254, 255);
    assert((255 * (SCALE as int) + 254) / 255 == SCALE);
}

} // verus!
