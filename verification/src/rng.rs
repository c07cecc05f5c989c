//! A deterministic xorshift pseudo-random stream.  Each rendering task owns
//! its own generator; with an injected seed the whole render is a pure
//! function of its inputs, which is what makes reproducibility provable.

use vstd::prelude::*;
use crate::fixed::SCALE;
use crate::vec3::{Vec3, V3, v3, okv, vnormalize};

verus! {

/// One xorshift step of the 64-bit state.
pub open spec fn step64(s: u64) -> u64 {
    let a = s ^ (s << 13);
    let b = a ^ (a >> 7);
    b ^ (b << 17)
}

/// A zero seed is replaced, since zero is a fixed point of xorshift.
pub open spec fn seed_fix(seed: u64) -> u64 {
    if seed == 0 {
        0x9e3779b97f4a7c15u64
    } else {
        seed
    }
}

/// A draw in `[0, SCALE)`: the low bits of the next state.
pub open spec fn unit_from(x: u64) -> int {
    (x as int) % 65536
}

/// A draw in `[-SCALE, SCALE)`.
pub open spec fn sym_from(x: u64) -> int {
    (x as int) % 131072 - 65536
}

/// A draw in `[-SCALE/2, SCALE/2)`, the per-sample pixel jitter.
pub open spec fn jitter_from(x: u64) -> int {
    (x as int) % 65536 - 32768
}

pub struct Rng {
    pub state: u64,
}

impl Rng {
    pub fn from_seed(seed: u64) -> (r: Rng)
        ensures
            r.state == seed_fix(seed),
    {
        if seed == 0 {
            Rng { state: 0x9e3779b97f4a7c15u64 }
        } else {
            Rng { state: seed }
        }
    }

    /// Advance the state and return it.
    pub fn next(&mut self) -> (r: u64)
        ensures
            final(self).state == step64(old(self).state),
            r == step64(old(self).state),
    {
        let s = self.state;
        let a = s ^ (s << 13u64);
        let b = a ^ (a >> 7u64);
        let c = b ^ (b << 17u64);
        self.state = c;
        c
    }

    /// A fixed-point draw in `[0, 1)`.
    pub fn next_unit(&mut self) -> (r: i64)
        ensures
            final(self).state == step64(old(self).state),
            r == unit_from(step64(old(self).state)),
            0 <= r < SCALE,
    {
        let x = self.next();
        (x % 65536) as i64
    }

    /// A fixed-point draw in `[-1, 1)`.
    pub fn next_sym(&mut self) -> (r: i64)
        ensures
            final(self).state == step64(old(self).state),
            r == sym_from(step64(old(self).state)),
            -SCALE <= r < SCALE,
    {
        let x = self.next();
        (x % 131072) as i64 - 65536
    }

    /// A fixed-point draw in `[-1/2, 1/2)`.
    pub fn next_jitter(&mut self) -> (r: i64)
        ensures
            final(self).state == step64(old(self).state),
            r == jitter_from(step64(old(self).state)),
            -32768 <= r < 32768,
    {
        let x = self.next();
        (x % 65536) as i64 - 32768
    }
}

/// Rejection sampling of a near-unit vector: draw a point of the cube,
/// keep it if it falls inside the unit ball, and normalize; after `fuel`
/// rejections fall back to the `z` axis so the function is total.
pub open spec fn sphere_sample_s(state: u64, fuel: nat) -> (V3, u64)
    decreases fuel,
{
    if fuel == 0 {
        ((0int, 0int, SCALE as int), state)
    } else {
        let s1 = step64(state);
        let s2 = step64(s1);
        let s3 = step64(s2);
        let x = sym_from(s1);
        let y = sym_from(s2);
        let z = sym_from(s3);
        if 0 < x * x + y * y + z * z <= 0x100000000 {
            (vnormalize((x, y, z)), s3)
        } else {
            sphere_sample_s(s3, (fuel - 1) as nat)
        }
    }
}

/// Rejection sampling of a point of the unit disc (unnormalized), with a
/// fallback to the centre after `fuel` rejections.
pub open spec fn disc_sample_s(state: u64, fuel: nat) -> (int, int, u64)
    decreases fuel,
{
    if fuel == 0 {
        (0int, 0int, state)
    } else {
        let s1 = step64(state);
        let s2 = step64(s1);
        let x = sym_from(s1);
        let y = sym_from(s2);
        if x * x + y * y <= 0x100000000 {
            (x, y, s2)
        } else {
            disc_sample_s(s2, (fuel - 1) as nat)
        }
    }
}

/// Draw a near-unit vector, uniformly up to the fixed-point grid.
pub fn sample_unit_sphere(rng: &mut Rng, fuel: u32) -> (r: Vec3)
    ensures
        (v3(r), final(rng).state) == sphere_sample_s(old(rng).state, fuel as nat),
        okv(v3(r), SCALE as int),
    decreases fuel,
{
    if fuel == 0 {
        Vec3::new(0, 0, SCALE)
    } else {
        let x = rng.next_sym();
        let y = rng.next_sym();
        let z = rng.next_sym();
        proof {
            crate::fixed::lemma_abs_mul_bound(x as int, 65536, x as int, 65536);
            crate::fixed::lemma_abs_mul_bound(y as int, 65536, y as int, 65536);
            crate::fixed::lemma_abs_mul_bound(z as int, 65536, z as int, 65536);
        }
        let q: i64 = x * x + y * y + z * z;
        if 0 < q && q <= 0x100000000 {
            Vec3::new(x, y, z).normalize()
        } else {
            sample_unit_sphere(rng, fuel - 1)
        }
    }
}

/// Draw a point of the unit disc.
pub fn sample_unit_disc(rng: &mut Rng, fuel: u32) -> (r: (i64, i64))
    ensures
        (r.0 as int, r.1 as int, final(rng).state) == disc_sample_s(old(rng).state, fuel as nat),
        -SCALE <= r.0 <= SCALE,
        -SCALE <= r.1 <= SCALE,
    decreases fuel,
{
    if fuel == 0 {
        (0, 0)
    } else {
        let x = rng.next_sym();
        let y = rng.next_sym();
        proof {
            crate::fixed::lemma_abs_mul_bound(x as int, 65536, x as int, 65536);
            crate::fixed::lemma_abs_mul_bound(y as int, 65536, y as int, 65536);
        }
        let q: i64 = x * x + y * y;
        if q <= 0x100000000 {
            (x, y)
        } else {
            sample_unit_disc(rng, fuel - 1)
        }
    }
}

/// Relies on rand::random: a fresh seed drawn from the process entropy
/// source.  Nothing is promised of its value; determinism comes only
/// from injected seeds.
#[verifier::external_body]
fn entropy_seed() -> u64 {
    rand::random()
}

/// Draw `n` independent task seeds from the process entropy source.
pub fn default_seeds(n: usize) -> (r: Vec<u64>)
    ensures
        r@.len() == n,
{
    let mut out: Vec<u64> = Vec::new();
    let mut i: usize = 0;
    while i < n
        invariant
            i <= n,
            out@.len() == i,
        decreases n - i,
    {
        out.push(entropy_seed());
        i += 1;
    }
    out
}

} // verus!
