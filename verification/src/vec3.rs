//! Three-component fixed-point vectors, used interchangeably as points,
//! directions and linear RGB colours.  The ghost model of a vector is a
//! triple of unbounded integers in scaled units; every executable method
//! returns exactly the value of its ghost counterpart.

use vstd::prelude::*;
use crate::fixed::{SCALE, tdiv, isq, div_fx, narrow, isqrt_u128, lemma_tdiv_bound, lemma_abs_mul_bound, lemma_square_nonneg, lemma_sqrt_dominates};

verus! {

/// Ghost vector: three scaled integers.
pub type V3 = (int, int, int);

/// Bound on operand components accepted by the vector operations.
pub const VB: i64 = 0x4000000000;

/// Bound on operand components accepted by addition and subtraction.
pub const BIG: i64 = 0x3fffffffffffffff;

#[derive(Clone, Copy, PartialEq, Eq, Structural, Debug)]
pub struct Vec3 {
    pub x: i64,
    pub y: i64,
    pub z: i64,
}

/// The ghost model of an executable vector.
pub open spec fn v3(v: Vec3) -> V3 {
    (v.x as int, v.y as int, v.z as int)
}

/// Every component of `a` lies in `[-b, b]`.
pub open spec fn okv(a: V3, b: int) -> bool {
    &&& -b <= a.0 <= b
    &&& -b <= a.1 <= b
    &&& -b <= a.2 <= b
}

pub open spec fn vadd(a: V3, b: V3) -> V3 {
    (a.0 + b.0, a.1 + b.1, a.2 + b.2)
}

pub open spec fn vsub(a: V3, b: V3) -> V3 {
    (a.0 - b.0, a.1 - b.1, a.2 - b.2)
}

pub open spec fn vneg(a: V3) -> V3 {
    (-a.0, -a.1, -a.2)
}

/// Scaling by the fixed-point factor `k`.
pub open spec fn vscale(a: V3, k: int) -> V3 {
    (tdiv(a.0 * k, SCALE as int), tdiv(a.1 * k, SCALE as int), tdiv(a.2 * k, SCALE as int))
}

/// Dot product: the exact integer sum of products, scaled down once.
pub open spec fn vdot(a: V3, b: V3) -> int {
    tdiv(a.0 * b.0 + a.1 * b.1 + a.2 * b.2, SCALE as int)
}

pub open spec fn vcross(a: V3, b: V3) -> V3 {
    (
        tdiv(a.1 * b.2 - a.2 * b.1, SCALE as int),
        tdiv(a.2 * b.0 - a.0 * b.2, SCALE as int),
        tdiv(a.0 * b.1 - a.1 * b.0, SCALE as int),
    )
}

/// Component-wise product, the colour-attenuation operation.
pub open spec fn vcmul(a: V3, b: V3) -> V3 {
    (tdiv(a.0 * b.0, SCALE as int), tdiv(a.1 * b.1, SCALE as int), tdiv(a.2 * b.2, SCALE as int))
}

/// The exact squared norm in scaled-squared units.
pub open spec fn vnormq(a: V3) -> int {
    a.0 * a.0 + a.1 * a.1 + a.2 * a.2
}

/// Normalization: each component becomes `x * SCALE / |a|`; the zero
/// vector (whose direction is undefined) normalizes to zero.
pub open spec fn vnormalize(a: V3) -> V3 {
    let l = isq(vnormq(a));
    if l <= 0 {
        (0, 0, 0)
    } else {
        (tdiv(a.0 * SCALE, l), tdiv(a.1 * SCALE, l), tdiv(a.2 * SCALE, l))
    }
}

impl Vec3 {
    pub fn new(x: i64, y: i64, z: i64) -> (r: Vec3)
        ensures
            v3(r) == (x as int, y as int, z as int),
    {
        Vec3 { x, y, z }
    }

    pub fn zero() -> (r: Vec3)
        ensures
            v3(r) == (0int, 0int, 0int),
    {
        Vec3 { x: 0, y: 0, z: 0 }
    }

    pub fn add(self, o: Vec3) -> (r: Vec3)
        requires
            okv(v3(self), BIG as int),
            okv(v3(o), BIG as int),
        ensures
            v3(r) == vadd(v3(self), v3(o)),
    {
        Vec3 { x: self.x + o.x, y: self.y + o.y, z: self.z + o.z }
    }

    pub fn sub(self, o: Vec3) -> (r: Vec3)
        requires
            okv(v3(self), BIG as int),
            okv(v3(o), BIG as int),
        ensures
            v3(r) == vsub(v3(self), v3(o)),
    {
        Vec3 { x: self.x - o.x, y: self.y - o.y, z: self.z - o.z }
    }

    pub fn neg(self) -> (r: Vec3)
        requires
            okv(v3(self), BIG as int),
        ensures
            v3(r) == vneg(v3(self)),
    {
        Vec3 { x: -self.x, y: -self.y, z: -self.z }
    }

    pub fn scale(self, k: i64) -> (r: Vec3)
        requires
            okv(v3(self), VB as int),
            -VB <= k <= VB,
        ensures
            v3(r) == vscale(v3(self), k as int),
            okv(v3(r), BIG as int),
    {
        proof {
            lemma_scaled_product_fits(self.x as int, k as int);
            lemma_scaled_product_fits(self.y as int, k as int);
            lemma_scaled_product_fits(self.z as int, k as int);
        }
        let x = narrow(div_fx((self.x as i128) * (k as i128), SCALE as i128));
        let y = narrow(div_fx((self.y as i128) * (k as i128), SCALE as i128));
        let z = narrow(div_fx((self.z as i128) * (k as i128), SCALE as i128));
        Vec3 { x, y, z }
    }

    pub fn dot(self, o: Vec3) -> (r: i64)
        requires
            okv(v3(self), VB as int),
            okv(v3(o), VB as int),
        ensures
            r == vdot(v3(self), v3(o)),
            -0x4000000000000000 <= r <= 0x4000000000000000,
    {
        proof {
            lemma_abs_mul_bound(self.x as int, VB as int, o.x as int, VB as int);
            lemma_abs_mul_bound(self.y as int, VB as int, o.y as int, VB as int);
            lemma_abs_mul_bound(self.z as int, VB as int, o.z as int, VB as int);
            lemma_tdiv_bound(
                self.x as int * o.x as int + self.y as int * o.y as int + self.z as int * o.z as int,
                SCALE as int,
                0x4000000000000000,
            );
        }
        let s: i128 = (self.x as i128) * (o.x as i128) + (self.y as i128) * (o.y as i128)
            + (self.z as i128) * (o.z as i128);
        narrow(div_fx(s, SCALE as i128))
    }

    pub fn cross(self, o: Vec3) -> (r: Vec3)
        requires
            okv(v3(self), VB as int),
            okv(v3(o), VB as int),
        ensures
            v3(r) == vcross(v3(self), v3(o)),
    {
        proof {
            lemma_abs_mul_bound(self.y as int, VB as int, o.z as int, VB as int);
            lemma_abs_mul_bound(self.z as int, VB as int, o.y as int, VB as int);
            lemma_abs_mul_bound(self.z as int, VB as int, o.x as int, VB as int);
            lemma_abs_mul_bound(self.x as int, VB as int, o.z as int, VB as int);
            lemma_abs_mul_bound(self.x as int, VB as int, o.y as int, VB as int);
            lemma_abs_mul_bound(self.y as int, VB as int, o.x as int, VB as int);
            lemma_tdiv_bound(self.y as int * o.z as int - self.z as int * o.y as int, SCALE as int, 0x4000000000000000);
            lemma_tdiv_bound(self.z as int * o.x as int - self.x as int * o.z as int, SCALE as int, 0x4000000000000000);
            lemma_tdiv_bound(self.x as int * o.y as int - self.y as int * o.x as int, SCALE as int, 0x4000000000000000);
        }
        let x = narrow(div_fx((self.y as i128) * (o.z as i128) - (self.z as i128) * (o.y as i128), SCALE as i128));
        let y = narrow(div_fx((self.z as i128) * (o.x as i128) - (self.x as i128) * (o.z as i128), SCALE as i128));
        let z = narrow(div_fx((self.x as i128) * (o.y as i128) - (self.y as i128) * (o.x as i128), SCALE as i128));
        Vec3 { x, y, z }
    }

    pub fn cmul(self, o: Vec3) -> (r: Vec3)
        requires
            okv(v3(self), VB as int),
            okv(v3(o), VB as int),
        ensures
            v3(r) == vcmul(v3(self), v3(o)),
    {
        proof {
            lemma_scaled_product_fits(self.x as int, o.x as int);
            lemma_scaled_product_fits(self.y as int, o.y as int);
            lemma_scaled_product_fits(self.z as int, o.z as int);
        }
        let x = narrow(div_fx((self.x as i128) * (o.x as i128), SCALE as i128));
        let y = narrow(div_fx((self.y as i128) * (o.y as i128), SCALE as i128));
        let z = narrow(div_fx((self.z as i128) * (o.z as i128), SCALE as i128));
        Vec3 { x, y, z }
    }

    /// Normalize to (approximately) unit length; every component of the
    /// result is at most one in magnitude, exactly.
    pub fn normalize(self) -> (r: Vec3)
        requires
            okv(v3(self), BIG as int),
        ensures
            v3(r) == vnormalize(v3(self)),
            okv(v3(r), SCALE as int),
    {
        proof {
            lemma_square_nonneg(self.x as int);
            lemma_square_nonneg(self.y as int);
            lemma_square_nonneg(self.z as int);
            lemma_abs_mul_bound(self.x as int, BIG as int, self.x as int, BIG as int);
            lemma_abs_mul_bound(self.y as int, BIG as int, self.y as int, BIG as int);
            lemma_abs_mul_bound(self.z as int, BIG as int, self.z as int, BIG as int);
        }
        let q: i128 = (self.x as i128) * (self.x as i128) + (self.y as i128) * (self.y as i128)
            + (self.z as i128) * (self.z as i128);
        assert(q == vnormq(v3(self)));
        let l: u128 = isqrt_u128(q as u128);
        if l == 0 {
            Vec3 { x: 0, y: 0, z: 0 }
        } else {
            proof {
                lemma_sqrt_dominates(self.x as int, q as int, l as int);
                lemma_sqrt_dominates(self.y as int, q as int, l as int);
                lemma_sqrt_dominates(self.z as int, q as int, l as int);
                lemma_norm_component(self.x as int, l as int);
                lemma_norm_component(self.y as int, l as int);
                lemma_norm_component(self.z as int, l as int);
            }
            let x = narrow(div_fx((self.x as i128) * (SCALE as i128), l as i128));
            let y = narrow(div_fx((self.y as i128) * (SCALE as i128), l as i128));
            let z = narrow(div_fx((self.z as i128) * (SCALE as i128), l as i128));
            Vec3 { x, y, z }
        }
    }
}

/// Truncated scaling by `SCALE / l` leaves an error smaller than `l`:
/// the result `r` satisfies `|a * SCALE - l * r| < l` and `|r| <= SCALE`.
proof fn lemma_trunc_err(a: int, l: int)
    requires
        1 <= l,
        -l <= a <= l,
    ensures
        -(SCALE as int) <= tdiv(a * SCALE, l) <= SCALE as int,
        -l < a * SCALE - l * tdiv(a * SCALE, l) < l,
{
    lemma_norm_component(a, l);
    let p = a * SCALE;
    let r = tdiv(p, l);
    if p >= 0 {
        vstd::arithmetic::div_mod::lemma_fundamental_div_mod(p, l);
        vstd::arithmetic::div_mod::lemma_mod_bound(p, l);
        assert(p == l * (p / l) + p % l);
    } else {
        vstd::arithmetic::div_mod::lemma_fundamental_div_mod(-p, l);
        vstd::arithmetic::div_mod::lemma_mod_bound(-p, l);
        assert(-p == l * ((-p) / l) + (-p) % l);
        assert(l * ((-p) / l) == -(l * r)) by (nonlinear_arith)
            requires r == -((-p) / l);
    }
}

/// A normalized vector has unit length up to the fixed-point grid: when
/// the exact squared norm of the input is at least one, the squared norm
/// of the result differs from one by less than `8 / SCALE`, in
/// scaled-squared units.
pub proof fn lemma_normalize_near_unit(a: V3)
    requires
        vnormq(a) >= 0x100000000,
    ensures
        0x100000000 - 524291 <= vnormq(vnormalize(a)) <= 0x100000000 + 524291,
{
    let q = vnormq(a);
    crate::fixed::lemma_isqrt_exists(q);
    let l = isq(q);
    assert(l * l <= q < (l + 1) * (l + 1));
    assert(l >= SCALE) by (nonlinear_arith)
        requires 0 <= l, q < (l + 1) * (l + 1), q >= 0x100000000;
    lemma_square_nonneg(a.0);
    lemma_square_nonneg(a.1);
    lemma_square_nonneg(a.2);
    lemma_sqrt_dominates(a.0, q, l);
    lemma_sqrt_dominates(a.1, q, l);
    lemma_sqrt_dominates(a.2, q, l);
    lemma_trunc_err(a.0, l);
    lemma_trunc_err(a.1, l);
    lemma_trunc_err(a.2, l);
    let r0 = tdiv(a.0 * SCALE, l);
    let r1 = tdiv(a.1 * SCALE, l);
    let r2 = tdiv(a.2 * SCALE, l);
    let d0 = a.0 * SCALE - l * r0;
    let d1 = a.1 * SCALE - l * r1;
    let d2 = a.2 * SCALE - l * r2;
    assert(vnormalize(a) == (r0, r1, r2));
    let e0 = 2 * l * r0 * d0 + d0 * d0;
    let e1 = 2 * l * r1 * d1 + d1 * d1;
    let e2 = 2 * l * r2 * d2 + d2 * d2;
    let s: int = SCALE as int;
    assert(a.0 * a.0 * (s * s) == (l * r0) * (l * r0) + e0) by (nonlinear_arith)
        requires d0 == a.0 * s - l * r0, e0 == 2 * l * r0 * d0 + d0 * d0, s == SCALE as int;
    assert(a.1 * a.1 * (s * s) == (l * r1) * (l * r1) + e1) by (nonlinear_arith)
        requires d1 == a.1 * s - l * r1, e1 == 2 * l * r1 * d1 + d1 * d1, s == SCALE as int;
    assert(a.2 * a.2 * (s * s) == (l * r2) * (l * r2) + e2) by (nonlinear_arith)
        requires d2 == a.2 * s - l * r2, e2 == 2 * l * r2 * d2 + d2 * d2, s == SCALE as int;
    assert(-(l * l * (2 * s + 1)) <= e0 <= l * l * (2 * s + 1)) by (nonlinear_arith)
        requires e0 == 2 * l * r0 * d0 + d0 * d0, -s <= r0 <= s, -l < d0 < l, 1 <= l, s == 65536;
    assert(-(l * l * (2 * s + 1)) <= e1 <= l * l * (2 * s + 1)) by (nonlinear_arith)
        requires e1 == 2 * l * r1 * d1 + d1 * d1, -s <= r1 <= s, -l < d1 < l, 1 <= l, s == 65536;
    assert(-(l * l * (2 * s + 1)) <= e2 <= l * l * (2 * s + 1)) by (nonlinear_arith)
        requires e2 == 2 * l * r2 * d2 + d2 * d2, -s <= r2 <= s, -l < d2 < l, 1 <= l, s == 65536;
    let x = r0 * r0 + r1 * r1 + r2 * r2 - s * s;
    assert((l * r0) * (l * r0) == l * l * (r0 * r0)) by (nonlinear_arith);
    assert((l * r1) * (l * r1) == l * l * (r1 * r1)) by (nonlinear_arith);
    assert((l * r2) * (l * r2) == l * l * (r2 * r2)) by (nonlinear_arith);
    assert(q * (s * s) == a.0 * a.0 * (s * s) + a.1 * a.1 * (s * s) + a.2 * a.2 * (s * s)) by (nonlinear_arith)
        requires q == a.0 * a.0 + a.1 * a.1 + a.2 * a.2;
    assert(q * (s * s) == l * l * (r0 * r0) + l * l * (r1 * r1) + l * l * (r2 * r2) + (e0 + e1 + e2));
    assert(l * l * x == l * l * (r0 * r0) + l * l * (r1 * r1) + l * l * (r2 * r2) - l * l * (s * s)) by (nonlinear_arith)
        requires x == r0 * r0 + r1 * r1 + r2 * r2 - s * s;
    assert((q - l * l) * (s * s) == q * (s * s) - l * l * (s * s)) by (nonlinear_arith);
    assert(l * l * x == (q - l * l) * (s * s) - (e0 + e1 + e2));
    assert(0 <= q - l * l <= 2 * l) by (nonlinear_arith)
        requires l * l <= q, q < (l + 1) * (l + 1);
    assert(0 <= (q - l * l) * (s * s) <= (2 * l) * (s * s)) by (nonlinear_arith)
        requires 0 <= q - l * l <= 2 * l, s == 65536;
    assert((2 * l) * (s * s) <= 2 * (l * l) * s) by (nonlinear_arith)
        requires s <= l, s == 65536;
    assert(-(l * l * (8 * s + 3)) <= l * l * x <= l * l * (8 * s + 3)) by (nonlinear_arith)
        requires
            l * l * x == (q - l * l) * (s * s) - (e0 + e1 + e2),
            0 <= (q - l * l) * (s * s),
            (q - l * l) * (s * s) <= 2 * (l * l) * s,
            -(l * l * (2 * s + 1)) <= e0 <= l * l * (2 * s + 1),
            -(l * l * (2 * s + 1)) <= e1 <= l * l * (2 * s + 1),
            -(l * l * (2 * s + 1)) <= e2 <= l * l * (2 * s + 1),
            s == 65536,
    ;
    assert(-(8 * s + 3) <= x <= 8 * s + 3) by (nonlinear_arith)
        requires
            -(l * l * (8 * s + 3)) <= l * l * x <= l * l * (8 * s + 3),
            1 <= l,
            s == 65536,
    ;
    assert(vnormq(vnormalize(a)) == x + s * s);
}

/// A product of two values bounded by `VB` scales down into `i64` range.
proof fn lemma_scaled_product_fits(a: int, k: int)
    requires
        -VB <= a <= VB,
        -VB <= k <= VB,
    ensures
        -(BIG * SCALE) <= a * k <= BIG * SCALE,
        -BIG <= tdiv(a * k, SCALE as int) <= BIG,
{
    lemma_abs_mul_bound(a, VB as int, k, VB as int);
    lemma_tdiv_bound(a * k, SCALE as int, BIG as int);
}

/// A component no larger than the norm yields a normalized component no
/// larger than one.
proof fn lemma_norm_component(x: int, l: int)
    requires
        1 <= l,
        -l <= x <= l,
    ensures
        -(SCALE as int) <= tdiv(x * SCALE, l) <= SCALE as int,
        -(0x10000 * l) <= x * SCALE <= 0x10000 * l,
{
    lemma_abs_mul_bound(x, l, SCALE as int, SCALE as int);
    assert(l * SCALE == SCALE * l) by (nonlinear_arith);
    lemma_tdiv_bound(x * SCALE, l, SCALE as int);
}

} // verus!
