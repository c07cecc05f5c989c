//! A parametric ray: origin plus direction, with `at(t) = origin + t * direction`.

use vstd::prelude::*;
use crate::fixed::tdiv;
use crate::vec3::{Vec3, V3, v3, okv, vadd, vscale, VB};

verus! {

#[derive(Clone, Copy, PartialEq, Eq, Structural, Debug)]
pub struct Ray {
    pub origin: Vec3,
    pub direction: Vec3,
}

/// The point at parameter `t` along the ray, in the ghost model.
pub open spec fn ray_at_s(o: V3, d: V3, t: int) -> V3 {
    vadd(o, vscale(d, t))
}

impl Ray {
    pub fn new(origin: Vec3, direction: Vec3) -> (r: Ray)
        ensures
            r.origin == origin,
            r.direction == direction,
    {
        Ray { origin, direction }
    }

    pub fn at(&self, t: i64) -> (r: Vec3)
        requires
            okv(v3(self.origin), 0x3000000000000000),
            okv(v3(self.direction), VB as int),
            -VB <= t <= VB,
        ensures
            v3(r) == ray_at_s(v3(self.origin), v3(self.direction), t as int),
    {
        self.origin.add(self.direction.scale(t))
    }

    pub fn direction(&self) -> (r: Vec3)
        ensures
            r == self.direction,
    {
        self.direction
    }
}

} // verus!
