//! The thin-lens camera.  `look_at` derives an orthonormal-ish basis and
//! the focus-plane extents from the look-at parameters; `ray_at` maps
//! normalized image coordinates and a lens sample to a world-space ray
//! with a normalized direction.

use vstd::prelude::*;
use crate::fixed::{SCALE, tdiv, div_fx, narrow, lemma_tdiv_bound, lemma_tdiv_shrinks, lemma_abs_mul_bound};
use crate::vec3::{Vec3, V3, v3, okv, vadd, vsub, vscale, vcross, vnormalize, vnormq, lemma_normalize_near_unit};
use crate::ray::Ray;
use crate::rng::{Rng, disc_sample_s, sample_unit_disc};
use crate::material::SAMPLE_FUEL;
use crate::integrator::ray_ok;

verus! {

#[derive(Clone, Copy, PartialEq, Eq, Structural, Debug)]
pub struct Camera {
    pub horizontal: Vec3,
    pub vertical: Vec3,
    pub origin: Vec3,
    pub direction: Vec3,
    pub right: Vec3,
    pub up: Vec3,
    pub lens_radius: i64,
}

/// Bounds under which camera rays stay representable.
pub open spec fn camera_ok(c: Camera) -> bool {
    &&& okv(v3(c.horizontal), 0x4000000000)
    &&& okv(v3(c.vertical), 0x4000000000)
    &&& okv(v3(c.origin), 0x10000000000)
    &&& okv(v3(c.direction), 0x4000000000)
    &&& okv(v3(c.right), 0x20000)
    &&& okv(v3(c.up), 0x20000)
    &&& 0 <= c.lens_radius <= 0x80000000
}

/// The camera ray for image coordinates `(u, v)` and a fresh lens sample:
/// origin offset within the lens disc, direction normalized toward the
/// focus-plane target.
pub open spec fn cam_ray_s(c: Camera, u: int, v: int, state: u64) -> ((V3, V3), u64) {
    let (x, y, st) = disc_sample_s(state, SAMPLE_FUEL as nat);
    let offset = vscale(vadd(vscale(v3(c.right), x), vscale(v3(c.up), y)), c.lens_radius as int);
    let target = vadd(
        vadd(v3(c.direction), vscale(v3(c.horizontal), u - 32768)),
        vscale(v3(c.vertical), v - 32768),
    );
    ((vadd(v3(c.origin), offset), vnormalize(vsub(target, offset))), st)
}

impl Camera {
    /// Build the camera from look-at parameters.  The vertical field of
    /// view enters as the tangent of its half angle, in fixed point.
    pub fn look_at(
        origin: Vec3,
        at: &Vec3,
        up: &Vec3,
        tan_half_fov: i64,
        aspect_ratio: i64,
        aperture: i64,
        focus_distance: i64,
    ) -> (r: Camera)
        requires
            okv(v3(origin), 0x10000000000),
            okv(v3(*at), 0x10000000000),
            okv(v3(*up), 0x100000),
            0 <= tan_half_fov <= 0x40000,
            0 < aspect_ratio <= 0x80000,
            0 <= aperture <= 0x100000000,
            1 <= focus_distance <= 0x80000000,
        ensures
            ({
                let front = vnormalize(vsub(v3(*at), v3(origin)));
                let rt = vnormalize(vcross(front, v3(*up)));
                let u2 = vcross(rt, front);
                let fph = tdiv(2 * tan_half_fov * focus_distance, SCALE as int);
                let fpw = tdiv(fph * aspect_ratio, SCALE as int);
                &&& v3(r.right) == rt
                &&& v3(r.up) == u2
                &&& v3(r.origin) == v3(origin)
                &&& v3(r.direction) == vscale(front, focus_distance as int)
                &&& v3(r.horizontal) == vscale(rt, fpw)
                &&& v3(r.vertical) == vscale(u2, fph)
                &&& r.lens_radius == tdiv(aperture as int, 2)
            }),
            camera_ok(r),
    {
        let vh: i64 = 2 * tan_half_fov;
        proof {
            lemma_abs_mul_bound(vh as int, 0x80000, focus_distance as int, 0x80000000);
            lemma_tdiv_bound(vh as int * focus_distance as int, SCALE as int, 0x400000000);
        }
        let fph = narrow(div_fx((vh as i128) * (focus_distance as i128), SCALE as i128));
        proof {
            lemma_abs_mul_bound(fph as int, 0x400000000, aspect_ratio as int, 0x80000);
            lemma_tdiv_bound(fph as int * aspect_ratio as int, SCALE as int, 0x2000000000);
        }
        let fpw = narrow(div_fx((fph as i128) * (aspect_ratio as i128), SCALE as i128));
        assert(fph * aspect_ratio == (fph as int) * (aspect_ratio as int));
        let front = at.sub(origin).normalize();
        proof {
            lemma_abs_mul_bound(front.y as int, SCALE as int, up.z as int, 0x100000);
            lemma_abs_mul_bound(front.z as int, SCALE as int, up.y as int, 0x100000);
            lemma_abs_mul_bound(front.z as int, SCALE as int, up.x as int, 0x100000);
            lemma_abs_mul_bound(front.x as int, SCALE as int, up.z as int, 0x100000);
            lemma_abs_mul_bound(front.x as int, SCALE as int, up.y as int, 0x100000);
            lemma_abs_mul_bound(front.y as int, SCALE as int, up.x as int, 0x100000);
            lemma_tdiv_bound(front.y as int * up.z as int - front.z as int * up.y as int, SCALE as int, 0x200000);
            lemma_tdiv_bound(front.z as int * up.x as int - front.x as int * up.z as int, SCALE as int, 0x200000);
            lemma_tdiv_bound(front.x as int * up.y as int - front.y as int * up.x as int, SCALE as int, 0x200000);
        }
        let right = front.cross(*up).normalize();
        proof {
            lemma_abs_mul_bound(right.x as int, SCALE as int, front.y as int, SCALE as int);
            lemma_abs_mul_bound(right.y as int, SCALE as int, front.z as int, SCALE as int);
            lemma_abs_mul_bound(right.z as int, SCALE as int, front.x as int, SCALE as int);
            lemma_abs_mul_bound(right.x as int, SCALE as int, front.z as int, SCALE as int);
            lemma_abs_mul_bound(right.y as int, SCALE as int, front.x as int, SCALE as int);
            lemma_abs_mul_bound(right.z as int, SCALE as int, front.y as int, SCALE as int);
            lemma_tdiv_bound(right.y as int * front.z as int - right.z as int * front.y as int, SCALE as int, 0x20000);
            lemma_tdiv_bound(right.z as int * front.x as int - right.x as int * front.z as int, SCALE as int, 0x20000);
            lemma_tdiv_bound(right.x as int * front.y as int - right.y as int * front.x as int, SCALE as int, 0x20000);
        }
        let up2 = right.cross(front);
        proof {
            lemma_abs_mul_bound(right.x as int, SCALE as int, fpw as int, 0x2000000000);
            lemma_abs_mul_bound(right.y as int, SCALE as int, fpw as int, 0x2000000000);
            lemma_abs_mul_bound(right.z as int, SCALE as int, fpw as int, 0x2000000000);
            lemma_tdiv_bound(right.x as int * fpw as int, SCALE as int, 0x2000000000);
            lemma_tdiv_bound(right.y as int * fpw as int, SCALE as int, 0x2000000000);
            lemma_tdiv_bound(right.z as int * fpw as int, SCALE as int, 0x2000000000);
            lemma_abs_mul_bound(up2.x as int, 0x20000, fph as int, 0x400000000);
            lemma_abs_mul_bound(up2.y as int, 0x20000, fph as int, 0x400000000);
            lemma_abs_mul_bound(up2.z as int, 0x20000, fph as int, 0x400000000);
            lemma_tdiv_bound(up2.x as int * fph as int, SCALE as int, 0x800000000);
            lemma_tdiv_bound(up2.y as int * fph as int, SCALE as int, 0x800000000);
            lemma_tdiv_bound(up2.z as int * fph as int, SCALE as int, 0x800000000);
            lemma_abs_mul_bound(front.x as int, SCALE as int, focus_distance as int, 0x80000000);
            lemma_abs_mul_bound(front.y as int, SCALE as int, focus_distance as int, 0x80000000);
            lemma_abs_mul_bound(front.z as int, SCALE as int, focus_distance as int, 0x80000000);
            lemma_tdiv_bound(front.x as int * focus_distance as int, SCALE as int, 0x80000000);
            lemma_tdiv_bound(front.y as int * focus_distance as int, SCALE as int, 0x80000000);
            lemma_tdiv_bound(front.z as int * focus_distance as int, SCALE as int, 0x80000000);
            lemma_tdiv_shrinks(aperture as int, 2);
        }
        let horizontal = right.scale(fpw);
        let vertical = up2.scale(fph);
        let direction = front.scale(focus_distance);
        let lens_radius = narrow(div_fx(aperture as i128, 2));
        Camera { horizontal, vertical, origin, direction, right, up: up2, lens_radius }
    }

    /// The camera ray through normalized image coordinates `(u, v)`.
    pub fn ray_at(&self, u: i64, v: i64, rng: &mut Rng) -> (r: Ray)
        requires
            camera_ok(*self),
            -0x40000 <= u <= 0x40000,
            -0x40000 <= v <= 0x40000,
        ensures
            ((v3(r.origin), v3(r.direction)), final(rng).state)
                == cam_ray_s(*self, u as int, v as int, old(rng).state),
            ray_ok(v3(r.origin), v3(r.direction)),
    {
        let (x, y) = sample_unit_disc(rng, SAMPLE_FUEL);
        proof {
            lemma_abs_mul_bound(self.right.x as int, 0x20000, x as int, SCALE as int);
            lemma_abs_mul_bound(self.right.y as int, 0x20000, x as int, SCALE as int);
            lemma_abs_mul_bound(self.right.z as int, 0x20000, x as int, SCALE as int);
            lemma_tdiv_bound(self.right.x as int * x as int, SCALE as int, 0x20000);
            lemma_tdiv_bound(self.right.y as int * x as int, SCALE as int, 0x20000);
            lemma_tdiv_bound(self.right.z as int * x as int, SCALE as int, 0x20000);
            lemma_abs_mul_bound(self.up.x as int, 0x20000, y as int, SCALE as int);
            lemma_abs_mul_bound(self.up.y as int, 0x20000, y as int, SCALE as int);
            lemma_abs_mul_bound(self.up.z as int, 0x20000, y as int, SCALE as int);
            lemma_tdiv_bound(self.up.x as int * y as int, SCALE as int, 0x20000);
            lemma_tdiv_bound(self.up.y as int * y as int, SCALE as int, 0x20000);
            lemma_tdiv_bound(self.up.z as int * y as int, SCALE as int, 0x20000);
        }
        let lens = self.right.scale(x).add(self.up.scale(y));
        proof {
            lemma_abs_mul_bound(lens.x as int, 0x40000, self.lens_radius as int, 0x80000000);
            lemma_abs_mul_bound(lens.y as int, 0x40000, self.lens_radius as int, 0x80000000);
            lemma_abs_mul_bound(lens.z as int, 0x40000, self.lens_radius as int, 0x80000000);
            lemma_tdiv_bound(lens.x as int * self.lens_radius as int, SCALE as int, 0x200000000000);
            lemma_tdiv_bound(lens.y as int * self.lens_radius as int, SCALE as int, 0x200000000000);
            lemma_tdiv_bound(lens.z as int * self.lens_radius as int, SCALE as int, 0x200000000000);
        }
        let offset = lens.scale(self.lens_radius);
        proof {
            lemma_abs_mul_bound(self.horizontal.x as int, 0x4000000000, u as int - 32768, 0x48000);
            lemma_abs_mul_bound(self.horizontal.y as int, 0x4000000000, u as int - 32768, 0x48000);
            lemma_abs_mul_bound(self.horizontal.z as int, 0x4000000000, u as int - 32768, 0x48000);
            lemma_tdiv_bound(self.horizontal.x as int * (u as int - 32768), SCALE as int, 0x12000000000);
            lemma_tdiv_bound(self.horizontal.y as int * (u as int - 32768), SCALE as int, 0x12000000000);
            lemma_tdiv_bound(self.horizontal.z as int * (u as int - 32768), SCALE as int, 0x12000000000);
            lemma_abs_mul_bound(self.vertical.x as int, 0x4000000000, v as int - 32768, 0x48000);
            lemma_abs_mul_bound(self.vertical.y as int, 0x4000000000, v as int - 32768, 0x48000);
            lemma_abs_mul_bound(self.vertical.z as int, 0x4000000000, v as int - 32768, 0x48000);
            lemma_tdiv_bound(self.vertical.x as int * (v as int - 32768), SCALE as int, 0x12000000000);
            lemma_tdiv_bound(self.vertical.y as int * (v as int - 32768), SCALE as int, 0x12000000000);
            lemma_tdiv_bound(self.vertical.z as int * (v as int - 32768), SCALE as int, 0x12000000000);
        }
        let target = self.direction.add(self.horizontal.scale(u - 32768)).add(self.vertical.scale(v - 32768));
        let d = target.sub(offset).normalize();
        Ray::new(self.origin.add(offset), d)
    }
}

/// For any image coordinates, any camera whose focus target is at least
/// unit distance from the lens sample point, and any random state, the
/// direction `ray_at` produces has unit length up to the fixed-point
/// grid: its exact squared norm differs from one by less than `8/SCALE`.
pub proof fn lemma_ray_at_unit_direction(c: Camera, u: int, v: int, state: u64)
    requires
        ({
            let (x, y, st) = disc_sample_s(state, SAMPLE_FUEL as nat);
            let offset = vscale(vadd(vscale(v3(c.right), x), vscale(v3(c.up), y)), c.lens_radius as int);
            let target = vadd(
                vadd(v3(c.direction), vscale(v3(c.horizontal), u - 32768)),
                vscale(v3(c.vertical), v - 32768),
            );
            vnormq(vsub(target, offset)) >= 0x100000000
        }),
    ensures
        ({
            let ((o, d), st) = cam_ray_s(c, u, v, state);
            0x100000000 - 524291 <= vnormq(d) <= 0x100000000 + 524291
        }),
{
    let (x, y, st) = disc_sample_s(state, SAMPLE_FUEL as nat);
    let offset = vscale(vadd(vscale(v3(c.right), x), vscale(v3(c.up), y)), c.lens_radius as int);
    let target = vadd(
        vadd(v3(c.direction), vscale(v3(c.horizontal), u - 32768)),
        vscale(v3(c.vertical), v - 32768),
    );
    lemma_normalize_near_unit(vsub(target, offset));
}

} // verus!
