//! Rays: an origin, a direction, mirror reflection, and the point a ray
//! reaches at a given rational parameter.

use vstd::prelude::*;
use crate::math::{SCALE, COORD_LIMIT, DIR_LIMIT, DIR_UNIT_LIMIT, tdiv, clamp_spec};
use crate::vec3::Vec3;
use crate::dist::Dist;

verus! {

/// A ray with fixed-point origin and direction.  The direction need not be
/// normalized: rational parameters along the same ray stay comparable.
#[derive(Clone, Copy, Debug, PartialEq, Eq, Structural)]
pub struct Ray {
    pub pos: Vec3,
    pub dir: Vec3,
}

/// The mirror image of `dir` about the normal `n`, scaled back to fixed
/// point and clamped into the direction range:
/// `dir - n * (2 * dot(dir, n) / SCALE^2)` componentwise.
pub open spec fn reflect_dir_spec(dir: Vec3, n: Vec3) -> Vec3 {
    let d2 = 2 * dir.spec_dot(n);
    let s2 = (SCALE as int) * (SCALE as int);
    Vec3 {
        x: clamp_spec(dir.x - tdiv(d2 * n.x, s2), -DIR_UNIT_LIMIT as int,
            DIR_UNIT_LIMIT as int) as i64,
        y: clamp_spec(dir.y - tdiv(d2 * n.y, s2), -DIR_UNIT_LIMIT as int,
            DIR_UNIT_LIMIT as int) as i64,
        z: clamp_spec(dir.z - tdiv(d2 * n.z, s2), -DIR_UNIT_LIMIT as int,
            DIR_UNIT_LIMIT as int) as i64,
    }
}

/// The point `pos + dir * t`, with each coordinate rounded toward zero and
/// clamped into the coordinate range.
pub open spec fn at_spec(r: Ray, t: Dist) -> Vec3 {
    Vec3 {
        x: clamp_spec(r.pos.x + tdiv(r.dir.x * t.num, t.den as int), -COORD_LIMIT as int,
            COORD_LIMIT as int) as i64,
        y: clamp_spec(r.pos.y + tdiv(r.dir.y * t.num, t.den as int), -COORD_LIMIT as int,
            COORD_LIMIT as int) as i64,
        z: clamp_spec(r.pos.z + tdiv(r.dir.z * t.num, t.den as int), -COORD_LIMIT as int,
            COORD_LIMIT as int) as i64,
    }
}

impl Ray {
    /// Origin in the coordinate range, direction in the direction range.
    pub open spec fn wf(self) -> bool {
        &&& self.pos.wf()
        &&& self.dir.bounded(DIR_LIMIT as int)
    }

    /// The ray continuing from a hit point with the direction mirrored
    /// about the surface normal there.
    pub fn reflect(&self, intersect_pos: Vec3, intersect_norm: Vec3) -> (r: Ray)
        requires
            self.pos.wf(),
            self.dir.bounded(DIR_UNIT_LIMIT as int),
            intersect_norm.wf(),
        ensures
            r.pos == intersect_pos,
            r.dir == reflect_dir_spec(self.dir, intersect_norm),
            r.dir.bounded(DIR_UNIT_LIMIT as int),
    {
        let d2: i128 = 2 * self.dir.dot(intersect_norm);
        let s2: i128 = 1048576;
        proof {
            assert(s2 == (SCALE as int) * (SCALE as int));
            crate::vec3::mul_abs_bound2(self.dir.x as int, DIR_UNIT_LIMIT as int,
                intersect_norm.x as int, COORD_LIMIT as int);
            crate::vec3::mul_abs_bound2(self.dir.y as int, DIR_UNIT_LIMIT as int,
                intersect_norm.y as int, COORD_LIMIT as int);
            crate::vec3::mul_abs_bound2(self.dir.z as int, DIR_UNIT_LIMIT as int,
                intersect_norm.z as int, COORD_LIMIT as int);
            crate::vec3::mul_abs_bound2(d2 as int, 0x40_0000_0000_0000_0000,
                intersect_norm.x as int, COORD_LIMIT as int);
            crate::vec3::mul_abs_bound2(d2 as int, 0x40_0000_0000_0000_0000,
                intersect_norm.y as int, COORD_LIMIT as int);
            crate::vec3::mul_abs_bound2(d2 as int, 0x40_0000_0000_0000_0000,
                intersect_norm.z as int, COORD_LIMIT as int);
        }
        let tx: i128 = crate::math::div_toward_zero_wide(d2 * (intersect_norm.x as i128), s2);
        let ty: i128 = crate::math::div_toward_zero_wide(d2 * (intersect_norm.y as i128), s2);
        let tz: i128 = crate::math::div_toward_zero_wide(d2 * (intersect_norm.z as i128), s2);
        let dir = Vec3 {
            x: crate::math::clamp_wide(self.dir.x as i128 - tx, -DIR_UNIT_LIMIT,
                DIR_UNIT_LIMIT),
            y: crate::math::clamp_wide(self.dir.y as i128 - ty, -DIR_UNIT_LIMIT,
                DIR_UNIT_LIMIT),
            z: crate::math::clamp_wide(self.dir.z as i128 - tz, -DIR_UNIT_LIMIT,
                DIR_UNIT_LIMIT),
        };
        Ray { pos: intersect_pos, dir }
    }

    /// The point this ray reaches at parameter `t`.
    pub fn at(&self, t: Dist) -> (p: Vec3)
        requires
            self.wf(),
            t.wf(),
        ensures
            p == at_spec(*self, t),
            p.wf(),
    {
        proof {
            crate::vec3::mul_abs_bound2(self.dir.x as int, DIR_LIMIT as int,
                t.num as int, crate::dist::NUM_LIMIT as int);
            crate::vec3::mul_abs_bound2(self.dir.y as int, DIR_LIMIT as int,
                t.num as int, crate::dist::NUM_LIMIT as int);
            crate::vec3::mul_abs_bound2(self.dir.z as int, DIR_LIMIT as int,
                t.num as int, crate::dist::NUM_LIMIT as int);
        }
        let nx: i128 = crate::math::div_toward_zero_wide(
            (self.dir.x as i128) * (t.num as i128), t.den as i128);
        let ny: i128 = crate::math::div_toward_zero_wide(
            (self.dir.y as i128) * (t.num as i128), t.den as i128);
        let nz: i128 = crate::math::div_toward_zero_wide(
            (self.dir.z as i128) * (t.num as i128), t.den as i128);
        Vec3 {
            x: crate::math::clamp_wide(self.pos.x as i128 + nx, -COORD_LIMIT, COORD_LIMIT),
            y: crate::math::clamp_wide(self.pos.y as i128 + ny, -COORD_LIMIT, COORD_LIMIT),
            z: crate::math::clamp_wide(self.pos.z as i128 + nz, -COORD_LIMIT, COORD_LIMIT),
        }
    }
}

} // verus!
