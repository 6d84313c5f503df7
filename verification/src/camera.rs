//! The pinhole camera: one ray per pixel, aimed from the eye through a
//! view plane spanned by the view direction, the up vector and their
//! cross product.

use vstd::prelude::*;
use crate::math::{SCALE, tdiv};
use crate::vec3::Vec3;
use crate::ray::Ray;

verus! {

/// Fixed-point view-plane step per pixel of offset from the image center.
pub const PIX_STEP: i64 = 6;

/// Bound on image dimensions and pixel coordinates.
pub const PIXEL_LIMIT: i64 = 1048576;

pub struct Camera {
    pub pos: Vec3,
    pub look_at: Vec3,
    pub up: Vec3,
    pub fov: i64,
    pub w: i64,
    pub h: i64,
}

/// The direction of the ray for pixel `(x, y)`: the normalized view
/// direction, nudged on the view plane by the pixel's offset from the
/// image center, and normalized again.
pub open spec fn spec_ray_dir(cam: Camera, x: i64, y: i64) -> Vec3 {
    let dir = cam.look_at.sub_spec(cam.pos).normalize_spec();
    let right = dir.spec_cross(cam.up).normalize_spec();
    let dx = x - cam.w / 2;
    let dy = y - cam.h / 2;
    let raw = Vec3 {
        x: (dir.x - tdiv(cam.up.x * dy * PIX_STEP, SCALE as int)
            + tdiv(right.x * dx * PIX_STEP, SCALE as int)) as i64,
        y: (dir.y - tdiv(cam.up.y * dy * PIX_STEP, SCALE as int)
            + tdiv(right.y * dx * PIX_STEP, SCALE as int)) as i64,
        z: (dir.z - tdiv(cam.up.z * dy * PIX_STEP, SCALE as int)
            + tdiv(right.z * dx * PIX_STEP, SCALE as int)) as i64,
    };
    raw.normalize_spec()
}

impl Camera {
    /// Eye and target in range, a short up vector, sane image size.
    pub open spec fn wf(self) -> bool {
        &&& self.pos.wf()
        &&& self.look_at.wf()
        &&& self.up.bounded(4 * SCALE as int)
        &&& 0 <= self.w <= PIXEL_LIMIT
        &&& 0 <= self.h <= PIXEL_LIMIT
    }

    /// The camera ray for pixel `(x, y)`.
    pub fn get_ray(&self, x: i64, y: i64) -> (r: Ray)
        requires
            self.wf(),
            -PIXEL_LIMIT <= x <= PIXEL_LIMIT,
            -PIXEL_LIMIT <= y <= PIXEL_LIMIT,
        ensures
            r.pos == self.pos,
            r.dir == spec_ray_dir(*self, x, y),
            r.dir.bounded(SCALE as int),
            r.wf(),
    {
        let dir = self.look_at.sub(self.pos).normalize();
        let rawcross = dir.cross(self.up);
        proof {
            crate::vec3::mul_abs_bound2(dir.y as int, SCALE as int, self.up.z as int,
                4 * SCALE as int);
            crate::vec3::mul_abs_bound2(dir.z as int, SCALE as int, self.up.y as int,
                4 * SCALE as int);
            crate::vec3::mul_abs_bound2(dir.z as int, SCALE as int, self.up.x as int,
                4 * SCALE as int);
            crate::vec3::mul_abs_bound2(dir.x as int, SCALE as int, self.up.z as int,
                4 * SCALE as int);
            crate::vec3::mul_abs_bound2(dir.x as int, SCALE as int, self.up.y as int,
                4 * SCALE as int);
            crate::vec3::mul_abs_bound2(dir.y as int, SCALE as int, self.up.x as int,
                4 * SCALE as int);
        }
        let right = rawcross.normalize();
        let half_w: i64 = ((self.w as u64) / 2) as i64;
        let half_h: i64 = ((self.h as u64) / 2) as i64;
        let dx: i64 = x - half_w;
        let dy: i64 = y - half_h;
        proof {
            crate::vec3::mul_abs_bound2(self.up.x as int, 4 * SCALE as int, dy as int,
                2 * PIXEL_LIMIT as int);
            crate::vec3::mul_abs_bound2(self.up.y as int, 4 * SCALE as int, dy as int,
                2 * PIXEL_LIMIT as int);
            crate::vec3::mul_abs_bound2(self.up.z as int, 4 * SCALE as int, dy as int,
                2 * PIXEL_LIMIT as int);
            crate::vec3::mul_abs_bound2(self.up.x as int * dy, 0x80_0000_0000,
                PIX_STEP as int, PIX_STEP as int);
            crate::vec3::mul_abs_bound2(self.up.y as int * dy, 0x80_0000_0000,
                PIX_STEP as int, PIX_STEP as int);
            crate::vec3::mul_abs_bound2(self.up.z as int * dy, 0x80_0000_0000,
                PIX_STEP as int, PIX_STEP as int);
            crate::vec3::mul_abs_bound2(right.x as int, SCALE as int, dx as int,
                2 * PIXEL_LIMIT as int);
            crate::vec3::mul_abs_bound2(right.y as int, SCALE as int, dx as int,
                2 * PIXEL_LIMIT as int);
            crate::vec3::mul_abs_bound2(right.z as int, SCALE as int, dx as int,
                2 * PIXEL_LIMIT as int);
            crate::vec3::mul_abs_bound2(right.x as int * dx, 0x80_0000_0000,
                PIX_STEP as int, PIX_STEP as int);
            crate::vec3::mul_abs_bound2(right.y as int * dx, 0x80_0000_0000,
                PIX_STEP as int, PIX_STEP as int);
            crate::vec3::mul_abs_bound2(right.z as int * dx, 0x80_0000_0000,
                PIX_STEP as int, PIX_STEP as int);
        }
        let ux = crate::math::div_toward_zero_wide(
            (self.up.x as i128) * (dy as i128) * (PIX_STEP as i128), SCALE as i128);
        let uy = crate::math::div_toward_zero_wide(
            (self.up.y as i128) * (dy as i128) * (PIX_STEP as i128), SCALE as i128);
        let uz = crate::math::div_toward_zero_wide(
            (self.up.z as i128) * (dy as i128) * (PIX_STEP as i128), SCALE as i128);
        let rx = crate::math::div_toward_zero_wide(
            (right.x as i128) * (dx as i128) * (PIX_STEP as i128), SCALE as i128);
        let ry = crate::math::div_toward_zero_wide(
            (right.y as i128) * (dx as i128) * (PIX_STEP as i128), SCALE as i128);
        let rz = crate::math::div_toward_zero_wide(
            (right.z as i128) * (dx as i128) * (PIX_STEP as i128), SCALE as i128);
        let raw = Vec3 {
            x: (dir.x as i128 - ux + rx) as i64,
            y: (dir.y as i128 - uy + ry) as i64,
            z: (dir.z as i128 - uz + rz) as i64,
        };
        Ray { pos: self.pos, dir: raw.normalize() }
    }
}

} // verus!
