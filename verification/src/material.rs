//! The material capability: what color a surface shows at a hit and how
//! much of a reflected ray's color it contributes.

use vstd::prelude::*;
use crate::math::SCALE;
use crate::vec3::Vec3;

verus! {

/// Shading behaviour of a surface.  Colors are fixed point: `SCALE` is
/// full intensity of a channel.
pub trait Material: Sized {
    /// The color shown for a hit with the given data.
    spec fn spec_color(&self, data: crate::intersect::IntersectData<Self>) -> Vec3;

    /// The reflectance coefficient, in `[0, SCALE]`.
    spec fn spec_reflect(&self) -> i64;

    fn get_color(&self, data: &crate::intersect::IntersectData<Self>) -> (c: Vec3)
        ensures
            c == self.spec_color(*data),
            0 <= c.x <= SCALE,
            0 <= c.y <= SCALE,
            0 <= c.z <= SCALE,
    ;

    fn get_reflect(&self) -> (r: i64)
        ensures
            r == self.spec_reflect(),
            0 <= r <= SCALE,
    ;
}

/// A material of one uniform color.
#[derive(Clone, Copy, Debug, PartialEq, Eq, Structural)]
pub struct SolidColorMat {
    pub color: Vec3,
    pub reflect: i64,
}

/// A channel clamped into `[0, SCALE]`.
pub open spec fn channel_clamped(c: i64) -> i64 {
    crate::math::clamp_spec(c as int, 0, SCALE as int) as i64
}

impl Material for SolidColorMat {
    open spec fn spec_color(&self, data: crate::intersect::IntersectData<Self>) -> Vec3 {
        Vec3 {
            x: channel_clamped(self.color.x),
            y: channel_clamped(self.color.y),
            z: channel_clamped(self.color.z),
        }
    }

    open spec fn spec_reflect(&self) -> i64 {
        channel_clamped(self.reflect)
    }

    fn get_color(&self, data: &crate::intersect::IntersectData<Self>) -> (c: Vec3) {
        Vec3 {
            x: clamp_channel(self.color.x),
            y: clamp_channel(self.color.y),
            z: clamp_channel(self.color.z),
        }
    }

    fn get_reflect(&self) -> (r: i64) {
        clamp_channel(self.reflect)
    }
}

/// Clamp a channel into `[0, SCALE]`.
pub fn clamp_channel(c: i64) -> (r: i64)
    ensures
        r == channel_clamped(c),
        0 <= r <= SCALE,
{
    if c < 0 {
        0
    } else if c > SCALE {
        SCALE
    } else {
        c
    }
}

} // verus!
