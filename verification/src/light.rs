//! Light sources.

use vstd::prelude::*;
use crate::math::SCALE;
use crate::vec3::Vec3;

verus! {

/// A light source; currently a point light with a world position and an
/// RGB intensity (fixed point, `SCALE` is full intensity).
#[derive(Clone, Copy, Debug, PartialEq, Eq, Structural)]
pub enum Light {
    PointLight(Vec3, Vec3),
}

impl Light {
    /// The light's position is within the coordinate range and its
    /// intensity channels are proper fixed-point fractions.
    pub open spec fn wf(self) -> bool {
        match self {
            Light::PointLight(v, c) => {
                &&& v.wf()
                &&& 0 <= c.x <= SCALE
                &&& 0 <= c.y <= SCALE
                &&& 0 <= c.z <= SCALE
            },
        }
    }
}

/// A point light of full white intensity.
pub fn point_light_white(v: Vec3) -> (l: Light)
    ensures
        l == Light::PointLight(v, Vec3 { x: SCALE, y: SCALE, z: SCALE }),
{
    Light::PointLight(v, Vec3 { x: SCALE, y: SCALE, z: SCALE })
}

} // verus!
