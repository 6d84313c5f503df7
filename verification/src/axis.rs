//! The three coordinate axes, with component selection and replacement.

use vstd::prelude::*;
use crate::vec3::Vec3;

verus! {

/// One of the three coordinate axes.
#[derive(Clone, Copy, Debug, PartialEq, Eq, Structural)]
pub enum Axis {
    X,
    Y,
    Z,
}

impl Axis {
    /// The component of `v` along this axis.
    pub open spec fn spec_get(self, v: Vec3) -> i64 {
        match self {
            Axis::X => v.x,
            Axis::Y => v.y,
            Axis::Z => v.z,
        }
    }

    /// `v` with the component along this axis replaced by `n`.
    pub open spec fn spec_set(self, v: Vec3, n: i64) -> Vec3 {
        match self {
            Axis::X => Vec3 { x: n, y: v.y, z: v.z },
            Axis::Y => Vec3 { x: v.x, y: n, z: v.z },
            Axis::Z => Vec3 { x: v.x, y: v.y, z: n },
        }
    }

    pub fn get(&self, v: Vec3) -> (r: i64)
        ensures
            r == self.spec_get(v),
    {
        match self {
            Axis::X => v.x,
            Axis::Y => v.y,
            Axis::Z => v.z,
        }
    }

    pub fn set(&self, v: Vec3, n: i64) -> (r: Vec3)
        ensures
            r == self.spec_set(v, n),
    {
        match self {
            Axis::X => Vec3 { x: n, y: v.y, z: v.z },
            Axis::Y => Vec3 { x: v.x, y: n, z: v.z },
            Axis::Z => Vec3 { x: v.x, y: v.y, z: n },
        }
    }

    /// `v` with the component along this axis dropped to zero.
    pub fn get_projected(&self, v: Vec3) -> (r: Vec3)
        ensures
            r == match *self {
                Axis::X => (Vec3 { x: v.x, y: 0, z: v.z }),
                Axis::Y => (Vec3 { x: v.x, y: v.y, z: 0 }),
                Axis::Z => (Vec3 { x: 0, y: v.y, z: v.z }),
            },
    {
        match self {
            Axis::X => Vec3 { x: v.x, y: 0, z: v.z },
            Axis::Y => Vec3 { x: v.x, y: v.y, z: 0 },
            Axis::Z => Vec3 { x: 0, y: v.y, z: v.z },
        }
    }
}

} // verus!
