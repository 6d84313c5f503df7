//! Hit records and the intersection capability of scene objects.

use vstd::prelude::*;
use crate::vec3::Vec3;
use crate::ray::Ray;
use crate::dist::Dist;
use crate::material::{Material, SolidColorMat};

verus! {

/// A 2D surface parameterization of a hit, fixed point.
#[derive(Clone, Copy, Debug, PartialEq, Eq, Structural)]
pub struct Uv {
    pub u: i64,
    pub v: i64,
}

/// Everything the shader needs to know about one surface hit.
#[derive(Clone, Copy, Debug)]
pub struct IntersectData<M> {
    pub normal: Vec3,
    pub pos: Vec3,
    pub material: M,
    pub uv: Uv,
}

impl<M> IntersectData<M> {
    /// Normal and position within the coordinate range.
    pub open spec fn wf(self) -> bool {
        &&& self.normal.wf()
        &&& self.pos.wf()
    }
}

/// Objects a ray can hit.  `spec_intersect` fixes the result as a function
/// of the object and the ray, so shading is deterministic.
pub trait Intersectable<M: Material>: Sized {
    /// The hit this object reports for `r`, if any.
    spec fn spec_intersect(&self, r: Ray) -> Option<(Dist, IntersectData<M>)>;

    fn intersect(&self, r: Ray) -> (res: Option<(Dist, IntersectData<M>)>)
        requires
            r.wf(),
        ensures
            res == self.spec_intersect(r),
            match res {
                Some((d, data)) => d.wf() && d.num >= 0 && data.wf(),
                None => true,
            },
    ;
}

/// A hit record with fixed sample values, for exercising shading code.
pub fn gen_test_intersectable() -> (d: IntersectData<SolidColorMat>)
    ensures
        d.normal == (Vec3 { x: 0, y: crate::math::SCALE, z: 0 }),
        d.pos == (Vec3 { x: 0, y: 0, z: 0 }),
        d.uv == (Uv { u: 0, v: 0 }),
        d.wf(),
{
    IntersectData {
        normal: Vec3 { x: 0, y: crate::math::SCALE, z: 0 },
        pos: Vec3 { x: 0, y: 0, z: 0 },
        uv: Uv { u: 0, v: 0 },
        material: SolidColorMat {
            color: Vec3 { x: crate::math::SCALE, y: crate::math::SCALE, z: crate::math::SCALE },
            reflect: 0,
        },
    }
}

} // verus!
