//! The full scene-object capability, and a simple verified primitive: an
//! axis-aligned solid box.

use vstd::prelude::*;
use crate::vec3::Vec3;
use crate::bbox::{BBox, entry_spec};
use crate::ray::{Ray, at_spec};
use crate::dist::Dist;
use crate::material::Material;
use crate::intersect::{Intersectable, IntersectData, Uv};
use crate::projectable::Projectable;
use crate::axis::Axis;

verus! {

/// A scene object: something a ray can hit that also reports its spatial
/// extent, so it can live inside an acceleration tree.
pub trait RayLover<M: Material>: Intersectable<M> + Projectable {
}

/// An axis-aligned solid box with one material.  Hits report the entry
/// point of the slab test and the fixed normal the box was built with.
pub struct BoxObject<M> {
    bbox: BBox,
    normal: Vec3,
    material: M,
}

impl<M> BoxObject<M> {
    #[verifier::type_invariant]
    pub closed spec fn inv(self) -> bool {
        &&& self.bbox.wf()
        &&& self.bbox.proper()
        &&& self.normal.wf()
    }

    /// The box this object fills.
    pub closed spec fn spec_bbox(self) -> BBox {
        self.bbox
    }

    /// The normal the object reports on every hit.
    pub closed spec fn spec_normal(self) -> Vec3 {
        self.normal
    }

    /// The object's material.
    pub closed spec fn spec_material(self) -> M {
        self.material
    }

    pub fn new(bbox: BBox, normal: Vec3, material: M) -> (o: BoxObject<M>)
        requires
            bbox.wf(),
            bbox.proper(),
            normal.wf(),
        ensures
            o.spec_bbox() == bbox,
            o.spec_normal() == normal,
            o.spec_material() == material,
    {
        BoxObject { bbox, normal, material }
    }
}

impl<M: Material + Copy> Intersectable<M> for BoxObject<M> {
    open spec fn spec_intersect(&self, r: Ray) -> Option<(Dist, IntersectData<M>)> {
        match entry_spec(self.spec_bbox(), r) {
            None => None,
            Some(d) => Some((d, IntersectData {
                normal: self.spec_normal(),
                pos: at_spec(r, d),
                uv: Uv { u: 0, v: 0 },
                material: self.spec_material(),
            })),
        }
    }

    fn intersect(&self, r: Ray) -> (res: Option<(Dist, IntersectData<M>)>) {
        proof {
            use_type_invariant(self);
        }
        match self.bbox.intersect(r) {
            None => None,
            Some(d) => Some((d, IntersectData {
                normal: self.normal,
                pos: r.at(d),
                uv: Uv { u: 0, v: 0 },
                material: self.material,
            })),
        }
    }
}

impl<M> Projectable for BoxObject<M> {
    closed spec fn spec_bound(&self) -> BBox {
        self.bbox
    }

    open spec fn spec_in_box(&self, b: BBox) -> bool {
        self.spec_bound().spec_overlap(b)
    }

    fn get_min(&self, v: Vec3) -> (r: Vec3) {
        proof {
            use_type_invariant(self);
        }
        BBox::vmin(&v, &self.bbox.bmin)
    }

    fn get_max(&self, v: Vec3) -> (r: Vec3) {
        proof {
            use_type_invariant(self);
        }
        BBox::vmax(&v, &self.bbox.bmax)
    }

    fn get_min_bound(&self) -> (r: Vec3) {
        proof {
            use_type_invariant(self);
        }
        self.bbox.bmin
    }

    fn get_max_bound(&self) -> (r: Vec3) {
        proof {
            use_type_invariant(self);
        }
        self.bbox.bmax
    }

    fn square_projected(&self, axis: &Axis) -> (r: i128) {
        proof {
            use_type_invariant(self);
        }
        let pmin = axis.get_projected(self.bbox.bmin);
        let pmax = axis.get_projected(self.bbox.bmax);
        let flat = BBox { bmin: pmin, bmax: pmax };
        flat.square()
    }

    fn in_box(&self, b: BBox) -> (r: bool) {
        self.bbox.overlap(&b)
    }
}

impl<M: Material + Copy> RayLover<M> for BoxObject<M> {
}

} // verus!
