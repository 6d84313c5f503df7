//! The bounding capability of scene objects: every object can report an
//! axis-aligned bounding volume and whether it reaches into a given box.

use vstd::prelude::*;
use crate::vec3::Vec3;
use crate::axis::Axis;
use crate::bbox::BBox;

verus! {

/// Objects with an axis-aligned spatial extent.
pub trait Projectable: Sized {
    /// The object's bounding volume.
    spec fn spec_bound(&self) -> BBox;

    /// The object reaches into the box `b` (used to route the object into
    /// the halves of a spatial split).
    spec fn spec_in_box(&self, b: BBox) -> bool;

    /// Componentwise minimum of `v` and the bound's lower corner.  Like
    /// the other bound accessors, it also reports that the bound is
    /// well-formed and non-degenerate.
    fn get_min(&self, v: Vec3) -> (r: Vec3)
        ensures
            self.spec_bound().wf(),
            self.spec_bound().proper(),
            r.x == if v.x < self.spec_bound().bmin.x { v.x } else { self.spec_bound().bmin.x },
            r.y == if v.y < self.spec_bound().bmin.y { v.y } else { self.spec_bound().bmin.y },
            r.z == if v.z < self.spec_bound().bmin.z { v.z } else { self.spec_bound().bmin.z },
    ;

    /// Componentwise maximum of `v` and the bound's upper corner.
    fn get_max(&self, v: Vec3) -> (r: Vec3)
        ensures
            self.spec_bound().wf(),
            self.spec_bound().proper(),
            r.x == if v.x > self.spec_bound().bmax.x { v.x } else { self.spec_bound().bmax.x },
            r.y == if v.y > self.spec_bound().bmax.y { v.y } else { self.spec_bound().bmax.y },
            r.z == if v.z > self.spec_bound().bmax.z { v.z } else { self.spec_bound().bmax.z },
    ;

    fn get_min_bound(&self) -> (r: Vec3)
        ensures
            self.spec_bound().wf(),
            self.spec_bound().proper(),
            r == self.spec_bound().bmin,
    ;

    fn get_max_bound(&self) -> (r: Vec3)
        ensures
            self.spec_bound().wf(),
            self.spec_bound().proper(),
            r == self.spec_bound().bmax,
    ;

    /// Twice the area of the bound projected along `axis`.
    fn square_projected(&self, axis: &Axis) -> (r: i128)
        ensures
            r >= 0,
    ;

    fn in_box(&self, b: BBox) -> (r: bool)
        ensures
            r == self.spec_in_box(b),
    ;
}

} // verus!
