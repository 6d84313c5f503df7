//! Computing the bounding volume of a whole collection of objects: the
//! componentwise union of every member's bounding volume.

use vstd::prelude::*;
use crate::vec3::Vec3;
use crate::bbox::BBox;
use crate::math::COORD_LIMIT;
use crate::projectable::Projectable;

verus! {

/// Things that can report a bounding volume.
pub trait Boundable: Sized {
    fn get_bound_box(&self) -> (b: BBox)
        ensures
            b.wf(),
    ;
}

impl<O: Projectable> Boundable for Vec<O> {
    /// The union of the members' bounding volumes.  Every member's volume
    /// is contained in the result, and each face of the result is touched
    /// by some member, so the union is tight.  An empty list yields the
    /// inverted accumulator seed, a degenerate box (`bmin > bmax`) that
    /// must be excluded from use.
    fn get_bound_box(&self) -> (b: BBox)
        ensures
            forall|i: int|
                0 <= i < self@.len() ==> b.spec_contains_box(#[trigger] self@[i].spec_bound()),
            self@.len() == 0 ==> {
                &&& b.bmin.x == COORD_LIMIT && b.bmin.y == COORD_LIMIT
                    && b.bmin.z == COORD_LIMIT
                &&& b.bmax.x == -COORD_LIMIT && b.bmax.y == -COORD_LIMIT
                    && b.bmax.z == -COORD_LIMIT
            },
            self@.len() > 0 ==> {
                &&& b.proper()
                &&& exists|i: int| 0 <= i < self@.len()
                    && b.bmin.x == (#[trigger] self@[i].spec_bound()).bmin.x
                &&& exists|i: int| 0 <= i < self@.len()
                    && b.bmin.y == (#[trigger] self@[i].spec_bound()).bmin.y
                &&& exists|i: int| 0 <= i < self@.len()
                    && b.bmin.z == (#[trigger] self@[i].spec_bound()).bmin.z
                &&& exists|i: int| 0 <= i < self@.len()
                    && b.bmax.x == (#[trigger] self@[i].spec_bound()).bmax.x
                &&& exists|i: int| 0 <= i < self@.len()
                    && b.bmax.y == (#[trigger] self@[i].spec_bound()).bmax.y
                &&& exists|i: int| 0 <= i < self@.len()
                    && b.bmax.z == (#[trigger] self@[i].spec_bound()).bmax.z
            },
    {
        let mut bmin = Vec3 { x: COORD_LIMIT, y: COORD_LIMIT, z: COORD_LIMIT };
        let mut bmax = Vec3 { x: -COORD_LIMIT, y: -COORD_LIMIT, z: -COORD_LIMIT };
        let mut k: usize = 0;
        while k < self.len()
            invariant
                k <= self@.len(),
                forall|i: int| 0 <= i < k ==> {
                    let bb = #[trigger] self@[i].spec_bound();
                    &&& bmin.x <= bb.bmin.x && bmin.y <= bb.bmin.y && bmin.z <= bb.bmin.z
                    &&& bmax.x >= bb.bmax.x && bmax.y >= bb.bmax.y && bmax.z >= bb.bmax.z
                },
                k == 0 ==> bmin == (Vec3 { x: COORD_LIMIT, y: COORD_LIMIT, z: COORD_LIMIT })
                    && bmax.x == -COORD_LIMIT && bmax.y == -COORD_LIMIT
                    && bmax.z == -COORD_LIMIT,
                k > 0 ==> {
                    &&& (exists|i: int| 0 <= i < k
                        && bmin.x == (#[trigger] self@[i].spec_bound()).bmin.x)
                    &&& (exists|i: int| 0 <= i < k
                        && bmin.y == (#[trigger] self@[i].spec_bound()).bmin.y)
                    &&& (exists|i: int| 0 <= i < k
                        && bmin.z == (#[trigger] self@[i].spec_bound()).bmin.z)
                    &&& (exists|i: int| 0 <= i < k
                        && bmax.x == (#[trigger] self@[i].spec_bound()).bmax.x)
                    &&& (exists|i: int| 0 <= i < k
                        && bmax.y == (#[trigger] self@[i].spec_bound()).bmax.y)
                    &&& (exists|i: int| 0 <= i < k
                        && bmax.z == (#[trigger] self@[i].spec_bound()).bmax.z)
                    &&& bmin.x <= bmax.x && bmin.y <= bmax.y && bmin.z <= bmax.z
                },
                bmin.wf(),
                bmax.wf(),
            decreases self@.len() - k,
        {
            let obj = &self[k];
            let newmin = obj.get_min(bmin);
            let newmax = obj.get_max(bmax);
            bmin = newmin;
            bmax = newmax;
            k = k + 1;
        }
        BBox { bmin, bmax }
    }
}

} // verus!
