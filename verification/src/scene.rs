//! The scene: a camera, a flat list of top-level objects (each possibly an
//! acceleration tree of its own), and the lights; with the scene-wide
//! nearest-hit query by linear scan.

use vstd::prelude::*;
use crate::camera::Camera;
use crate::light::Light;
use crate::ray::Ray;
use crate::dist::Dist;
use crate::material::Material;
use crate::intersect::{Intersectable, IntersectData};
use crate::kdtree::{combine_hit, scan_hits};

verus! {

/// Everything the renderer needs: camera, objects and lights.
pub struct Scene<O> {
    pub cam: Camera,
    pub objects: Vec<O>,
    pub lights: Vec<Light>,
}

impl<O> Scene<O> {
    /// The camera is well-formed, every light position is in range, and
    /// the light list is short enough for exact color accumulation.
    pub open spec fn wf(self) -> bool {
        &&& self.cam.wf()
        &&& forall|i: int| 0 <= i < self.lights@.len() ==> (#[trigger] self.lights@[i]).wf()
        &&& self.lights@.len() <= 1024
    }
}

/// Fold one more object's hit into the running nearest hit: keep the
/// nearer of the two, a tie going to the new candidate.
pub fn obj_min<M: Material, O: Intersectable<M>>(
    min: Option<(Dist, IntersectData<M>)>,
    obj: &O,
    r: Ray,
) -> (res: Option<(Dist, IntersectData<M>)>)
    requires
        r.wf(),
        match min {
            Some((d, data)) => d.wf() && d.num >= 0 && data.wf(),
            None => true,
        },
    ensures
        res == combine_hit(min, obj.spec_intersect(r)),
        match res {
            Some((d, data)) => d.wf() && d.num >= 0 && data.wf(),
            None => true,
        },
{
    let cur = obj.intersect(r);
    match (min, cur) {
        (None, c) => c,
        (a, None) => a,
        (Some(a), Some(c)) => {
            if a.0.lt(c.0) {
                Some(a)
            } else {
                Some(c)
            }
        },
    }
}

/// The nearest hit over a whole object list, scanned in order: what
/// `scan_hits` denotes over the list's own index sequence.
pub open spec fn list_hit<M: Material, O: Intersectable<M>>(
    objects: Seq<O>,
    r: Ray,
) -> Option<(Dist, IntersectData<M>)> {
    scan_hits(objects, Seq::new(objects.len(), |i: int| i as usize), r, None)
}

impl<M: Material, O: Intersectable<M>> Intersectable<M> for Vec<O> {
    open spec fn spec_intersect(&self, r: Ray) -> Option<(Dist, IntersectData<M>)> {
        list_hit(self@, r)
    }

    /// Linear scan: fold `obj_min` over every object.
    fn intersect(&self, r: Ray) -> (res: Option<(Dist, IntersectData<M>)>) {
        let ghost idxs = Seq::new(self@.len(), |i: int| i as usize);
        proof {
            assert(idxs.skip(0) =~= idxs);
        }
        let mut acc: Option<(Dist, IntersectData<M>)> = None;
        let mut i: usize = 0;
        while i < self.len()
            invariant
                i <= self@.len(),
                r.wf(),
                idxs == Seq::new(self@.len(), |j: int| j as usize),
                scan_hits(self@, idxs.skip(i as int), r, acc)
                    == scan_hits(self@, idxs, r, None::<(Dist, IntersectData<M>)>),
                match acc {
                    Some((d, data)) => d.wf() && d.num >= 0 && data.wf(),
                    None => true,
                },
            decreases self@.len() - i,
        {
            let ghost prefix = idxs.skip(i as int);
            acc = obj_min(acc, &self[i], r);
            proof {
                assert(prefix.drop_first() =~= idxs.skip(i as int + 1));
                assert(prefix[0] == idxs[i as int]);
                assert(idxs[i as int] == i as usize);
            }
            i = i + 1;
        }
        proof {
            assert(idxs.skip(idxs.len() as int) =~= Seq::<usize>::empty());
        }
        acc
    }
}

} // verus!
