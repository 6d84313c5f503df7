//! The spatial acceleration tree: a binary partition over indices into one
//! owned object list.  Construction splits space top-down at the midpoint
//! of the widest axis (with a surface-area-heuristic split available as an
//! alternative strategy); traversal descends near child first and always
//! returns the nearest hit found.

use vstd::prelude::*;
use vstd::seq_lib::group_seq_properties;
use crate::vec3::Vec3;
use crate::bbox::{BBox, entry_spec};
use crate::axis::Axis;
use crate::ray::Ray;
use crate::dist::Dist;
use crate::math::{tdiv, abs_spec, COORD_LIMIT};
use crate::material::Material;
use crate::intersect::{Intersectable, IntersectData};
use crate::projectable::Projectable;
use crate::raylover::RayLover;
use crate::boundable::Boundable;

verus! {

broadcast use group_seq_properties;

/// Leaf policy: an index list shorter than this stays a leaf.
pub const MAX_INDCS: usize = 30;

/// Safety bound on the recursion depth of a build.
pub const MAX_BUILD_DEPTH: u32 = 64;

/// Why a build can fail.
#[derive(Clone, Copy, Debug, PartialEq, Eq, Structural)]
pub enum BuildError {
    /// An object was contained in neither half of a split: its bounding
    /// volume disagrees with its containment test, and the tree would
    /// silently lose it.
    HoboObject,
}

/// One node of the partition tree: a bounding volume, the indices it was
/// built from, and optionally two children.
pub struct KDTreeNode {
    pub bbox: BBox,
    pub indices: Vec<usize>,
    pub left: Option<Box<KDTreeNode>>,
    pub right: Option<Box<KDTreeNode>>,
}

/// The tree together with the object list its leaves index into.
pub struct KDTreeRoot<O> {
    objects: Vec<O>,
    tree: Box<KDTreeNode>,
}

/// The nearer of an already-found hit and a new candidate, the candidate
/// winning ties (the fold order of a leaf scan).
pub open spec fn combine_hit<M>(
    acc: Option<(Dist, IntersectData<M>)>,
    cur: Option<(Dist, IntersectData<M>)>,
) -> Option<(Dist, IntersectData<M>)> {
    match (acc, cur) {
        (None, c) => c,
        (a, None) => a,
        (Some((da, pa)), Some((dc, pc))) => if da.spec_lt(dc) {
            Some((da, pa))
        } else {
            Some((dc, pc))
        },
    }
}

/// The nearer of two subtree results, the first winning ties.
pub open spec fn nearest_of<M>(
    a: Option<(Dist, IntersectData<M>)>,
    b: Option<(Dist, IntersectData<M>)>,
) -> Option<(Dist, IntersectData<M>)> {
    match (a, b) {
        (None, c) => c,
        (c, None) => c,
        (Some((da, pa)), Some((db, pb))) => if db.spec_lt(da) {
            Some((db, pb))
        } else {
            Some((da, pa))
        },
    }
}

/// Folding every indexed object's own intersection into `acc`, in order.
pub open spec fn scan_hits<M: Material, O: Intersectable<M>>(
    objects: Seq<O>,
    idxs: Seq<usize>,
    r: Ray,
    acc: Option<(Dist, IntersectData<M>)>,
) -> Option<(Dist, IntersectData<M>)>
    decreases idxs.len(),
{
    if idxs.len() == 0 {
        acc
    } else {
        scan_hits(objects, idxs.drop_first(), r,
            combine_hit(acc, objects[idxs[0] as int].spec_intersect(r)))
    }
}

/// What the ordered traversal of a node returns: at a leaf whose volume
/// the ray enters, the nearest hit of the leaf's objects; at an inner
/// node, the nearest hit of the children whose volumes the ray enters,
/// the nearer-entered child scanned first.
pub open spec fn node_result<M: Material, O: Intersectable<M>>(
    node: KDTreeNode,
    objects: Seq<O>,
    r: Ray,
) -> Option<(Dist, IntersectData<M>)>
    decreases node,
{
    match (node.left, node.right) {
        (None, None) => match entry_spec(node.bbox, r) {
            Some(e) => scan_hits(objects, node.indices@, r, None),
            None => None,
        },
        (None, Some(x)) => node_result(*x, objects, r),
        (Some(x), None) => node_result(*x, objects, r),
        (Some(x), Some(y)) => match (entry_spec(x.bbox, r), entry_spec(y.bbox, r)) {
            (None, None) => None,
            (None, Some(e)) => node_result(*y, objects, r),
            (Some(e), None) => node_result(*x, objects, r),
            (Some(ex), Some(ey)) => if ey.spec_lt(ex) {
                nearest_of(node_result(*y, objects, r), node_result(*x, objects, r))
            } else {
                nearest_of(node_result(*x, objects, r), node_result(*y, objects, r))
            },
        },
    }
}

impl KDTreeNode {
    /// Structural validity against an object list of length `n`.
    pub open spec fn wf(self, n: int) -> bool
        decreases self,
    {
        &&& self.bbox.wf()
        &&& self.bbox.proper()
        &&& forall|i: int| 0 <= i < self.indices@.len() ==> (#[trigger] self.indices@[i]) < n
        &&& match self.left {
            Some(l) => l.wf(n),
            None => true,
        }
        &&& match self.right {
            Some(r) => r.wf(n),
            None => true,
        }
    }

    /// This node's bounding volume.
    pub open spec fn spec_bbox(self) -> BBox {
        self.bbox
    }

    /// The index list this node was built from.
    pub open spec fn spec_indices(self) -> Seq<usize> {
        self.indices@
    }

    /// Every object index reachable from a leaf under this node.
    pub open spec fn leaf_indices(self) -> Set<usize>
        decreases self,
    {
        match (self.left, self.right) {
            (None, None) => self.indices@.to_set(),
            (None, Some(x)) => x.leaf_indices(),
            (Some(x), None) => x.leaf_indices(),
            (Some(x), Some(y)) => x.leaf_indices().union(y.leaf_indices()),
        }
    }

    /// The entry parameter of the ray into this node's volume.
    pub fn intersect_node(&self, r: Ray) -> (res: Option<Dist>)
        requires
            r.wf(),
            self.spec_bbox().wf(),
            self.spec_bbox().proper(),
        ensures
            res == entry_spec(self.spec_bbox(), r),
    {
        self.bbox.intersect(r)
    }

    /// Ordered traversal: the nearest hit among the objects of the leaves
    /// whose volumes the ray enters.
    fn intersect<M: Material, O: RayLover<M>>(&self, objects: &Vec<O>, r: Ray)
        -> (res: Option<(Dist, IntersectData<M>)>)
        requires
            self.wf(objects@.len() as int),
            r.wf(),
        ensures
            res == node_result(*self, objects@, r),
            match res {
                Some((d, data)) => d.wf() && d.num >= 0 && data.wf(),
                None => true,
            },
        decreases *self,
    {
        match (&self.left, &self.right) {
            (None, None) => {
                match self.bbox.intersect(r) {
                    None => None,
                    Some(_) => {
                        proof {
                            assert(self.indices@.skip(0) =~= self.indices@);
                        }
                        let mut acc: Option<(Dist, IntersectData<M>)> = None;
                        let mut i: usize = 0;
                        while i < self.indices.len()
                            invariant
                                i <= self.indices@.len(),
                                self.wf(objects@.len() as int),
                                self.left is None && self.right is None,
                                r.wf(),
                                scan_hits(objects@, self.indices@.skip(i as int), r, acc)
                                    == scan_hits(objects@, self.indices@, r,
                                        None::<(Dist, IntersectData<M>)>),
                                match acc {
                                    Some((d, data)) => d.wf() && d.num >= 0 && data.wf(),
                                    None => true,
                                },
                            decreases self.indices@.len() - i,
                        {
                            let ghost prefix = self.indices@.skip(i as int);
                            let idx = self.indices[i];
                            acc = crate::scene::obj_min(acc, &objects[idx], r);
                            proof {
                                assert(prefix.drop_first() =~= self.indices@.skip(i as int + 1));
                                assert(prefix[0] == self.indices@[i as int]);
                            }
                            i = i + 1;
                        }
                        proof {
                            assert(self.indices@.skip(self.indices@.len() as int) =~=
                                Seq::<usize>::empty());
                        }
                        acc
                    },
                }
            },
            (None, Some(x)) => x.intersect(objects, r),
            (Some(x), None) => x.intersect(objects, r),
            (Some(x), Some(y)) => {
                proof {
                    assert(x.wf(objects@.len() as int));
                    assert(y.wf(objects@.len() as int));
                }
                match (x.bbox.intersect(r), y.bbox.intersect(r)) {
                    (None, None) => None,
                    (None, Some(_)) => y.intersect(objects, r),
                    (Some(_), None) => x.intersect(objects, r),
                    (Some(ex), Some(ey)) => {
                        if ey.lt(ex) {
                            let a = y.intersect(objects, r);
                            let b = x.intersect(objects, r);
                            pick_nearest(a, b)
                        } else {
                            let a = x.intersect(objects, r);
                            let b = y.intersect(objects, r);
                            pick_nearest(a, b)
                        }
                    },
                }
            },
        }
    }

    /// The nearest hit of this subtree and a sibling subtree: both are
    /// attempted, and the closer of two successful hits is returned
    /// whichever was scanned first.
    pub fn intersect_or_next<M: Material, O: RayLover<M>>(&self, next: &KDTreeNode,
        objects: &Vec<O>, r: Ray) -> (res: Option<(Dist, IntersectData<M>)>)
        requires
            self.wf(objects@.len() as int),
            next.wf(objects@.len() as int),
            r.wf(),
        ensures
            res == nearest_of(node_result(*self, objects@, r),
                node_result(*next, objects@, r)),
            match res {
                Some((d, data)) => d.wf() && d.num >= 0 && data.wf(),
                None => true,
            },
    {
        let a = self.intersect(objects, r);
        let b = next.intersect(objects, r);
        pick_nearest(a, b)
    }
}

/// The axis along which the box is widest: the first of X, Y, Z whose
/// extent is strictly greater than both others, defaulting to Z on ties.
pub open spec fn split_axis_spec(b: BBox) -> Axis {
    let x = abs_spec(b.bmin.x - b.bmax.x);
    let y = abs_spec(b.bmin.y - b.bmax.y);
    let z = abs_spec(b.bmin.z - b.bmax.z);
    if x > y && x > z {
        Axis::X
    } else if y > x && y > z {
        Axis::Y
    } else {
        Axis::Z
    }
}

/// The midpoint of the box's extent along the chosen axis.
pub open spec fn split_pos_spec(b: BBox) -> i64 {
    let a = split_axis_spec(b);
    (a.spec_get(b.bmin) + tdiv(a.spec_get(b.bmax) - a.spec_get(b.bmin), 2)) as i64
}

/// The lower half of the midpoint split.
pub open spec fn left_box_spec(b: BBox) -> BBox {
    BBox { bmin: b.bmin, bmax: split_axis_spec(b).spec_set(b.bmax, split_pos_spec(b)) }
}

/// The upper half of the midpoint split.
pub open spec fn right_box_spec(b: BBox) -> BBox {
    BBox { bmin: split_axis_spec(b).spec_set(b.bmin, split_pos_spec(b)), bmax: b.bmax }
}

/// `part` holds exactly the members of the first `upto` entries of
/// `indcs` whose objects reach into `b`.
pub open spec fn routed<M: Material, O: RayLover<M>>(part: Seq<usize>, indcs: Seq<usize>,
    upto: int, objects: Seq<O>, b: BBox) -> bool {
    forall|k: usize| part.contains(k)
        <==> (exists|j: int| 0 <= j < upto && indcs[j] == k)
            && (#[trigger] objects[k as int]).spec_in_box(b)
}

/// Route every index into the halves: an object reaching into only one
/// half goes there, one reaching into both goes into both, and one
/// reaching into neither is a fatal construction error.
fn partition<M: Material, O: RayLover<M>>(bl: &BBox, br: &BBox, indcs: &Vec<usize>,
    objects: &Vec<O>) -> (res: Result<(Vec<usize>, Vec<usize>), BuildError>)
    requires
        forall|i: int| 0 <= i < indcs@.len() ==> (#[trigger] indcs@[i]) < objects@.len(),
    ensures
        match res {
            Ok(lr) => {
                &&& routed(lr.0@, indcs@, indcs@.len() as int, objects@, *bl)
                &&& routed(lr.1@, indcs@, indcs@.len() as int, objects@, *br)
                &&& forall|i: int| 0 <= i < indcs@.len()
                    ==> objects@[#[trigger] indcs@[i] as int].spec_in_box(*bl)
                        || objects@[indcs@[i] as int].spec_in_box(*br)
                &&& forall|i: int| 0 <= i < lr.0@.len()
                    ==> (#[trigger] lr.0@[i]) < objects@.len()
                &&& forall|i: int| 0 <= i < lr.1@.len()
                    ==> (#[trigger] lr.1@[i]) < objects@.len()
            },
            Err(e) => {
                &&& e == BuildError::HoboObject
                &&& exists|i: int| 0 <= i < indcs@.len()
                    && !objects@[#[trigger] indcs@[i] as int].spec_in_box(*bl)
                    && !objects@[indcs@[i] as int].spec_in_box(*br)
            },
        },
{
    let mut lefts: Vec<usize> = Vec::new();
    let mut rights: Vec<usize> = Vec::new();
    let mut i: usize = 0;
    while i < indcs.len()
        invariant
            i <= indcs@.len(),
            forall|j: int| 0 <= j < indcs@.len() ==> (#[trigger] indcs@[j]) < objects@.len(),
            routed(lefts@, indcs@, i as int, objects@, *bl),
            routed(rights@, indcs@, i as int, objects@, *br),
            forall|j: int| 0 <= j < i
                ==> objects@[#[trigger] indcs@[j] as int].spec_in_box(*bl)
                    || objects@[indcs@[j] as int].spec_in_box(*br),
            forall|j: int| 0 <= j < lefts@.len() ==> (#[trigger] lefts@[j]) < objects@.len(),
            forall|j: int| 0 <= j < rights@.len() ==> (#[trigger] rights@[j]) < objects@.len(),
        decreases indcs@.len() - i,
    {
        let idx = indcs[i];
        let ghost prev_l = lefts@;
        let ghost prev_r = rights@;
        let inl = objects[idx].in_box(*bl);
        let inr = objects[idx].in_box(*br);
        if !inl && !inr {
            proof {
                assert(indcs@[i as int] == idx);
            }
            return Err(BuildError::HoboObject);
        }
        if inl {
            lefts.push(idx);
        }
        if inr {
            rights.push(idx);
        }
        proof {
            assert(routed(lefts@, indcs@, i as int + 1, objects@, *bl)) by {
                assert forall|k: usize| lefts@.contains(k)
                <==> (exists|j: int| 0 <= j < i + 1 && indcs@[j] == k)
                    && (#[trigger] objects@[k as int]).spec_in_box(*bl) by {
                let ghost kobj = objects@[k as int];
                if lefts@.contains(k) {
                    if prev_l.contains(k) {
                        assert((exists|j: int| 0 <= j < i && indcs@[j] == k)
                            && objects@[k as int].spec_in_box(*bl));
                    } else {
                        assert(k == idx);
                        assert(indcs@[i as int] == k);
                    }
                }
                if (exists|j: int| 0 <= j < i + 1 && indcs@[j] == k)
                    && objects@[k as int].spec_in_box(*bl) {
                    let j = choose|j: int| 0 <= j < i + 1 && indcs@[j] == k;
                    if j < i {
                        assert(prev_l.contains(k));
                        assert(lefts@.contains(k));
                    } else {
                        assert(k == idx);
                        assert(lefts@.contains(k));
                    }
                }
            }
            }
            assert(routed(rights@, indcs@, i as int + 1, objects@, *br)) by {
                assert forall|k: usize| rights@.contains(k)
                <==> (exists|j: int| 0 <= j < i + 1 && indcs@[j] == k)
                    && (#[trigger] objects@[k as int]).spec_in_box(*br) by {
                let ghost kobj = objects@[k as int];
                if rights@.contains(k) {
                    if prev_r.contains(k) {
                        assert((exists|j: int| 0 <= j < i && indcs@[j] == k)
                            && objects@[k as int].spec_in_box(*br));
                    } else {
                        assert(k == idx);
                        assert(indcs@[i as int] == k);
                    }
                }
                if (exists|j: int| 0 <= j < i + 1 && indcs@[j] == k)
                    && objects@[k as int].spec_in_box(*br) {
                    let j = choose|j: int| 0 <= j < i + 1 && indcs@[j] == k;
                    if j < i {
                        assert(prev_r.contains(k));
                        assert(rights@.contains(k));
                    } else {
                        assert(k == idx);
                        assert(rights@.contains(k));
                    }
                }
            }
            }
        }
        i = i + 1;
    }
    proof {
        assert forall|k: usize| indcs@.contains(k)
            implies (exists|j: int| 0 <= j < indcs@.len() && indcs@[j] == k) by {
        }
    }
    Ok((lefts, rights))
}

/// The default split strategy: halve the box at the midpoint of its
/// widest axis and route the indices into the halves.
pub fn split_easy<M: Material, O: RayLover<M>>(bbox: BBox, indcs: &Vec<usize>,
    objects: &Vec<O>) -> (res: Result<((BBox, Vec<usize>), (BBox, Vec<usize>)), BuildError>)
    requires
        bbox.wf(),
        bbox.proper(),
        forall|i: int| 0 <= i < indcs@.len() ==> (#[trigger] indcs@[i]) < objects@.len(),
    ensures
        match res {
            Ok(lr) => {
                &&& lr.0.0 == left_box_spec(bbox)
                &&& lr.1.0 == right_box_spec(bbox)
                &&& lr.0.0.wf() && lr.0.0.proper()
                &&& lr.1.0.wf() && lr.1.0.proper()
                &&& routed(lr.0.1@, indcs@, indcs@.len() as int, objects@,
                    left_box_spec(bbox))
                &&& routed(lr.1.1@, indcs@, indcs@.len() as int, objects@,
                    right_box_spec(bbox))
                &&& forall|i: int| 0 <= i < indcs@.len()
                    ==> objects@[#[trigger] indcs@[i] as int].spec_in_box(left_box_spec(bbox))
                        || objects@[indcs@[i] as int].spec_in_box(right_box_spec(bbox))
                &&& forall|i: int| 0 <= i < lr.0.1@.len()
                    ==> (#[trigger] lr.0.1@[i]) < objects@.len()
                &&& forall|i: int| 0 <= i < lr.1.1@.len()
                    ==> (#[trigger] lr.1.1@[i]) < objects@.len()
            },
            Err(e) => {
                &&& e == BuildError::HoboObject
                &&& exists|i: int| 0 <= i < indcs@.len()
                    && !objects@[#[trigger] indcs@[i] as int].spec_in_box(left_box_spec(bbox))
                    && !objects@[indcs@[i] as int].spec_in_box(right_box_spec(bbox))
            },
        },
{
    let axis = split_axis(&bbox);
    let lo = axis.get(bbox.bmin);
    let hi = axis.get(bbox.bmax);
    proof {
        assert(lo <= hi) by {
            assert(bbox.proper());
        }
        assert(0 <= tdiv(hi as int - lo as int, 2) <= hi - lo) by (nonlinear_arith)
            requires lo <= hi;
    }
    let pos = lo + crate::math::div_toward_zero(hi - lo, 2);
    let bbox_left = bbox.split_left(pos, axis);
    let bbox_right = bbox.split_right(pos, axis);
    match partition(&bbox_left, &bbox_right, indcs, objects) {
        Ok((lefts, rights)) => Ok(((bbox_left, lefts), (bbox_right, rights))),
        Err(e) => Err(e),
    }
}

/// The split strategy used by the build.
pub fn split<M: Material, O: RayLover<M>>(bbox: BBox, indcs: &Vec<usize>, objects: &Vec<O>)
    -> (res: Result<((BBox, Vec<usize>), (BBox, Vec<usize>)), BuildError>)
    requires
        bbox.wf(),
        bbox.proper(),
        forall|i: int| 0 <= i < indcs@.len() ==> (#[trigger] indcs@[i]) < objects@.len(),
    ensures
        match res {
            Ok(lr) => {
                &&& lr.0.0 == left_box_spec(bbox)
                &&& lr.1.0 == right_box_spec(bbox)
                &&& lr.0.0.wf() && lr.0.0.proper()
                &&& lr.1.0.wf() && lr.1.0.proper()
                &&& routed(lr.0.1@, indcs@, indcs@.len() as int, objects@,
                    left_box_spec(bbox))
                &&& routed(lr.1.1@, indcs@, indcs@.len() as int, objects@,
                    right_box_spec(bbox))
                &&& forall|i: int| 0 <= i < indcs@.len()
                    ==> objects@[#[trigger] indcs@[i] as int].spec_in_box(left_box_spec(bbox))
                        || objects@[indcs@[i] as int].spec_in_box(right_box_spec(bbox))
                &&& forall|i: int| 0 <= i < lr.0.1@.len()
                    ==> (#[trigger] lr.0.1@[i]) < objects@.len()
                &&& forall|i: int| 0 <= i < lr.1.1@.len()
                    ==> (#[trigger] lr.1.1@[i]) < objects@.len()
            },
            Err(e) => {
                &&& e == BuildError::HoboObject
                &&& exists|i: int| 0 <= i < indcs@.len()
                    && !objects@[#[trigger] indcs@[i] as int].spec_in_box(left_box_spec(bbox))
                    && !objects@[indcs@[i] as int].spec_in_box(right_box_spec(bbox))
            },
        },
{
    split_easy(bbox, indcs, objects)
}

/// A hit option either is `None` or carries a positive denominator, so
/// rational comparisons on it mean what they say.
pub open spec fn hit_wf<M>(h: Option<(Dist, IntersectData<M>)>) -> bool {
    match h {
        Some((d, data)) => 0 < d.den,
        None => true,
    }
}

/// What a leaf scan denotes: the fold returns the accumulator or one of
/// the scanned objects' own hits, it is never rationally farther than
/// the accumulator or any scanned hit, and it is `None` only when the
/// accumulator and every scanned object report no hit.
pub proof fn lemma_scan_hits_characterized<M: Material, O: Intersectable<M>>(
    objects: Seq<O>, idxs: Seq<usize>, r: Ray, acc: Option<(Dist, IntersectData<M>)>)
    requires
        hit_wf(acc),
        forall|i: int| 0 <= i < idxs.len()
            ==> hit_wf(objects[#[trigger] idxs[i] as int].spec_intersect(r)),
    ensures
        scan_hits(objects, idxs, r, acc) == acc || exists|i: int| 0 <= i < idxs.len()
            && scan_hits(objects, idxs, r, acc)
                == objects[#[trigger] idxs[i] as int].spec_intersect(r),
        hit_wf(scan_hits(objects, idxs, r, acc)),
        match (scan_hits(objects, idxs, r, acc), acc) {
            (Some((dr, pr)), Some((da, pa))) => dr.spec_le(da),
            (None, Some(h)) => false,
            _ => true,
        },
        forall|i: int| 0 <= i < idxs.len() ==> match (scan_hits(objects, idxs, r, acc),
            objects[#[trigger] idxs[i] as int].spec_intersect(r)) {
            (Some((dr, pr)), Some((di, pi))) => dr.spec_le(di),
            (None, Some(h)) => false,
            _ => true,
        },
    decreases idxs.len(),
{
    if idxs.len() == 0 {
    } else {
        let cur = objects[idxs[0] as int].spec_intersect(r);
        let acc2 = combine_hit(acc, cur);
        assert(hit_wf(acc2));
        assert forall|i: int| 0 <= i < idxs.drop_first().len()
            implies hit_wf(objects[#[trigger] idxs.drop_first()[i] as int].spec_intersect(
                r)) by {
            assert(idxs.drop_first()[i] == idxs[i + 1]);
        }
        lemma_scan_hits_characterized(objects, idxs.drop_first(), r, acc2);
        let res = scan_hits(objects, idxs, r, acc);
        assert(res == scan_hits(objects, idxs.drop_first(), r, acc2));
        // the fold result traces back to the accumulator or a scanned hit
        if res == acc2 {
            if acc2 != acc {
                assert(acc2 == cur);
                assert(res == objects[idxs[0] as int].spec_intersect(r));
            }
        } else {
            let i = choose|i: int| 0 <= i < idxs.drop_first().len()
                && scan_hits(objects, idxs.drop_first(), r, acc2)
                    == objects[idxs.drop_first()[i] as int].spec_intersect(r);
            assert(idxs.drop_first()[i] == idxs[i + 1]);
            assert(res == objects[idxs[i + 1] as int].spec_intersect(r));
        }
        // the result is at most the accumulator and every scanned hit
        match (res, acc) {
            (Some((dr, pr)), Some((da, pa))) => {
                match acc2 {
                    Some((d2, p2)) => {
                        Dist::lemma_le_trans(dr, d2, da);
                    },
                    None => {},
                }
            },
            _ => {},
        }
        assert forall|i: int| 0 <= i < idxs.len() implies match (res,
            objects[#[trigger] idxs[i] as int].spec_intersect(r)) {
            (Some((dr, pr)), Some((di, pi))) => dr.spec_le(di),
            (None, Some(h)) => false,
            _ => true,
        } by {
            if i == 0 {
                match (res, cur) {
                    (Some((dr, pr)), Some((di, pi))) => {
                        match acc2 {
                            Some((d2, p2)) => {
                                Dist::lemma_le_trans(dr, d2, di);
                            },
                            None => {},
                        }
                    },
                    _ => {},
                }
            } else {
                assert(idxs.drop_first()[i - 1] == idxs[i]);
            }
        }
    }
}

/// Soundness of the ordered traversal: whatever hit it returns is the
/// very hit some object reachable from a leaf reports for this ray.
/// (The converse — that `None` means no reachable object is hit — rests
/// additionally on the geometric fact that an object's hits lie inside
/// every volume that lists it, which no trait law states; the miss side
/// of each volume test is pinned by `BBox::intersect`'s contract.)
pub proof fn lemma_node_result_sound<M: Material, O: Intersectable<M>>(node: KDTreeNode,
    objects: Seq<O>, r: Ray)
    requires
        forall|k: int| 0 <= k < objects.len()
            ==> hit_wf((#[trigger] objects[k]).spec_intersect(r)),
        node.wf(objects.len() as int),
    ensures
        match node_result::<M, O>(node, objects, r) {
            Some(h) => exists|k: usize| #[trigger] node.leaf_indices().contains(k)
                && (k as int) < objects.len() && objects[k as int].spec_intersect(r)
                    == Some(h),
            None => true,
        },
    decreases node,
{
    let res = node_result::<M, O>(node, objects, r);
    match (node.left, node.right) {
        (None, None) => {
            if entry_spec(node.bbox, r) is Some && res is Some {
                assert forall|i: int| 0 <= i < node.indices@.len()
                    implies hit_wf(objects[#[trigger] node.indices@[i] as int]
                        .spec_intersect(r)) by {
                    assert(node.indices@[i] < objects.len());
                }
                lemma_scan_hits_characterized(objects, node.indices@, r,
                    None::<(Dist, IntersectData<M>)>);
                let i = choose|i: int| 0 <= i < node.indices@.len()
                    && scan_hits(objects, node.indices@, r,
                        None::<(Dist, IntersectData<M>)>)
                        == objects[node.indices@[i] as int].spec_intersect(r);
                let k = node.indices@[i];
                assert(node.indices@.to_set().contains(k));
                assert(node.leaf_indices().contains(k));
            }
        },
        (None, Some(x)) => {
            lemma_node_result_sound::<M, O>(*x, objects, r);
            if res is Some {
                let k = choose|k: usize| #[trigger] x.leaf_indices().contains(k)
                    && (k as int) < objects.len()
                    && objects[k as int].spec_intersect(r) == res;
                assert(node.leaf_indices().contains(k));
            }
        },
        (Some(x), None) => {
            lemma_node_result_sound::<M, O>(*x, objects, r);
            if res is Some {
                let k = choose|k: usize| #[trigger] x.leaf_indices().contains(k)
                    && (k as int) < objects.len()
                    && objects[k as int].spec_intersect(r) == res;
                assert(node.leaf_indices().contains(k));
            }
        },
        (Some(x), Some(y)) => {
            lemma_node_result_sound::<M, O>(*x, objects, r);
            lemma_node_result_sound::<M, O>(*y, objects, r);
            if res is Some {
                let rx = node_result::<M, O>(*x, objects, r);
                let ry = node_result::<M, O>(*y, objects, r);
                assert(res == rx || res == ry);
                if res == rx && rx is Some {
                    let k = choose|k: usize| #[trigger] x.leaf_indices().contains(k)
                        && (k as int) < objects.len()
                        && objects[k as int].spec_intersect(r) == rx;
                    assert(node.leaf_indices().contains(k));
                } else {
                    let k = choose|k: usize| #[trigger] y.leaf_indices().contains(k)
                        && (k as int) < objects.len()
                        && objects[k as int].spec_intersect(r) == ry;
                    assert(node.leaf_indices().contains(k));
                }
            }
        },
    }
}

/// The combined result of two subtrees is the globally nearest of their
/// hits: it is one of the two, and no nearer hit exists in either.
pub proof fn lemma_nearest_is_nearest<M>(a: Option<(Dist, IntersectData<M>)>,
    b: Option<(Dist, IntersectData<M>)>)
    ensures
        nearest_of(a, b) == a || nearest_of(a, b) == b,
        nearest_of(a, b) is None ==> a is None && b is None,
        match (nearest_of(a, b), a) {
            (Some((dr, pr)), Some((da, pa))) => dr.spec_le(da),
            _ => true,
        },
        match (nearest_of(a, b), b) {
            (Some((dr, pr)), Some((db, pb))) => dr.spec_le(db),
            _ => true,
        },
    {
}

/// Which child is scanned first does not change the distance of the hit
/// the traversal returns: combining in either order yields rationally
/// equal results.
pub proof fn lemma_nearest_order_independent<M>(a: Option<(Dist, IntersectData<M>)>,
    b: Option<(Dist, IntersectData<M>)>)
    ensures
        nearest_of(a, b) is Some <==> nearest_of(b, a) is Some,
        match (nearest_of(a, b), nearest_of(b, a)) {
            (Some((d1, p1)), Some((d2, p2))) => d1.spec_le(d2) && d2.spec_le(d1),
            _ => true,
        },
    {
}

/// Fixed-point cost charged for an empty half in the surface-area
/// heuristic (about 0.1).
pub const SAH_CONST_EMPTY: i64 = 102;

/// The axis examined at position `ai` of the heuristic's sweep over
/// candidate planes.
pub open spec fn sweep_axis(ai: int) -> Axis {
    if ai == 0 {
        Axis::X
    } else if ai == 1 {
        Axis::Y
    } else {
        Axis::Z
    }
}

/// The candidate split plane contributed by the `j`-th index on axis
/// `a`: the lower bound of its object there.
pub open spec fn sah_candidate<O: Projectable>(objects: Seq<O>, indcs: Seq<usize>, j: int,
    a: Axis) -> i64 {
    a.spec_get(objects[indcs[j] as int].spec_bound().bmin)
}

/// How many of the first `upto` indices have their object's lower bound
/// at or below the plane `c` on axis `a`.
pub open spec fn sah_count_le<O: Projectable>(objects: Seq<O>, indcs: Seq<usize>, a: Axis,
    c: i64, upto: int) -> int
    decreases upto,
{
    if upto <= 0 {
        0
    } else {
        sah_count_le(objects, indcs, a, c, upto - 1)
            + if a.spec_get(objects[indcs[upto - 1] as int].spec_bound().bmin) <= c {
                1int
            } else {
                0
            }
    }
}

/// The surface-area-heuristic cost of splitting `bbox` at plane `c` on
/// axis `a`: the empty-half constant plus each half's area times the
/// count of objects whose lower bound routes them toward it.
pub open spec fn sah_cost<O: Projectable>(bbox: BBox, objects: Seq<O>, indcs: Seq<usize>,
    a: Axis, c: i64) -> int {
    let cl = sah_count_le(objects, indcs, a, c, indcs.len() as int);
    SAH_CONST_EMPTY + (BBox { bmin: bbox.bmin, bmax: a.spec_set(bbox.bmax, c) }).spec_square()
        * cl + (BBox { bmin: a.spec_set(bbox.bmin, c), bmax: bbox.bmax }).spec_square()
        * (indcs.len() - cl)
}

/// The count of lower bounds below a plane lies between zero and the
/// number of indices examined.
proof fn lemma_count_le_range<O: Projectable>(objects: Seq<O>, indcs: Seq<usize>, a: Axis,
    c: i64, upto: int)
    requires
        0 <= upto,
    ensures
        0 <= sah_count_le(objects, indcs, a, c, upto) <= upto,
    decreases upto,
{
    if upto > 0 {
        lemma_count_le_range(objects, indcs, a, c, upto - 1);
    }
}

/// For a well-formed box and an in-range plane, the heuristic cost is far
/// below the sentinel the sweep starts from.
proof fn lemma_sah_cost_in_range<O: Projectable>(bbox: BBox, objects: Seq<O>,
    indcs: Seq<usize>, a: Axis, c: i64)
    requires
        bbox.wf(),
        -COORD_LIMIT <= c <= COORD_LIMIT,
        indcs.len() < 0x1000_0000,
    ensures
        sah_cost(bbox, objects, indcs, a, c) < i128::MAX,
{
    lemma_count_le_range(objects, indcs, a, c, indcs.len() as int);
    let bl = BBox { bmin: bbox.bmin, bmax: a.spec_set(bbox.bmax, c) };
    let br = BBox { bmin: a.spec_set(bbox.bmin, c), bmax: bbox.bmax };
    let cl = sah_count_le(objects, indcs, a, c, indcs.len() as int);
    assert(0 <= bl.spec_square() <= 0x8_0000_0000_0000_0000
        && 0 <= br.spec_square() <= 0x8_0000_0000_0000_0000) by (nonlinear_arith)
        requires
            bl.bmin.bounded(COORD_LIMIT as int) && bl.bmax.bounded(COORD_LIMIT as int),
            br.bmin.bounded(COORD_LIMIT as int) && br.bmax.bounded(COORD_LIMIT as int),
            bl.spec_square() == (abs_spec(bl.bmin.x - bl.bmax.x) * abs_spec(
                bl.bmin.y - bl.bmax.y) + abs_spec(bl.bmin.y - bl.bmax.y) * abs_spec(
                bl.bmin.z - bl.bmax.z) + abs_spec(bl.bmin.x - bl.bmax.x) * abs_spec(
                bl.bmin.z - bl.bmax.z)) * 2,
            br.spec_square() == (abs_spec(br.bmin.x - br.bmax.x) * abs_spec(
                br.bmin.y - br.bmax.y) + abs_spec(br.bmin.y - br.bmax.y) * abs_spec(
                br.bmin.z - br.bmax.z) + abs_spec(br.bmin.x - br.bmax.x) * abs_spec(
                br.bmin.z - br.bmax.z)) * 2,
            COORD_LIMIT == 0x4000_0000;
    crate::vec3::mul_abs_bound2(bl.spec_square(), 0x8_0000_0000_0000_0000, cl, 0x1000_0000);
    crate::vec3::mul_abs_bound2(br.spec_square(), 0x8_0000_0000_0000_0000,
        indcs.len() - cl, 0x1000_0000);
}

/// The alternate split strategy: a cost-based surface-area heuristic.
/// Every object's lower bound strictly inside the box is a candidate
/// plane; one of minimal `sah_cost` wins, falling back to the midpoint
/// split when no candidate exists.  The chosen plane leaves both halves
/// strictly smaller than the parent whenever the axis extent allows it,
/// and the indices are then routed into the halves exactly as in the
/// midpoint split.
pub fn split_with_sort<M: Material, O: RayLover<M>>(bbox: BBox, indcs: &Vec<usize>,
    objects: &Vec<O>) -> (res: Result<((BBox, Vec<usize>), (BBox, Vec<usize>)), BuildError>)
    requires
        bbox.wf(),
        bbox.proper(),
        forall|i: int| 0 <= i < indcs@.len() ==> (#[trigger] indcs@[i]) < objects@.len(),
        indcs@.len() < 0x1000_0000,
    ensures
        match res {
            Ok(lr) => {
                &&& exists|axis: Axis, pos: i64| {
                    &&& lr.0.0 == (BBox {
                        bmin: bbox.bmin,
                        bmax: axis.spec_set(bbox.bmax, pos),
                    })
                    &&& lr.1.0 == (BBox {
                        bmin: axis.spec_set(bbox.bmin, pos),
                        bmax: bbox.bmax,
                    })
                    &&& axis.spec_get(bbox.bmin) <= pos <= axis.spec_get(bbox.bmax)
                    &&& axis.spec_get(bbox.bmax) - axis.spec_get(bbox.bmin) >= 2
                        ==> axis.spec_get(bbox.bmin) < pos < axis.spec_get(bbox.bmax)
                    &&& forall|a2: Axis, j: int| 0 <= j < indcs@.len()
                        && a2.spec_get(bbox.bmin)
                            < #[trigger] sah_candidate(objects@, indcs@, j, a2)
                        && sah_candidate(objects@, indcs@, j, a2) < a2.spec_get(bbox.bmax)
                        ==> sah_cost(bbox, objects@, indcs@, axis, pos)
                            <= sah_cost(bbox, objects@, indcs@, a2,
                                sah_candidate(objects@, indcs@, j, a2))
                }
                &&& lr.0.0.wf() && lr.0.0.proper()
                &&& lr.1.0.wf() && lr.1.0.proper()
                &&& routed(lr.0.1@, indcs@, indcs@.len() as int, objects@, lr.0.0)
                &&& routed(lr.1.1@, indcs@, indcs@.len() as int, objects@, lr.1.0)
                &&& forall|i: int| 0 <= i < indcs@.len()
                    ==> objects@[#[trigger] indcs@[i] as int].spec_in_box(lr.0.0)
                        || objects@[indcs@[i] as int].spec_in_box(lr.1.0)
                &&& forall|i: int| 0 <= i < lr.0.1@.len()
                    ==> (#[trigger] lr.0.1@[i]) < objects@.len()
                &&& forall|i: int| 0 <= i < lr.1.1@.len()
                    ==> (#[trigger] lr.1.1@[i]) < objects@.len()
            },
            Err(e) => {
                &&& e == BuildError::HoboObject
                &&& exists|axis: Axis, pos: i64, i: int| 0 <= i < indcs@.len()
                    && !(#[trigger] objects@[indcs@[i] as int].spec_in_box(BBox {
                        bmin: bbox.bmin,
                        bmax: axis.spec_set(bbox.bmax, pos),
                    }))
                    && !objects@[indcs@[i] as int].spec_in_box(BBox {
                        bmin: axis.spec_set(bbox.bmin, pos),
                        bmax: bbox.bmax,
                    })
            },
        },
{
    let mut best_axis = split_axis(&bbox);
    let mut best_pos = mid_pos(&bbox, &best_axis);
    let mut best_sah: i128 = i128::MAX;
    let mut a: usize = 0;
    while a < 3
        invariant
            bbox.wf(),
            bbox.proper(),
            forall|i: int| 0 <= i < indcs@.len() ==> (#[trigger] indcs@[i]) < objects@.len(),
            indcs@.len() < 0x1000_0000,
            a <= 3,
            best_axis.spec_get(bbox.bmin) <= best_pos <= best_axis.spec_get(bbox.bmax),
            best_axis.spec_get(bbox.bmax) - best_axis.spec_get(bbox.bmin) >= 2
                ==> best_axis.spec_get(bbox.bmin) < best_pos < best_axis.spec_get(bbox.bmax),
            best_sah < i128::MAX
                ==> best_sah == sah_cost(bbox, objects@, indcs@, best_axis, best_pos),
            forall|ai: int, j: int| 0 <= ai < a && 0 <= j < indcs@.len()
                && sweep_axis(ai).spec_get(bbox.bmin)
                    < #[trigger] sah_candidate(objects@, indcs@, j, sweep_axis(ai))
                && sah_candidate(objects@, indcs@, j, sweep_axis(ai))
                    < sweep_axis(ai).spec_get(bbox.bmax)
                ==> best_sah <= sah_cost(bbox, objects@, indcs@, sweep_axis(ai),
                    sah_candidate(objects@, indcs@, j, sweep_axis(ai))),
        decreases 3 - a,
    {
        let axis = if a == 0 {
            Axis::X
        } else if a == 1 {
            Axis::Y
        } else {
            Axis::Z
        };
        proof {
            assert(axis == sweep_axis(a as int));
        }
        let lo = axis.get(bbox.bmin);
        let hi = axis.get(bbox.bmax);
        let mut i: usize = 0;
        while i < indcs.len()
            invariant
                bbox.wf(),
                bbox.proper(),
                forall|j: int| 0 <= j < indcs@.len()
                    ==> (#[trigger] indcs@[j]) < objects@.len(),
                indcs@.len() < 0x1000_0000,
                a < 3,
                i <= indcs@.len(),
                axis == sweep_axis(a as int),
                lo == axis.spec_get(bbox.bmin),
                hi == axis.spec_get(bbox.bmax),
                lo <= hi,
                best_axis.spec_get(bbox.bmin) <= best_pos <= best_axis.spec_get(bbox.bmax),
                best_axis.spec_get(bbox.bmax) - best_axis.spec_get(bbox.bmin) >= 2
                    ==> best_axis.spec_get(bbox.bmin) < best_pos
                        < best_axis.spec_get(bbox.bmax),
                best_sah < i128::MAX
                    ==> best_sah == sah_cost(bbox, objects@, indcs@, best_axis, best_pos),
                forall|ai: int, j: int| 0 <= ai < a && 0 <= j < indcs@.len()
                    && sweep_axis(ai).spec_get(bbox.bmin)
                        < #[trigger] sah_candidate(objects@, indcs@, j, sweep_axis(ai))
                    && sah_candidate(objects@, indcs@, j, sweep_axis(ai))
                        < sweep_axis(ai).spec_get(bbox.bmax)
                    ==> best_sah <= sah_cost(bbox, objects@, indcs@, sweep_axis(ai),
                        sah_candidate(objects@, indcs@, j, sweep_axis(ai))),
                forall|j: int| 0 <= j < i
                    && axis.spec_get(bbox.bmin)
                        < #[trigger] sah_candidate(objects@, indcs@, j, axis)
                    && sah_candidate(objects@, indcs@, j, axis) < axis.spec_get(bbox.bmax)
                    ==> best_sah <= sah_cost(bbox, objects@, indcs@, axis,
                        sah_candidate(objects@, indcs@, j, axis)),
            decreases indcs@.len() - i,
        {
            let cand = axis.get(objects[indcs[i]].get_min_bound());
            proof {
                assert(cand == sah_candidate(objects@, indcs@, i as int, axis));
            }
            if cand > lo && cand < hi {
                let mut count_left: usize = 0;
                let mut j: usize = 0;
                while j < indcs.len()
                    invariant
                        count_left <= j <= indcs@.len(),
                        forall|q: int| 0 <= q < indcs@.len()
                            ==> (#[trigger] indcs@[q]) < objects@.len(),
                        count_left == sah_count_le(objects@, indcs@, axis, cand, j as int),
                    decreases indcs@.len() - j,
                {
                    if axis.get(objects[indcs[j]].get_min_bound()) <= cand {
                        count_left = count_left + 1;
                    }
                    j = j + 1;
                }
                let count_right = indcs.len() - count_left;
                let sq_left = bbox.split_left(cand, axis).square();
                let sq_right = bbox.split_right(cand, axis).square();
                proof {
                    crate::vec3::mul_abs_bound2(sq_left as int, 0x8_0000_0000_0000_0000,
                        count_left as int, 0x1000_0000);
                    crate::vec3::mul_abs_bound2(sq_right as int, 0x8_0000_0000_0000_0000,
                        count_right as int, 0x1000_0000);
                }
                let sah: i128 = (SAH_CONST_EMPTY as i128) + sq_left * (count_left as i128)
                    + sq_right * (count_right as i128);
                proof {
                    assert(sah == sah_cost(bbox, objects@, indcs@, axis, cand));
                }
                if sah < best_sah {
                    best_sah = sah;
                    best_axis = axis;
                    best_pos = cand;
                }
            }
            i = i + 1;
        }
        a = a + 1;
    }
    proof {
        assert(sweep_axis(0) == Axis::X && sweep_axis(1) == Axis::Y
            && sweep_axis(2) == Axis::Z);
        assert forall|a2: Axis, j: int| 0 <= j < indcs@.len()
            && a2.spec_get(bbox.bmin) < #[trigger] sah_candidate(objects@, indcs@, j, a2)
            && sah_candidate(objects@, indcs@, j, a2) < a2.spec_get(bbox.bmax)
            implies sah_cost(bbox, objects@, indcs@, best_axis, best_pos)
                <= sah_cost(bbox, objects@, indcs@, a2,
                    sah_candidate(objects@, indcs@, j, a2)) by {
            let ai: int = match a2 {
                Axis::X => 0,
                Axis::Y => 1,
                Axis::Z => 2,
            };
            assert(sweep_axis(ai) == a2);
            assert(sah_candidate(objects@, indcs@, j, sweep_axis(ai))
                == sah_candidate(objects@, indcs@, j, a2));
            assert(best_sah <= sah_cost(bbox, objects@, indcs@, a2,
                sah_candidate(objects@, indcs@, j, a2)));
            if best_sah == i128::MAX {
                lemma_sah_cost_in_range(bbox, objects@, indcs@, a2,
                    sah_candidate(objects@, indcs@, j, a2));
            }
        }
    }
    let bbox_left = bbox.split_left(best_pos, best_axis);
    let bbox_right = bbox.split_right(best_pos, best_axis);
    match partition(&bbox_left, &bbox_right, indcs, objects) {
        Ok((lefts, rights)) => {
            proof {
                assert(exists|axis: Axis, pos: i64| {
                    &&& bbox_left == (BBox {
                        bmin: bbox.bmin,
                        bmax: axis.spec_set(bbox.bmax, pos),
                    })
                    &&& bbox_right == (BBox {
                        bmin: axis.spec_set(bbox.bmin, pos),
                        bmax: bbox.bmax,
                    })
                    &&& axis.spec_get(bbox.bmin) <= pos <= axis.spec_get(bbox.bmax)
                    &&& axis.spec_get(bbox.bmax) - axis.spec_get(bbox.bmin) >= 2
                        ==> axis.spec_get(bbox.bmin) < pos < axis.spec_get(bbox.bmax)
                    &&& forall|a2: Axis, j: int| 0 <= j < indcs@.len()
                        && a2.spec_get(bbox.bmin)
                            < #[trigger] sah_candidate(objects@, indcs@, j, a2)
                        && sah_candidate(objects@, indcs@, j, a2) < a2.spec_get(bbox.bmax)
                        ==> sah_cost(bbox, objects@, indcs@, axis, pos)
                            <= sah_cost(bbox, objects@, indcs@, a2,
                                sah_candidate(objects@, indcs@, j, a2))
                }) by {
                    assert(bbox_left == (BBox {
                        bmin: bbox.bmin,
                        bmax: best_axis.spec_set(bbox.bmax, best_pos),
                    }) && bbox_right == (BBox {
                        bmin: best_axis.spec_set(bbox.bmin, best_pos),
                        bmax: bbox.bmax,
                    }));
                }
            }
            Ok(((bbox_left, lefts), (bbox_right, rights)))
        },
        Err(e) => Err(e),
    }
}

/// The midpoint of the box's extent along `axis`.
fn mid_pos(b: &BBox, axis: &Axis) -> (pos: i64)
    requires
        b.wf(),
        b.proper(),
    ensures
        axis.spec_get(b.bmin) <= pos <= axis.spec_get(b.bmax),
        axis.spec_get(b.bmax) - axis.spec_get(b.bmin) >= 2
            ==> axis.spec_get(b.bmin) < pos < axis.spec_get(b.bmax),
{
    let lo = axis.get(b.bmin);
    let hi = axis.get(b.bmax);
    proof {
        assert(0 <= tdiv(hi as int - lo as int, 2) <= hi - lo) by (nonlinear_arith)
            requires lo <= hi;
        assert(hi - lo >= 2 ==> 1 <= tdiv(hi as int - lo as int, 2) <= hi - lo - 1)
            by (nonlinear_arith)
            requires lo <= hi;
    }
    lo + crate::math::div_toward_zero(hi - lo, 2)
}

/// The exact axis choice of `split_axis_spec`.
fn split_axis(b: &BBox) -> (a: Axis)
    requires
        b.wf(),
    ensures
        a == split_axis_spec(*b),
{
    let dx = b.bmin.x - b.bmax.x;
    let dy = b.bmin.y - b.bmax.y;
    let dz = b.bmin.z - b.bmax.z;
    let x = if dx >= 0 { dx } else { -dx };
    let y = if dy >= 0 { dy } else { -dy };
    let z = if dz >= 0 { dz } else { -dz };
    if x > y && x > z {
        Axis::X
    } else if y > x && y > z {
        Axis::Y
    } else {
        Axis::Z
    }
}

/// Every object of `indcs` reaches into both halves of the midpoint
/// split: splitting would duplicate the whole list into both children
/// and make no progress.
pub open spec fn all_straddle<O: Projectable>(bbox: BBox, indcs: Seq<usize>,
    objects: Seq<O>) -> bool {
    forall|j: int| 0 <= j < indcs.len()
        ==> objects[#[trigger] indcs[j] as int].spec_in_box(left_box_spec(bbox))
            && objects[indcs[j] as int].spec_in_box(right_box_spec(bbox))
}

/// Whether every object reaches into both given halves.
fn check_all_straddle<M: Material, O: RayLover<M>>(bl: &BBox, br: &BBox,
    indcs: &Vec<usize>, objects: &Vec<O>) -> (r: bool)
    requires
        forall|i: int| 0 <= i < indcs@.len() ==> (#[trigger] indcs@[i]) < objects@.len(),
    ensures
        r == forall|j: int| 0 <= j < indcs@.len()
            ==> objects@[#[trigger] indcs@[j] as int].spec_in_box(*bl)
                && objects@[indcs@[j] as int].spec_in_box(*br),
{
    let mut i: usize = 0;
    while i < indcs.len()
        invariant
            i <= indcs@.len(),
            forall|q: int| 0 <= q < indcs@.len() ==> (#[trigger] indcs@[q]) < objects@.len(),
            forall|j: int| 0 <= j < i
                ==> objects@[#[trigger] indcs@[j] as int].spec_in_box(*bl)
                    && objects@[indcs@[j] as int].spec_in_box(*br),
        decreases indcs@.len() - i,
    {
        let idx = indcs[i];
        if !(objects[idx].in_box(*bl) && objects[idx].in_box(*br)) {
            proof {
                assert(indcs@[i as int] == idx);
            }
            return false;
        }
        i = i + 1;
    }
    true
}

/// Build the subtree over `indcs` under the volume `bbox`.  Small index
/// lists become leaves; larger ones are split and both halves built
/// recursively, `depth` bounding the recursion.  A split on which every
/// object straddles both halves would only duplicate the whole list into
/// both children, so such a node also stays a leaf.
pub fn build_node<M: Material, O: RayLover<M>>(bbox: BBox, indcs: Vec<usize>,
    objects: &Vec<O>, depth: u32) -> (res: Result<KDTreeNode, BuildError>)
    requires
        bbox.wf(),
        bbox.proper(),
        forall|i: int| 0 <= i < indcs@.len() ==> (#[trigger] indcs@[i]) < objects@.len(),
    ensures
        match res {
            Ok(node) => {
                &&& node.wf(objects@.len() as int)
                &&& node.spec_bbox() == bbox
                &&& node.spec_indices() == indcs@
                &&& node.leaf_indices() == indcs@.to_set()
                &&& (node.left is None && node.right is None)
                    <==> (indcs@.len() < MAX_INDCS || depth == 0
                        || all_straddle(bbox, indcs@, objects@))
                &&& (indcs@.len() >= MAX_INDCS && depth > 0
                    && !all_straddle(bbox, indcs@, objects@)) ==> {
                    &&& node.left matches Some(l) && {
                        &&& l.spec_bbox() == left_box_spec(bbox)
                        &&& forall|k: usize| #[trigger] l.leaf_indices().contains(k)
                            <==> indcs@.contains(k)
                                && objects@[k as int].spec_in_box(left_box_spec(bbox))
                    }
                    &&& node.right matches Some(rn) && {
                        &&& rn.spec_bbox() == right_box_spec(bbox)
                        &&& forall|k: usize| #[trigger] rn.leaf_indices().contains(k)
                            <==> indcs@.contains(k)
                                && objects@[k as int].spec_in_box(right_box_spec(bbox))
                    }
                }
            },
            Err(e) => {
                &&& e == BuildError::HoboObject
                &&& exists|b: BBox, k: usize| indcs@.contains(k)
                    && !(#[trigger] objects@[k as int].spec_in_box(left_box_spec(b)))
                    && !objects@[k as int].spec_in_box(right_box_spec(b))
            },
        },
    decreases depth,
{
    if indcs.len() < MAX_INDCS || depth == 0 {
        Ok(KDTreeNode { bbox, indices: indcs, left: None, right: None })
    } else {
        match split(bbox, &indcs, objects) {
            Err(e) => Err(e),
            Ok(((bl, l), (br, rr))) => {
                if check_all_straddle(&bl, &br, &indcs, objects) {
                    return Ok(KDTreeNode { bbox, indices: indcs, left: None, right: None });
                }
                let ghost lseq = l@;
                let ghost rseq = rr@;
                let left = match build_node(bl, l, objects, depth - 1) {
                    Err(e) => {
                        return Err(e);
                    },
                    Ok(n) => n,
                };
                let right = match build_node(br, rr, objects, depth - 1) {
                    Err(e) => {
                        return Err(e);
                    },
                    Ok(n) => n,
                };
                proof {
                    assert forall|k: usize| #[trigger] left.leaf_indices().contains(k)
                        <==> indcs@.contains(k)
                            && objects@[k as int].spec_in_box(left_box_spec(bbox)) by {
                        let ghost kobj = objects@[k as int];
                        assert(left.leaf_indices().contains(k) <==> lseq.contains(k));
                    }
                    assert forall|k: usize| #[trigger] right.leaf_indices().contains(k)
                        <==> indcs@.contains(k)
                            && objects@[k as int].spec_in_box(right_box_spec(bbox)) by {
                        let ghost kobj = objects@[k as int];
                        assert(right.leaf_indices().contains(k) <==> rseq.contains(k));
                    }
                    assert(lseq.to_set().union(rseq.to_set()) =~= indcs@.to_set()) by {
                        assert forall|k: usize| indcs@.to_set().contains(k)
                            implies lseq.to_set().union(rseq.to_set()).contains(k) by {
                            let i = choose|i: int| 0 <= i < indcs@.len() && indcs@[i] == k;
                            assert(objects@[indcs@[i] as int].spec_in_box(left_box_spec(bbox))
                                || objects@[indcs@[i] as int].spec_in_box(
                                    right_box_spec(bbox)));
                            if objects@[k as int].spec_in_box(left_box_spec(bbox)) {
                                assert(lseq.contains(k));
                            } else {
                                assert(rseq.contains(k));
                            }
                        }
                        assert forall|k: usize| lseq.to_set().union(rseq.to_set()).contains(k)
                            implies indcs@.to_set().contains(k) by {
                            let ghost kobj = objects@[k as int];
                            if lseq.contains(k) {
                                assert(indcs@.contains(k));
                            } else {
                                assert(rseq.contains(k));
                                assert(indcs@.contains(k));
                            }
                        }
                    }
                }
                Ok(KDTreeNode {
                    bbox,
                    indices: indcs,
                    left: Some(Box::new(left)),
                    right: Some(Box::new(right)),
                })
            },
        }
    }
}

/// The tree over a whole object list: the root volume is the union of
/// every object's bounding volume, and no object is lost on the way into
/// the leaves.
pub fn build_kd_tree<M: Material, O: RayLover<M>>(objects: Vec<O>)
    -> (res: Result<KDTreeRoot<O>, BuildError>)
    ensures
        match res {
            Ok(root) => {
                &&& root.spec_objects() == objects@
                &&& root.spec_tree().wf(objects@.len() as int)
                &&& forall|i: int| 0 <= i < objects@.len()
                    ==> root.spec_bbox().spec_contains_box(
                        (#[trigger] objects@[i]).spec_bound())
                &&& objects@.len() > 0 ==> {
                    &&& exists|i: int| 0 <= i < objects@.len() && root.spec_bbox().bmin.x
                        == (#[trigger] objects@[i].spec_bound()).bmin.x
                    &&& exists|i: int| 0 <= i < objects@.len() && root.spec_bbox().bmin.y
                        == (#[trigger] objects@[i].spec_bound()).bmin.y
                    &&& exists|i: int| 0 <= i < objects@.len() && root.spec_bbox().bmin.z
                        == (#[trigger] objects@[i].spec_bound()).bmin.z
                    &&& exists|i: int| 0 <= i < objects@.len() && root.spec_bbox().bmax.x
                        == (#[trigger] objects@[i].spec_bound()).bmax.x
                    &&& exists|i: int| 0 <= i < objects@.len() && root.spec_bbox().bmax.y
                        == (#[trigger] objects@[i].spec_bound()).bmax.y
                    &&& exists|i: int| 0 <= i < objects@.len() && root.spec_bbox().bmax.z
                        == (#[trigger] objects@[i].spec_bound()).bmax.z
                }
                &&& forall|k: usize| root.spec_leaf_indices().contains(k)
                    <==> (k as int) < objects@.len()
            },
            Err(e) => {
                &&& e == BuildError::HoboObject
                &&& exists|b: BBox, k: usize| (k as int) < objects@.len()
                    && !(#[trigger] objects@[k as int].spec_in_box(left_box_spec(b)))
                    && !objects@[k as int].spec_in_box(right_box_spec(b))
            },
        },
{
    let bbox = if objects.len() == 0 {
        BBox { bmin: Vec3 { x: 0, y: 0, z: 0 }, bmax: Vec3 { x: 0, y: 0, z: 0 } }
    } else {
        objects.get_bound_box()
    };
    let mut indices: Vec<usize> = Vec::new();
    let mut i: usize = 0;
    while i < objects.len()
        invariant
            i <= objects@.len(),
            indices@.len() == i,
            forall|j: int| 0 <= j < i ==> (#[trigger] indices@[j]) == j as usize,
        decreases objects@.len() - i,
    {
        indices.push(i);
        i = i + 1;
    }
    let ghost idxseq = indices@;
    match build_node(bbox, indices, &objects, MAX_BUILD_DEPTH) {
        Err(e) => Err(e),
        Ok(node) => {
            proof {
                assert forall|k: usize| idxseq.to_set().contains(k)
                    <==> (k as int) < objects@.len() by {
                    if idxseq.contains(k) {
                        let j = choose|j: int| 0 <= j < idxseq.len() && idxseq[j] == k;
                        assert(k as int == j);
                    }
                    if (k as int) < objects@.len() {
                        assert(idxseq[k as int] == k);
                        assert(idxseq.contains(k));
                    }
                }
            }
            Ok(KDTreeRoot { objects, tree: Box::new(node) })
        },
    }
}

impl<O> KDTreeRoot<O> {
    #[verifier::type_invariant]
    spec fn inv(self) -> bool {
        self.tree.wf(self.objects@.len() as int)
    }

    /// The owned object list.
    pub closed spec fn spec_objects(self) -> Seq<O> {
        self.objects@
    }

    /// The root node of the partition tree.
    pub closed spec fn spec_tree(self) -> KDTreeNode {
        *self.tree
    }

    /// The root bounding volume.
    pub closed spec fn spec_bbox(self) -> BBox {
        self.tree.bbox
    }

    /// Every object index reachable from some leaf.
    pub closed spec fn spec_leaf_indices(self) -> Set<usize> {
        self.tree.leaf_indices()
    }

    /// The root bounding volume.
    pub fn root_bbox(&self) -> (b: BBox)
        ensures
            b == self.spec_bbox(),
            b.wf(),
            b.proper(),
    {
        proof {
            use_type_invariant(self);
        }
        self.tree.bbox
    }
}

/// How the root's hidden pieces relate to its public views: the root's
/// volume and reachable indices are those of its tree.
pub proof fn lemma_root_views<O>(root: KDTreeRoot<O>)
    ensures
        root.spec_bbox() == root.spec_tree().spec_bbox(),
        root.spec_leaf_indices() == root.spec_tree().leaf_indices(),
    {
}

/// What the tree query denotes: intersecting the root is exactly the
/// ordered traversal `node_result` of its tree over its object list, so
/// a caller can reason from that open definition (near child first, both
/// entered children consulted, the nearer of two hits returned).
pub proof fn lemma_root_intersect_characterized<M: Material, O: RayLover<M>>(
    root: KDTreeRoot<O>, r: Ray)
    ensures
        root.spec_intersect(r) == node_result::<M, O>(root.spec_tree(), root.spec_objects(),
            r),
    {
}

impl<M: Material, O: RayLover<M>> Intersectable<M> for KDTreeRoot<O> {
    closed spec fn spec_intersect(&self, r: Ray) -> Option<(Dist, IntersectData<M>)> {
        node_result(*self.tree, self.objects@, r)
    }

    fn intersect(&self, r: Ray) -> (res: Option<(Dist, IntersectData<M>)>) {
        proof {
            use_type_invariant(self);
        }
        self.tree.intersect(&self.objects, r)
    }
}

impl<O> Projectable for KDTreeRoot<O> {
    closed spec fn spec_bound(&self) -> BBox {
        self.tree.bbox
    }

    open spec fn spec_in_box(&self, b: BBox) -> bool {
        self.spec_bound().spec_overlap(b)
    }

    fn get_min(&self, v: Vec3) -> (r: Vec3) {
        proof {
            use_type_invariant(self);
        }
        BBox::vmin(&v, &self.tree.bbox.bmin)
    }

    fn get_max(&self, v: Vec3) -> (r: Vec3) {
        proof {
            use_type_invariant(self);
        }
        BBox::vmax(&v, &self.tree.bbox.bmax)
    }

    fn get_min_bound(&self) -> (r: Vec3) {
        proof {
            use_type_invariant(self);
        }
        self.tree.bbox.bmin
    }

    fn get_max_bound(&self) -> (r: Vec3) {
        proof {
            use_type_invariant(self);
        }
        self.tree.bbox.bmax
    }

    fn square_projected(&self, axis: &Axis) -> (r: i128) {
        proof {
            use_type_invariant(self);
        }
        let pmin = axis.get_projected(self.tree.bbox.bmin);
        let pmax = axis.get_projected(self.tree.bbox.bmax);
        let flat = BBox { bmin: pmin, bmax: pmax };
        flat.square()
    }

    fn in_box(&self, b: BBox) -> (r: bool) {
        self.tree.bbox.overlap(&b)
    }
}

impl<M: Material, O: RayLover<M>> RayLover<M> for KDTreeRoot<O> {
}

/// The nearer of two hits, the first winning ties.
fn pick_nearest<M>(a: Option<(Dist, IntersectData<M>)>, b: Option<(Dist, IntersectData<M>)>)
    -> (res: Option<(Dist, IntersectData<M>)>)
    ensures
        res == nearest_of(a, b),
{
    match (a, b) {
        (None, c) => c,
        (c, None) => c,
        (Some(pa), Some(pb)) => {
            if pb.0.lt(pa.0) {
                Some(pb)
            } else {
                Some(pa)
            }
        },
    }
}

} // verus!
