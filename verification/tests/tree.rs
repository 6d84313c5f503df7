use raytrace::math::SCALE;
use raytrace::vec3::Vec3;
use raytrace::ray::Ray;
use raytrace::bbox::BBox;
use raytrace::dist::Dist;
use raytrace::material::SolidColorMat;
use raytrace::intersect::{Intersectable, IntersectData, Uv};
use raytrace::projectable::Projectable;
use raytrace::raylover::{RayLover, BoxObject};
use raytrace::boundable::Boundable;
use raytrace::axis::Axis;
use raytrace::kdtree::{build_kd_tree, build_node, split, split_easy, split_with_sort, BuildError};

fn v(x: i64, y: i64, z: i64) -> Vec3 {
    Vec3 { x: x * SCALE, y: y * SCALE, z: z * SCALE }
}

fn white() -> SolidColorMat {
    SolidColorMat { color: Vec3 { x: SCALE, y: SCALE, z: SCALE }, reflect: 0 }
}

fn slab(x0: i64, x1: i64) -> BoxObject<SolidColorMat> {
    BoxObject::new(
        BBox { bmin: v(x0, 0, 0), bmax: v(x1, 10, 10) },
        Vec3 { x: -SCALE, y: 0, z: 0 },
        white(),
    )
}

#[test]
fn test_bound_box_union() {
    let objects = vec![slab(0, 4), slab(6, 11)];
    let bbox = objects.get_bound_box();
    assert_eq!(bbox.bmin, v(0, 0, 0));
    assert_eq!(bbox.bmax, v(11, 10, 10));
}

#[test]
fn test_split_routes_each_side() {
    let objects = vec![slab(0, 4), slab(6, 11)];
    let bbox = objects.get_bound_box();
    let ((_, l), (_, r)) = split(bbox, &vec![0usize, 1], &objects).unwrap();
    assert_eq!(l.len(), 1);
    assert_eq!(r.len(), 1);
    assert_eq!(l[0], 0);
    assert_eq!(r[0], 1);
}

#[test]
fn test_split_axis_tie_defaults_to_z() {
    // extents 10, 10, 5: no axis is strictly widest, so the split falls
    // through to Z even though Z is the narrowest
    let objects = vec![
        BoxObject::new(
            BBox { bmin: v(0, 0, 0), bmax: v(10, 10, 5) },
            Vec3 { x: -SCALE, y: 0, z: 0 },
            white(),
        ),
    ];
    let bbox = BBox { bmin: v(0, 0, 0), bmax: v(10, 10, 5) };
    let ((bl, _), (br, _)) = split_easy(bbox, &vec![0usize], &objects).unwrap();
    assert_eq!(bl.bmax, Vec3 { x: 10 * SCALE, y: 10 * SCALE, z: 5 * SCALE / 2 });
    assert_eq!(br.bmin, Vec3 { x: 0, y: 0, z: 5 * SCALE / 2 });
}

#[test]
fn test_split_straddler_goes_both_ways() {
    // the middle object straddles the split plane of [0, 11]
    let objects = vec![slab(0, 4), slab(6, 11), slab(4, 7)];
    let bbox = objects.get_bound_box();
    let ((_, l), (_, r)) = split_easy(bbox, &vec![0usize, 1, 2], &objects).unwrap();
    assert!(l.contains(&2));
    assert!(r.contains(&2));
    assert!(l.contains(&0) && !l.contains(&1));
    assert!(r.contains(&1) && !r.contains(&0));
}

#[test]
fn test_split_with_sort_loses_nothing() {
    let objects: Vec<BoxObject<SolidColorMat>> =
        (0..8).map(|i| slab(3 * i, 3 * i + 2)).collect();
    let indices: Vec<usize> = (0..8).collect();
    let bbox = objects.get_bound_box();
    let ((_, l), (_, r)) = split_with_sort(bbox, &indices, &objects).unwrap();
    for i in 0..8usize {
        assert!(l.contains(&i) || r.contains(&i));
    }
}

#[test]
fn test_tree_keeps_every_object() {
    // enough objects to force real splits
    let objects: Vec<BoxObject<SolidColorMat>> =
        (0..40).map(|i| slab(2 * i, 2 * i + 1)).collect();
    let tree = build_kd_tree(objects).unwrap();
    let root = tree.root_bbox();
    assert_eq!(root.bmin, v(0, 0, 0));
    assert_eq!(root.bmax, v(79, 10, 10));
    // an object deep in the list is still found by a ray aimed at it
    let ray = Ray { pos: Vec3 { x: 70 * SCALE + SCALE / 2, y: 5 * SCALE, z: -5 * SCALE },
        dir: v(0, 0, 1) };
    let hit = tree.intersect(ray).expect("object 35 must still be reachable");
    assert_eq!(hit.0.num, 5 * SCALE);
    assert_eq!(hit.0.den, SCALE);
}

#[test]
fn test_tree_returns_nearest() {
    // boxes entered at parameters 3 and 7 along the ray
    let objects: Vec<BoxObject<SolidColorMat>> =
        (0..40).map(|i| slab(3 + 4 * (i % 2), 3 + 4 * (i % 2) + 1)).collect();
    let tree = build_kd_tree(objects).unwrap();
    let ray = Ray { pos: v(0, 5, 5), dir: v(1, 0, 0) };
    let hit = tree.intersect(ray).expect("the ray runs through both boxes");
    // the returned hit is the globally nearest one: parameter 3, not 7
    assert_eq!(hit.0.num, 3 * SCALE);
    assert_eq!(hit.0.den, SCALE);
}

#[test]
fn test_intersect_or_next_prefers_nearer() {
    let objects = vec![slab(3, 4), slab(7, 8)];
    let bbox = objects.get_bound_box();
    let near = build_node(bbox, vec![0usize], &objects, 8).unwrap();
    let far = build_node(bbox, vec![1usize], &objects, 8).unwrap();
    let ray = Ray { pos: v(0, 5, 5), dir: v(1, 0, 0) };
    // whichever subtree is scanned first, the nearer hit comes back
    let a = near.intersect_or_next(&far, &objects, ray).unwrap();
    let b = far.intersect_or_next(&near, &objects, ray).unwrap();
    assert_eq!(a.0.num, 3 * SCALE);
    assert_eq!(b.0.num, 3 * SCALE);
    assert_eq!(a.0.den, b.0.den);
}

#[test]
fn test_intersect_node_entry() {
    let objects = vec![slab(0, 10)];
    let bbox = objects.get_bound_box();
    let node = build_node(bbox, vec![0usize], &objects, 8).unwrap();
    let ray = Ray { pos: v(-5, 5, 5), dir: v(1, 0, 0) };
    let d = node.intersect_node(ray).unwrap();
    assert_eq!(d.num, 5 * SCALE);
    assert_eq!(d.den, SCALE);
}

#[test]
fn test_all_straddling_split_stays_leaf() {
    // every object fills the whole box: a split would duplicate the full
    // list into both children, so the node stays a leaf
    let objects: Vec<BoxObject<SolidColorMat>> = (0..40).map(|_| slab(0, 10)).collect();
    let bbox = objects.get_bound_box();
    let indices: Vec<usize> = (0..40).collect();
    let node = build_node(bbox, indices, &objects, 64).unwrap();
    assert!(node.left.is_none() && node.right.is_none());
    assert_eq!(node.indices.len(), 40);
}

#[test]
fn test_split_with_sort_makes_progress() {
    let objects: Vec<BoxObject<SolidColorMat>> =
        (0..8).map(|i| slab(3 * i, 3 * i + 2)).collect();
    let indices: Vec<usize> = (0..8).collect();
    let bbox = objects.get_bound_box();
    let ((bl, _), (br, _)) = split_with_sort(bbox, &indices, &objects).unwrap();
    // with a wide axis, neither half equals the parent box
    assert!(bl != bbox && br != bbox);
    assert_eq!(bl.bmin, bbox.bmin);
    assert_eq!(br.bmax, bbox.bmax);
}

#[test]
fn test_empty_build() {
    let objects: Vec<BoxObject<SolidColorMat>> = Vec::new();
    let tree = build_kd_tree(objects).unwrap();
    let ray = Ray { pos: v(-5, 5, 5), dir: v(1, 0, 0) };
    assert!(tree.intersect(ray).is_none());
}

/// An object whose containment test contradicts its bounding volume, to
/// drive a split into its fatal case.
struct LyingObject;

impl Projectable for LyingObject {
    fn spec_bound(&self) -> BBox {
        BBox { bmin: Vec3 { x: 0, y: 0, z: 0 }, bmax: Vec3 { x: SCALE, y: SCALE, z: SCALE } }
    }

    fn spec_in_box(&self, _b: BBox) -> bool {
        false
    }

    fn get_min(&self, v: Vec3) -> Vec3 {
        BBox::vmin(&v, &Vec3 { x: 0, y: 0, z: 0 })
    }

    fn get_max(&self, v: Vec3) -> Vec3 {
        BBox::vmax(&v, &Vec3 { x: SCALE, y: SCALE, z: SCALE })
    }

    fn get_min_bound(&self) -> Vec3 {
        Vec3 { x: 0, y: 0, z: 0 }
    }

    fn get_max_bound(&self) -> Vec3 {
        Vec3 { x: SCALE, y: SCALE, z: SCALE }
    }

    fn square_projected(&self, _axis: &Axis) -> i128 {
        0
    }

    fn in_box(&self, _b: BBox) -> bool {
        false
    }
}

impl Intersectable<SolidColorMat> for LyingObject {
    fn spec_intersect(&self, _r: Ray) -> Option<(Dist, IntersectData<SolidColorMat>)> {
        None
    }

    fn intersect(&self, _r: Ray) -> Option<(Dist, IntersectData<SolidColorMat>)> {
        None
    }
}

impl RayLover<SolidColorMat> for LyingObject {}

#[test]
fn test_hobo_object_aborts_build() {
    let objects: Vec<LyingObject> = (0..40).map(|_| LyingObject).collect();
    let err = build_kd_tree(objects).err().expect("a lying object must abort the build");
    assert_eq!(err, BuildError::HoboObject);
}

#[test]
fn test_gen_test_intersectable() {
    let d = raytrace::intersect::gen_test_intersectable();
    assert_eq!(d.normal, Vec3 { x: 0, y: SCALE, z: 0 });
    assert_eq!(d.pos, Vec3 { x: 0, y: 0, z: 0 });
    assert_eq!(d.uv, Uv { u: 0, v: 0 });
}
