use raytrace::math::SCALE;
use raytrace::vec3::Vec3;
use raytrace::axis::Axis;
use raytrace::ray::Ray;
use raytrace::bbox::BBox;
use raytrace::camera::Camera;

fn v(x: i64, y: i64, z: i64) -> Vec3 {
    Vec3 { x: x * SCALE, y: y * SCALE, z: z * SCALE }
}

#[test]
fn test_reflect() {
    let ray = Ray { pos: v(10, 0, 0), dir: v(1, 0, 0) };
    assert_eq!(ray.reflect(v(10, 0, 0), v(1, 0, 0)).dir, v(-1, 0, 0));
}

#[test]
fn test_camera() {
    let camera = Camera {
        pos: v(-10, 0, 0),
        look_at: v(0, 0, 0),
        up: v(0, 1, 0),
        fov: 60,
        w: 300,
        h: 200,
    };
    assert_eq!(camera.get_ray(150, 100).pos, camera.pos);
    assert_eq!(camera.get_ray(150, 100).dir, v(1, 0, 0));
    assert!(camera.get_ray(100, 100).dir.z < 0);
    assert!(camera.get_ray(200, 100).dir.z > 0);
    assert!(camera.get_ray(150, 10).dir.y > 0);
    assert!(camera.get_ray(150, 190).dir.y < 0);
}

#[test]
fn test_axis_get_set() {
    let p = Vec3 { x: 1, y: 2, z: 3 };
    assert_eq!(Axis::X.get(p), 1);
    assert_eq!(Axis::Y.get(p), 2);
    assert_eq!(Axis::Z.get(p), 3);
    assert_eq!(Axis::Y.set(p, 9), Vec3 { x: 1, y: 9, z: 3 });
    assert_eq!(Axis::X.get_projected(p), Vec3 { x: 1, y: 0, z: 3 });
}

#[test]
fn test_slab_entry_exact() {
    let b = BBox { bmin: v(0, 0, 0), bmax: v(10, 10, 10) };
    let r = Ray { pos: v(-5, 5, 5), dir: v(1, 0, 0) };
    let d = b.intersect(r).expect("ray aimed at the box must enter it");
    // entry at parameter 5: (0 - (-5 * SCALE)) / SCALE
    assert_eq!(d.num, 5 * SCALE);
    assert_eq!(d.den, SCALE);
}

#[test]
fn test_slab_miss_is_none() {
    let b = BBox { bmin: v(0, 0, 0), bmax: v(10, 10, 10) };
    // parallel to the box on its side
    let r = Ray { pos: v(-5, 20, 5), dir: v(1, 0, 0) };
    assert!(b.intersect(r).is_none());
    // box entirely behind the ray
    let behind = Ray { pos: v(20, 5, 5), dir: v(1, 0, 0) };
    assert!(b.intersect(behind).is_none());
}

#[test]
fn test_slab_origin_inside_nonnegative() {
    let b = BBox { bmin: v(0, 0, 0), bmax: v(10, 10, 10) };
    let r = Ray { pos: v(5, 5, 5), dir: v(1, 0, 0) };
    let d = b.intersect(r).expect("origin inside the box must report a hit");
    assert!(d.num >= 0);
    assert!(d.den > 0);
}

#[test]
fn test_overlap_and_in_box() {
    let a = BBox { bmin: v(0, 0, 0), bmax: v(5, 5, 5) };
    let b = BBox { bmin: v(4, 4, 4), bmax: v(9, 9, 9) };
    let c = BBox { bmin: v(6, 0, 0), bmax: v(9, 5, 5) };
    assert!(a.overlap(&b));
    assert!(b.overlap(&a));
    assert!(!a.overlap(&c));
    assert!(a.in_box(v(3, 3, 3)));
    assert!(!a.in_box(v(6, 3, 3)));
}

#[test]
fn test_split_boxes() {
    let b = BBox { bmin: v(0, 0, 0), bmax: v(10, 10, 10) };
    let l = b.split_left(5 * SCALE, Axis::X);
    let r = b.split_right(5 * SCALE, Axis::X);
    assert_eq!(l.bmin, v(0, 0, 0));
    assert_eq!(l.bmax, v(5, 10, 10));
    assert_eq!(r.bmin, v(5, 0, 0));
    assert_eq!(r.bmax, v(10, 10, 10));
}

#[test]
fn test_square_formula() {
    let b = BBox { bmin: v(0, 0, 0), bmax: v(2, 3, 4) };
    let a = 2 * SCALE as i128;
    let bb = 3 * SCALE as i128;
    let c = 4 * SCALE as i128;
    assert_eq!(b.square(), (a * bb + bb * c + a * c) * 2);
}

#[test]
fn test_vmin_vmax() {
    let a = Vec3 { x: 1, y: 9, z: 3 };
    let b = Vec3 { x: 2, y: 4, z: 3 };
    assert_eq!(BBox::vmin(&a, &b), Vec3 { x: 1, y: 4, z: 3 });
    assert_eq!(BBox::vmax(&a, &b), Vec3 { x: 2, y: 9, z: 3 });
}

#[test]
fn test_normalize_unit() {
    let d = Vec3 { x: 3 * SCALE, y: 4 * SCALE, z: 0 };
    let n = d.normalize();
    // |(3, 4, 0)| = 5, so the result is (3/5, 4/5, 0) in fixed point
    assert_eq!(n, Vec3 { x: 3 * SCALE / 5, y: 4 * SCALE / 5, z: 0 });
}
