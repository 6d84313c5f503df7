use raytrace::math::SCALE;
use raytrace::vec3::Vec3;
use raytrace::bbox::BBox;
use raytrace::camera::Camera;
use raytrace::light::point_light_white;
use raytrace::material::SolidColorMat;
use raytrace::raylover::BoxObject;
use raytrace::scene::Scene;
use raytrace::shade::ShadowMode;
use raytrace::render::{next_chunk, render_part, assemble, CHUNK_SIZE};

fn v(x: i64, y: i64, z: i64) -> Vec3 {
    Vec3 { x: x * SCALE, y: y * SCALE, z: z * SCALE }
}

fn small_scene() -> Scene<BoxObject<SolidColorMat>> {
    let obj = BoxObject::new(
        BBox { bmin: v(0, -10, -10), bmax: v(10, 10, 10) },
        Vec3 { x: -SCALE, y: 0, z: 0 },
        SolidColorMat { color: Vec3 { x: SCALE, y: SCALE / 2, z: SCALE / 4 }, reflect: 0 },
    );
    Scene {
        cam: Camera { pos: v(-20, 0, 0), look_at: v(0, 0, 0), up: v(0, 1, 0), fov: 60,
            w: 8, h: 6 },
        objects: vec![obj],
        lights: vec![point_light_white(v(-10, 5, 0))],
    }
}

#[test]
fn test_next_chunk_claims_in_order() {
    let total = 2 * CHUNK_SIZE + 123;
    let (p1, c1) = next_chunk(0, total);
    assert_eq!(p1, CHUNK_SIZE);
    assert_eq!(c1, Some((0, CHUNK_SIZE)));
    let (p2, c2) = next_chunk(p1, total);
    assert_eq!(p2, 2 * CHUNK_SIZE);
    assert_eq!(c2, Some((CHUNK_SIZE, 2 * CHUNK_SIZE)));
    let (p3, c3) = next_chunk(p2, total);
    assert_eq!(c3, Some((2 * CHUNK_SIZE, total)));
    let (_, c4) = next_chunk(p3, total);
    assert_eq!(c4, None);
}

#[test]
fn test_chunks_cover_every_pixel_once() {
    let total = 3 * CHUNK_SIZE + 17;
    let mut passed = 0usize;
    let mut covered = vec![0u32; total];
    loop {
        let (new_passed, claim) = next_chunk(passed, total);
        passed = new_passed;
        match claim {
            None => break,
            Some((start, end)) => {
                assert!(start < end && end <= total);
                for p in start..end {
                    covered[p] += 1;
                }
            },
        }
    }
    assert!(covered.iter().all(|&c| c == 1));
}

#[test]
fn test_render_part_bytes() {
    let scene = small_scene();
    let total = (scene.cam.w * scene.cam.h) as usize;
    let bytes = render_part(&scene, 0, total, ShadowMode::Off);
    assert_eq!(bytes.len(), 3 * total);
    // rendering the same range twice without jitter is identical
    let again = render_part(&scene, 0, total, ShadowMode::Off);
    assert_eq!(bytes, again);
    // rendering in two halves gives the same bytes as one pass
    let first = render_part(&scene, 0, total / 2, ShadowMode::Off);
    let second = render_part(&scene, total / 2, total, ShadowMode::Off);
    assert_eq!(&bytes[..first.len()], &first[..]);
    assert_eq!(&bytes[first.len()..], &second[..]);
}

#[test]
fn test_assemble_places_chunks() {
    let parts = vec![
        (2usize, vec![7u8, 8, 9]),
        (0usize, vec![1u8, 2, 3, 4, 5, 6]),
    ];
    let buf = assemble(&parts, 3);
    assert_eq!(buf, vec![1, 2, 3, 4, 5, 6, 7, 8, 9]);
}
