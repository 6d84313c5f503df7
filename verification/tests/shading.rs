use raytrace::math::SCALE;
use raytrace::vec3::Vec3;
use raytrace::ray::Ray;
use raytrace::bbox::BBox;
use raytrace::dist::Dist;
use raytrace::axis::Axis;
use raytrace::camera::Camera;
use raytrace::light::{Light, point_light_white};
use raytrace::material::{Material, SolidColorMat};
use raytrace::intersect::{Intersectable, IntersectData, Uv};
use raytrace::projectable::Projectable;
use raytrace::raylover::{RayLover, BoxObject};
use raytrace::scene::Scene;
use raytrace::shade::{shade, soft_shadow, aliased_soft_shadow, ShadowMode, MAX_DEPTH,
    SHADOW_PROBES, SHADOW_ATTEN};

fn v(x: i64, y: i64, z: i64) -> Vec3 {
    Vec3 { x: x * SCALE, y: y * SCALE, z: z * SCALE }
}

fn white() -> SolidColorMat {
    SolidColorMat { color: Vec3 { x: SCALE, y: SCALE, z: SCALE }, reflect: 0 }
}

fn test_camera_at(pos: Vec3, look_at: Vec3) -> Camera {
    Camera { pos, look_at, up: v(0, 1, 0), fov: 60, w: 4, h: 4 }
}

/// A sphere, computed in floating point and reported in fixed point.
struct Sphere {
    pos: Vec3,
    radius: i64,
    material: SolidColorMat,
}

impl Sphere {
    fn bound(&self) -> BBox {
        BBox {
            bmin: Vec3 {
                x: self.pos.x - self.radius,
                y: self.pos.y - self.radius,
                z: self.pos.z - self.radius,
            },
            bmax: Vec3 {
                x: self.pos.x + self.radius,
                y: self.pos.y + self.radius,
                z: self.pos.z + self.radius,
            },
        }
    }
}

impl Projectable for Sphere {
    fn spec_bound(&self) -> BBox {
        self.bound()
    }

    fn spec_in_box(&self, b: BBox) -> bool {
        self.bound().overlap(&b)
    }

    fn get_min(&self, v: Vec3) -> Vec3 {
        BBox::vmin(&v, &self.bound().bmin)
    }

    fn get_max(&self, v: Vec3) -> Vec3 {
        BBox::vmax(&v, &self.bound().bmax)
    }

    fn get_min_bound(&self) -> Vec3 {
        self.bound().bmin
    }

    fn get_max_bound(&self) -> Vec3 {
        self.bound().bmax
    }

    fn square_projected(&self, _axis: &Axis) -> i128 {
        0
    }

    fn in_box(&self, b: BBox) -> bool {
        self.bound().overlap(&b)
    }
}

impl Intersectable<SolidColorMat> for Sphere {
    fn spec_intersect(&self, r: Ray) -> Option<(Dist, IntersectData<SolidColorMat>)> {
        self.intersect(r)
    }

    fn intersect(&self, r: Ray) -> Option<(Dist, IntersectData<SolidColorMat>)> {
        let s = SCALE as f64;
        let ox = (r.pos.x - self.pos.x) as f64 / s;
        let oy = (r.pos.y - self.pos.y) as f64 / s;
        let oz = (r.pos.z - self.pos.z) as f64 / s;
        let dx = r.dir.x as f64 / s;
        let dy = r.dir.y as f64 / s;
        let dz = r.dir.z as f64 / s;
        let a = dx * dx + dy * dy + dz * dz;
        let b = 2.0 * (ox * dx + oy * dy + oz * dz);
        let c = ox * ox + oy * oy + oz * oz
            - (self.radius as f64 / s) * (self.radius as f64 / s);
        let disc = b * b - 4.0 * a * c;
        if disc < 0.0 || a == 0.0 {
            return None;
        }
        let t = (-b - disc.sqrt()) / (2.0 * a);
        if t <= 0.0 {
            return None;
        }
        let hit = Vec3 {
            x: r.pos.x + (t * r.dir.x as f64) as i64,
            y: r.pos.y + (t * r.dir.y as f64) as i64,
            z: r.pos.z + (t * r.dir.z as f64) as i64,
        };
        let rad = self.radius as f64;
        let normal = Vec3 {
            x: ((hit.x - self.pos.x) as f64 * s / rad) as i64,
            y: ((hit.y - self.pos.y) as f64 * s / rad) as i64,
            z: ((hit.z - self.pos.z) as f64 * s / rad) as i64,
        };
        Some((
            Dist { num: (t * s) as i64, den: SCALE },
            IntersectData { normal, pos: hit, uv: Uv { u: 0, v: 0 }, material: self.material },
        ))
    }
}

impl RayLover<SolidColorMat> for Sphere {}

#[test]
fn test_sphere_scene_end_to_end() {
    // one sphere of radius 5 centered at (5, 5, 5), one light directly above
    let sphere = Sphere { pos: v(5, 5, 5), radius: 5 * SCALE, material: white() };
    let far_x = sphere.bound().bmax.x;
    let scene = Scene {
        cam: test_camera_at(v(-20, 25, 5), v(5, 5, 5)),
        objects: vec![sphere],
        lights: vec![point_light_white(v(5, 30, 5))],
    };
    // aimed at the sphere's center from above and to the left
    let toward = Ray { pos: v(-20, 25, 5), dir: Vec3 { x: 800, y: -640, z: 0 } };
    let (d, data) = scene.objects[0].intersect(toward).expect("the ray hits the sphere");
    // nearer than the parameter at which the ray crosses the far face of
    // the sphere's bounding box
    assert!(d.num * (toward.dir.x as i64) < (far_x - toward.pos.x) * d.den);
    // the normal points outward from the center, back toward the ray
    assert!(data.normal.x < 0 && data.normal.y > 0);
    // shading the hit gives a non-zero color
    let color = shade(&scene, toward, 0, ShadowMode::Off);
    assert!(color.x > 0 && color.y > 0 && color.z > 0);
    // a ray aimed entirely away reports no hit and black
    let away = Ray { pos: v(-20, 25, 5), dir: Vec3 { x: -800, y: 640, z: 0 } };
    assert!(scene.objects[0].intersect(away).is_none());
    let black = shade(&scene, away, 0, ShadowMode::Off);
    assert_eq!(black, Vec3 { x: 0, y: 0, z: 0 });
}

fn lit_box_scene() -> Scene<BoxObject<SolidColorMat>> {
    let obj = BoxObject::new(
        BBox { bmin: v(0, 0, 0), bmax: v(10, 10, 10) },
        Vec3 { x: -SCALE, y: 0, z: 0 },
        white(),
    );
    Scene {
        cam: test_camera_at(v(-20, 5, 5), v(5, 5, 5)),
        objects: vec![obj],
        lights: vec![point_light_white(v(-10, 5, 5))],
    }
}

#[test]
fn test_shading_deterministic_without_jitter() {
    let scene = lit_box_scene();
    let ray = Ray { pos: v(-20, 5, 5), dir: v(1, 0, 0) };
    let a = shade(&scene, ray, 0, ShadowMode::Off);
    let b = shade(&scene, ray, 0, ShadowMode::Off);
    assert_eq!(a, b);
    assert!(a.x > 0);
}

#[test]
fn test_mirror_cavity_recursion_stops() {
    // two facing mirrors; shading still returns, after the fixed depth
    let mirror = SolidColorMat {
        color: Vec3 { x: SCALE / 2, y: SCALE / 2, z: SCALE / 2 },
        reflect: SCALE,
    };
    let left = BoxObject::new(
        BBox { bmin: v(-10, -50, -50), bmax: v(-9, 50, 50) },
        Vec3 { x: SCALE, y: 0, z: 0 },
        mirror,
    );
    let right = BoxObject::new(
        BBox { bmin: v(9, -50, -50), bmax: v(10, 50, 50) },
        Vec3 { x: -SCALE, y: 0, z: 0 },
        mirror,
    );
    let scene = Scene {
        cam: test_camera_at(v(0, 0, 0), v(9, 0, 0)),
        objects: vec![left, right],
        lights: vec![point_light_white(v(0, 20, 0))],
    };
    let ray = Ray { pos: v(0, 0, 0), dir: v(1, 0, 0) };
    let c = shade(&scene, ray, 0, ShadowMode::Off);
    assert!(c.x >= 0 && c.y >= 0 && c.z >= 0);
    // starting at the depth cap shades without any reflected term
    let capped = shade(&scene, ray, MAX_DEPTH, ShadowMode::Off);
    assert!(capped.x <= c.x);
}

#[test]
fn test_soft_shadow_fully_blocked() {
    // a wall so large that every jittered probe is occluded
    let wall = BoxObject::new(
        BBox { bmin: v(4, -1000, -1000), bmax: v(6, 1000, 1000) },
        Vec3 { x: -SCALE, y: 0, z: 0 },
        white(),
    );
    let objects = vec![wall];
    let factor = soft_shadow(&objects, v(0, 0, 0), &v(10, 0, 0));
    let mut expected: i64 = SCALE;
    for _ in 0..SHADOW_PROBES {
        expected = expected * SHADOW_ATTEN / SCALE;
    }
    assert_eq!(factor, expected);
}

#[test]
fn test_soft_shadow_clear_path() {
    let objects: Vec<BoxObject<SolidColorMat>> = Vec::new();
    let factor = soft_shadow(&objects, v(0, 0, 0), &v(10, 0, 0));
    assert_eq!(factor, SCALE);
    let mean = aliased_soft_shadow(&objects, v(0, 0, 0), &v(10, 0, 0));
    assert_eq!(mean, SCALE);
}

#[test]
fn test_material_clamps_channels() {
    let m = SolidColorMat { color: Vec3 { x: -5, y: 3 * SCALE, z: 100 }, reflect: 2 * SCALE };
    let d = IntersectData {
        normal: v(0, 1, 0),
        pos: v(0, 0, 0),
        uv: Uv { u: 0, v: 0 },
        material: m,
    };
    let c = m.get_color(&d);
    assert_eq!(c, Vec3 { x: 0, y: SCALE, z: 100 });
    assert_eq!(m.get_reflect(), SCALE);
}

#[test]
fn test_point_light_white() {
    let l = point_light_white(v(1, 2, 3));
    match l {
        Light::PointLight(p, c) => {
            assert_eq!(p, v(1, 2, 3));
            assert_eq!(c, Vec3 { x: SCALE, y: SCALE, z: SCALE });
        },
    }
}
