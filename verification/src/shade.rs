//! Recursive shading: direct lighting with Lambertian falloff, stochastic
//! soft shadows, and mirror reflection up to a fixed depth.
//!
//! Everything except the shadow jitter is a pure function of the ray and
//! the scene: with shadows forced to full visibility the computed color
//! equals `shade_spec` exactly.  The jitter consumes entropy through
//! `rand`, and the contracts state what holds of every draw.

use vstd::prelude::*;
use crate::math::{SCALE, COORD_LIMIT, DIR_UNIT_LIMIT, tdiv, clamp_spec, abs_spec};
use crate::vec3::Vec3;
use crate::ray::{Ray, reflect_dir_spec};
use crate::dist::Dist;
use crate::light::Light;
use crate::material::Material;
use crate::intersect::{Intersectable, IntersectData};
use crate::scene::{Scene, list_hit};

verus! {

/// Relies on rand::random: a fresh draw from the thread-local generator.
/// The result depends on entropy, so nothing is promised of it; callers
/// state what holds of every outcome.
pub assume_specification<T>[ rand::random::<T> ]() -> (r: T)
    where
        rand::distributions::Standard: rand::distributions::Distribution<T>,
;

/// Reflection recursion stops at this depth.
pub const MAX_DEPTH: i64 = 3;

/// Number of stochastic shadow trials averaged per light.
pub const SHADOW_TRIALS: usize = 25;

/// Number of shadow probe rays cast per trial.
pub const SHADOW_PROBES: usize = 19;

/// Visibility kept per occluded probe, fixed point (about 0.93).
pub const SHADOW_ATTEN: i64 = 952;

/// Radius of the jitter ball around a light, fixed point (about 0.3).
pub const JITTER_RADIUS: i64 = 307;

/// Offset of shadow and reflection origins along the normal, fixed point
/// (about 0.01), to avoid self-intersection.
pub const NORMAL_EPS: i64 = 10;

/// Bound on one direct-lighting channel.
pub const COLOR_LIMIT: i64 = 1073741824;

/// Whether shading estimates soft shadows stochastically or forces full
/// visibility (deterministic shading).
#[derive(Clone, Copy, Debug, PartialEq, Eq, Structural)]
pub enum ShadowMode {
    Off,
    Stochastic,
}

/// `pos` nudged along `normal` by the self-intersection epsilon, clamped
/// into the coordinate range.
pub open spec fn offset_spec(pos: Vec3, normal: Vec3) -> Vec3 {
    Vec3 {
        x: clamp_spec(pos.x + tdiv(normal.x * NORMAL_EPS, SCALE as int), -COORD_LIMIT as int,
            COORD_LIMIT as int) as i64,
        y: clamp_spec(pos.y + tdiv(normal.y * NORMAL_EPS, SCALE as int), -COORD_LIMIT as int,
            COORD_LIMIT as int) as i64,
        z: clamp_spec(pos.z + tdiv(normal.z * NORMAL_EPS, SCALE as int), -COORD_LIMIT as int,
            COORD_LIMIT as int) as i64,
    }
}

/// `pos` nudged along `normal` by the self-intersection epsilon.
pub fn offset_point(pos: Vec3, normal: Vec3) -> (r: Vec3)
    requires
        pos.wf(),
        normal.wf(),
    ensures
        r == offset_spec(pos, normal),
        r.wf(),
{
    proof {
        crate::vec3::mul_abs_bound2(normal.x as int, COORD_LIMIT as int, NORMAL_EPS as int,
            NORMAL_EPS as int);
        crate::vec3::mul_abs_bound2(normal.y as int, COORD_LIMIT as int, NORMAL_EPS as int,
            NORMAL_EPS as int);
        crate::vec3::mul_abs_bound2(normal.z as int, COORD_LIMIT as int, NORMAL_EPS as int,
            NORMAL_EPS as int);
    }
    let ox = crate::math::div_toward_zero_wide(
        (normal.x as i128) * (NORMAL_EPS as i128), SCALE as i128);
    let oy = crate::math::div_toward_zero_wide(
        (normal.y as i128) * (NORMAL_EPS as i128), SCALE as i128);
    let oz = crate::math::div_toward_zero_wide(
        (normal.z as i128) * (NORMAL_EPS as i128), SCALE as i128);
    Vec3 {
        x: crate::math::clamp_wide(pos.x as i128 + ox, -COORD_LIMIT, COORD_LIMIT),
        y: crate::math::clamp_wide(pos.y as i128 + oy, -COORD_LIMIT, COORD_LIMIT),
        z: crate::math::clamp_wide(pos.z as i128 + oz, -COORD_LIMIT, COORD_LIMIT),
    }
}

/// A point of the fixed-point unit ball, from entropy: what holds of every
/// draw is exactly this contract.
pub fn random_point() -> (v: Vec3)
    ensures
        v.bounded(SCALE as int),
        v.spec_norm2() <= SCALE * SCALE,
{
    let a = rand::random::<u32>();
    let b = rand::random::<u32>();
    let c = rand::random::<u32>();
    let v = Vec3 { x: map_unit(a), y: map_unit(b), z: map_unit(c) };
    let n2 = v.norm2();
    if n2 <= (SCALE as i128) * (SCALE as i128) {
        v
    } else {
        let h = Vec3 {
            x: crate::math::div_toward_zero(v.x, 2),
            y: crate::math::div_toward_zero(v.y, 2),
            z: crate::math::div_toward_zero(v.z, 2),
        };
        proof {
            assert(h.spec_norm2() <= SCALE * SCALE && h.bounded(SCALE as int))
                by (nonlinear_arith)
                requires
                    abs_spec(h.x as int) <= 512 && abs_spec(h.y as int) <= 512
                        && abs_spec(h.z as int) <= 512,
                    h.spec_norm2() == h.x * h.x + h.y * h.y + h.z * h.z,
                    SCALE == 1024;
        }
        h
    }
}

/// One entropy word folded into a fixed-point coordinate of `[-SCALE, SCALE]`.
fn map_unit(u: u32) -> (r: i64)
    ensures
        -SCALE <= r <= SCALE,
{
    let m: u64 = (u as u64) % 2049;
    (m as i64) - 1024
}

/// The jittered light position: the light moved by `jv` scaled to the
/// jitter radius, clamped into the coordinate range.
pub open spec fn jittered_spec(light: Vec3, jv: Vec3) -> Vec3 {
    Vec3 {
        x: clamp_spec(light.x + tdiv(jv.x * JITTER_RADIUS, SCALE as int), -COORD_LIMIT as int,
            COORD_LIMIT as int) as i64,
        y: clamp_spec(light.y + tdiv(jv.y * JITTER_RADIUS, SCALE as int), -COORD_LIMIT as int,
            COORD_LIMIT as int) as i64,
        z: clamp_spec(light.z + tdiv(jv.z * JITTER_RADIUS, SCALE as int), -COORD_LIMIT as int,
            COORD_LIMIT as int) as i64,
    }
}

/// Some occluder sits strictly between the probe origin and the jittered
/// light (the light itself is at parameter one along the probe ray).
pub open spec fn occluder_blocks<M: Material, O: Intersectable<M>>(objects: Seq<O>,
    origin: Vec3, jittered: Vec3) -> bool {
    match list_hit::<M, O>(objects, Ray { pos: origin, dir: jittered.sub_spec(origin) }) {
        Some((d, data)) => d.num < d.den,
        None => false,
    }
}

/// The visibility kept after `k` occluded probes.
pub open spec fn atten_iter(k: nat) -> int
    decreases k,
{
    if k == 0 {
        SCALE as int
    } else {
        tdiv(atten_iter((k - 1) as nat) * SHADOW_ATTEN, SCALE as int)
    }
}

/// The visibility factor of one shadow trial with jitter vector `jv`.
pub open spec fn shadow_factor_spec<M: Material, O: Intersectable<M>>(objects: Seq<O>,
    pos: Vec3, light: Vec3, jv: Vec3) -> int {
    if occluder_blocks::<M, O>(objects, pos, jittered_spec(light, jv)) {
        atten_iter(SHADOW_PROBES as nat)
    } else {
        SCALE as int
    }
}

/// One stochastic shadow trial: jitter the light, cast the fixed number of
/// probes from `pos` toward it, and attenuate visibility per occluded
/// probe.  The factor always comes from `shadow_factor_spec` for some
/// jitter vector within the unit ball.
pub fn soft_shadow<M: Material, O: Intersectable<M>>(objects: &Vec<O>, pos: Vec3,
    light_pos: &Vec3) -> (shadow: i64)
    requires
        pos.wf(),
        light_pos.wf(),
    ensures
        0 <= shadow <= SCALE,
        exists|jv: Vec3| jv.bounded(SCALE as int)
            && shadow == shadow_factor_spec::<M, O>(objects@, pos, *light_pos, jv),
{
    let jv = random_point();
    proof {
        crate::vec3::mul_abs_bound2(jv.x as int, SCALE as int, JITTER_RADIUS as int,
            JITTER_RADIUS as int);
        crate::vec3::mul_abs_bound2(jv.y as int, SCALE as int, JITTER_RADIUS as int,
            JITTER_RADIUS as int);
        crate::vec3::mul_abs_bound2(jv.z as int, SCALE as int, JITTER_RADIUS as int,
            JITTER_RADIUS as int);
    }
    let jx = crate::math::div_toward_zero_wide((jv.x as i128) * (JITTER_RADIUS as i128),
        SCALE as i128);
    let jy = crate::math::div_toward_zero_wide((jv.y as i128) * (JITTER_RADIUS as i128),
        SCALE as i128);
    let jz = crate::math::div_toward_zero_wide((jv.z as i128) * (JITTER_RADIUS as i128),
        SCALE as i128);
    let jittered = Vec3 {
        x: crate::math::clamp_wide(light_pos.x as i128 + jx, -COORD_LIMIT, COORD_LIMIT),
        y: crate::math::clamp_wide(light_pos.y as i128 + jy, -COORD_LIMIT, COORD_LIMIT),
        z: crate::math::clamp_wide(light_pos.z as i128 + jz, -COORD_LIMIT, COORD_LIMIT),
    };
    proof {
        assert(jittered == jittered_spec(*light_pos, jv));
    }
    let dir = jittered.sub(pos);
    let probe = Ray { pos, dir };
    let mut shadow: i64 = SCALE;
    let mut k: usize = 0;
    while k < SHADOW_PROBES
        invariant
            k <= SHADOW_PROBES,
            pos.wf(),
            probe == (Ray { pos, dir: jittered.sub_spec(pos) }),
            probe.wf(),
            jittered == jittered_spec(*light_pos, jv),
            shadow == if occluder_blocks::<M, O>(objects@, pos, jittered) {
                atten_iter(k as nat)
            } else {
                SCALE as int
            },
            0 <= shadow <= SCALE,
        decreases SHADOW_PROBES - k,
    {
        let shadow_inter = objects.intersect(probe);
        let occ = match shadow_inter {
            Some((sl, _)) => sl.num < sl.den,
            None => false,
        };
        if occ {
            proof {
                crate::vec3::mul_abs_bound2(shadow as int, SCALE as int, SHADOW_ATTEN as int,
                    SHADOW_ATTEN as int);
                crate::vec3::tdiv_bound_by_factor(shadow as int * SHADOW_ATTEN, SCALE as int,
                    shadow as int);
                assert(shadow * SHADOW_ATTEN <= SCALE * shadow) by (nonlinear_arith)
                    requires 0 <= shadow && SHADOW_ATTEN <= SCALE;
                assert(abs_spec(shadow as int * SHADOW_ATTEN) <= SCALE * shadow)
                    by (nonlinear_arith)
                    requires 0 <= shadow && 0 <= SHADOW_ATTEN <= SCALE;
            }
            shadow = crate::math::div_toward_zero(shadow * SHADOW_ATTEN, SCALE);
        }
        k = k + 1;
    }
    shadow
}

/// The sum of the trial factors for a sequence of jitter vectors.
pub open spec fn trial_sum<M: Material, O: Intersectable<M>>(objects: Seq<O>, pos: Vec3,
    light: Vec3, jvs: Seq<Vec3>) -> int
    decreases jvs.len(),
{
    if jvs.len() == 0 {
        0
    } else {
        trial_sum::<M, O>(objects, pos, light, jvs.drop_last())
            + shadow_factor_spec::<M, O>(objects, pos, light, jvs.last())
    }
}

/// `f` is the truncated mean of `SHADOW_TRIALS` shadow trials at
/// `(pos, light)`, for some sequence of jitter vectors from the unit
/// ball.  The occlusion outcome of each trial is decided by the objects,
/// not by the choice: a fully blocked light forces every factor.
pub open spec fn is_trial_mean<M: Material, O: Intersectable<M>>(objects: Seq<O>, pos: Vec3,
    light: Vec3, f: int) -> bool {
    exists|jvs: Seq<Vec3>| {
        &&& jvs.len() == SHADOW_TRIALS
        &&& forall|i: int| 0 <= i < jvs.len() ==> (#[trigger] jvs[i]).bounded(SCALE as int)
        &&& f == tdiv(trial_sum::<M, O>(objects, pos, light, jvs), SHADOW_TRIALS as int)
    }
}

/// The mean visibility over the fixed number of stochastic trials: the
/// truncated average of `SHADOW_TRIALS` factors of `shadow_factor_spec`,
/// one per drawn jitter vector.
pub fn aliased_soft_shadow<M: Material, O: Intersectable<M>>(objects: &Vec<O>, pos: Vec3,
    light_pos: &Vec3) -> (shadow: i64)
    requires
        pos.wf(),
        light_pos.wf(),
    ensures
        0 <= shadow <= SCALE,
        is_trial_mean::<M, O>(objects@, pos, *light_pos, shadow as int),
{
    let mut sum: i64 = 0;
    let mut t: usize = 0;
    let ghost mut jvs: Seq<Vec3> = Seq::empty();
    while t < SHADOW_TRIALS
        invariant
            t <= SHADOW_TRIALS,
            pos.wf(),
            light_pos.wf(),
            0 <= sum <= t * SCALE,
            jvs.len() == t,
            forall|i: int| 0 <= i < jvs.len() ==> (#[trigger] jvs[i]).bounded(SCALE as int),
            sum == trial_sum::<M, O>(objects@, pos, *light_pos, jvs),
        decreases SHADOW_TRIALS - t,
    {
        let s = soft_shadow(objects, pos, light_pos);
        proof {
            let jv = choose|jv: Vec3| jv.bounded(SCALE as int)
                && s == shadow_factor_spec::<M, O>(objects@, pos, *light_pos, jv);
            let ghost prev = jvs;
            jvs = jvs.push(jv);
            assert(jvs.drop_last() =~= prev);
            assert(jvs.last() == jv);
        }
        sum = sum + s;
        t = t + 1;
    }
    proof {
        crate::vec3::tdiv_bound_by_factor(sum as int, SHADOW_TRIALS as int, SCALE as int);
    }
    crate::math::div_toward_zero(sum, SHADOW_TRIALS as i64)
}

/// One channel of `a * b / SCALE`, rounded toward zero.
pub open spec fn fp_mul(a: int, b: int) -> int {
    tdiv(a * b, SCALE as int)
}

/// The direct contribution of one light at full visibility: the material
/// color times the light color, times the Lambertian term of the
/// normalized light direction against the normalized surface normal.
pub open spec fn light_term_lit<M: Material>(l: Light, data: IntersectData<M>,
    shadow: int) -> Vec3 {
    match l {
        Light::PointLight(v, lc) => {
            let ldir = v.sub_spec(data.pos).normalize_spec();
            let n = data.normal.normalize_spec();
            let force0 = tdiv(ldir.spec_dot(n), SCALE as int);
            let force = if force0 < 0 { 0 } else { force0 };
            let mat = data.material.spec_color(data);
            Vec3 {
                x: fp_mul(fp_mul(fp_mul(mat.x as int, lc.x as int), shadow), force) as i64,
                y: fp_mul(fp_mul(fp_mul(mat.y as int, lc.y as int), shadow), force) as i64,
                z: fp_mul(fp_mul(fp_mul(mat.z as int, lc.z as int), shadow), force) as i64,
            }
        },
    }
}

/// Direct lighting summed over the lights, at full visibility, scaled to
/// the 0-255 channel range.
pub open spec fn direct_color_spec<M: Material>(lights: Seq<Light>,
    data: IntersectData<M>) -> Vec3
    decreases lights.len(),
{
    if lights.len() == 0 {
        Vec3 { x: 0, y: 0, z: 0 }
    } else {
        let prev = direct_color_spec(lights.drop_last(), data);
        let term = light_term_lit(lights.last(), data, SCALE as int);
        Vec3 {
            x: (prev.x + term.x) as i64,
            y: (prev.y + term.y) as i64,
            z: (prev.z + term.z) as i64,
        }
    }
}

/// The world position of a light.
pub open spec fn light_position(l: Light) -> Vec3 {
    match l {
        Light::PointLight(v, c) => v,
    }
}

/// Direct lighting summed over the lights with one shadow factor per
/// light.
pub open spec fn direct_color_with<M: Material>(lights: Seq<Light>, data: IntersectData<M>,
    factors: Seq<int>) -> Vec3
    decreases lights.len(),
{
    if lights.len() == 0 {
        Vec3 { x: 0, y: 0, z: 0 }
    } else {
        let prev = direct_color_with(lights.drop_last(), data, factors.drop_last());
        let term = light_term_lit(lights.last(), data, factors.last());
        Vec3 {
            x: (prev.x + term.x) as i64,
            y: (prev.y + term.y) as i64,
            z: (prev.z + term.z) as i64,
        }
    }
}

/// `v` with every channel scaled by 255.
pub open spec fn scale255(v: Vec3) -> Vec3 {
    Vec3 { x: (v.x * 255) as i64, y: (v.y * 255) as i64, z: (v.z * 255) as i64 }
}

/// `a * b / SCALE` with non-negative factors, exactly.
fn fp_mul_exec(a: i64, b: i64) -> (r: i64)
    requires
        0 <= a <= 0x4000_0000,
        0 <= b <= 0x4000_0000,
    ensures
        r == fp_mul(a as int, b as int),
        r >= 0,
        b <= SCALE ==> r <= a,
        a <= SCALE ==> r <= b,
{
    proof {
        crate::vec3::mul_abs_bound2(a as int, 0x4000_0000, b as int, 0x4000_0000);
        if b <= SCALE {
            assert(abs_spec(a as int * b) <= SCALE * a) by (nonlinear_arith)
                requires 0 <= a && 0 <= b <= SCALE;
            crate::vec3::tdiv_bound_by_factor(a as int * b, SCALE as int, a as int);
        }
        if a <= SCALE {
            assert(abs_spec(a as int * b) <= SCALE * b) by (nonlinear_arith)
                requires 0 <= b && 0 <= a <= SCALE;
            crate::vec3::tdiv_bound_by_factor(a as int * b, SCALE as int, b as int);
        }
    }
    crate::math::div_toward_zero_wide((a as i128) * (b as i128), SCALE as i128) as i64
}

/// Direct lighting at the hit `data`, summed over the scene's lights.
/// With shadows off this is exactly `direct_color_spec` scaled to the
/// 0-255 range; with stochastic shadows every channel is bounded the same
/// way and never negative.
pub fn color<M: Material, O: Intersectable<M>>(scene: &Scene<O>, data: &IntersectData<M>,
    shadows: ShadowMode) -> (c: Vec3)
    requires
        scene.wf(),
        data.wf(),
    ensures
        shadows is Off ==> c == scale255(direct_color_spec(scene.lights@, *data)),
        shadows is Stochastic ==> exists|factors: Seq<int>| {
            &&& factors.len() == scene.lights@.len()
            &&& forall|i: int| 0 <= i < factors.len()
                ==> #[trigger] is_trial_mean::<M, O>(scene.objects@,
                    offset_spec(data.pos, data.normal),
                    light_position(scene.lights@[i]), factors[i])
            &&& c == scale255(direct_color_with(scene.lights@, *data, factors))
        },
        0 <= c.x <= COLOR_LIMIT,
        0 <= c.y <= COLOR_LIMIT,
        0 <= c.z <= COLOR_LIMIT,
{
    let mut acc = Vec3 { x: 0, y: 0, z: 0 };
    let mut i: usize = 0;
    let ghost mut factors: Seq<int> = Seq::empty();
    proof {
        assert(scene.lights@.take(0) =~= Seq::<Light>::empty());
    }
    while i < scene.lights.len()
        invariant
            i <= scene.lights@.len(),
            scene.wf(),
            data.wf(),
            shadows is Off ==> acc == direct_color_spec(scene.lights@.take(i as int), *data),
            factors.len() == i,
            shadows is Stochastic ==> forall|j: int| 0 <= j < factors.len()
                ==> #[trigger] is_trial_mean::<M, O>(scene.objects@,
                    offset_spec(data.pos, data.normal),
                    light_position(scene.lights@[j]), factors[j]),
            shadows is Stochastic ==> acc == direct_color_with(
                scene.lights@.take(i as int), *data, factors),
            0 <= acc.x <= i * 3 * SCALE,
            0 <= acc.y <= i * 3 * SCALE,
            0 <= acc.z <= i * 3 * SCALE,
        decreases scene.lights@.len() - i,
    {
        let l = scene.lights[i];
        match l {
            Light::PointLight(v, lc) => {
                let ldir = v.sub(data.pos).normalize();
                let n = data.normal.normalize();
                let d = ldir.dot(n);
                proof {
                    crate::vec3::mul_abs_bound2(ldir.x as int, SCALE as int, n.x as int,
                        SCALE as int);
                    crate::vec3::mul_abs_bound2(ldir.y as int, SCALE as int, n.y as int,
                        SCALE as int);
                    crate::vec3::mul_abs_bound2(ldir.z as int, SCALE as int, n.z as int,
                        SCALE as int);
                }
                proof {
                    crate::vec3::tdiv_bound_by_factor(d as int, SCALE as int,
                        3 * SCALE as int);
                }
                let force0 = crate::math::div_toward_zero_wide(d, SCALE as i128) as i64;
                let force = if force0 < 0 { 0 } else { force0 };
                let shadow = match shadows {
                    ShadowMode::Off => SCALE,
                    ShadowMode::Stochastic => {
                        let origin = offset_point(data.pos, data.normal);
                        aliased_soft_shadow(&scene.objects, origin, &v)
                    },
                };
                let mat = data.material.get_color(data);
                let tx = fp_mul_exec(fp_mul_exec(fp_mul_exec(mat.x, lc.x), shadow), force);
                let ty = fp_mul_exec(fp_mul_exec(fp_mul_exec(mat.y, lc.y), shadow), force);
                let tz = fp_mul_exec(fp_mul_exec(fp_mul_exec(mat.z, lc.z), shadow), force);
                proof {
                    let ghost prev_factors = factors;
                    factors = factors.push(shadow as int);
                    assert(factors.drop_last() =~= prev_factors);
                    assert(factors.last() == shadow as int);
                    assert(scene.lights@.take(i as int + 1).drop_last()
                        =~= scene.lights@.take(i as int));
                    assert(scene.lights@.take(i as int + 1).last() == scene.lights@[i as int]);
                    assert(tx <= 3 * SCALE && ty <= 3 * SCALE && tz <= 3 * SCALE) by {
                        assert(abs_spec(fp_mul(fp_mul(mat.x as int, lc.x as int),
                            shadow as int) * force) <= SCALE * (3 * SCALE)
                            && abs_spec(fp_mul(fp_mul(mat.y as int, lc.y as int),
                            shadow as int) * force) <= SCALE * (3 * SCALE)
                            && abs_spec(fp_mul(fp_mul(mat.z as int, lc.z as int),
                            shadow as int) * force) <= SCALE * (3 * SCALE))
                            by (nonlinear_arith)
                            requires
                                0 <= fp_mul(fp_mul(mat.x as int, lc.x as int),
                                    shadow as int) <= SCALE,
                                0 <= fp_mul(fp_mul(mat.y as int, lc.y as int),
                                    shadow as int) <= SCALE,
                                0 <= fp_mul(fp_mul(mat.z as int, lc.z as int),
                                    shadow as int) <= SCALE,
                                0 <= force <= 3 * SCALE;
                        crate::vec3::tdiv_bound_by_factor(
                            fp_mul(fp_mul(mat.x as int, lc.x as int), shadow as int) * force,
                            SCALE as int, 3 * SCALE as int);
                        crate::vec3::tdiv_bound_by_factor(
                            fp_mul(fp_mul(mat.y as int, lc.y as int), shadow as int) * force,
                            SCALE as int, 3 * SCALE as int);
                        crate::vec3::tdiv_bound_by_factor(
                            fp_mul(fp_mul(mat.z as int, lc.z as int), shadow as int) * force,
                            SCALE as int, 3 * SCALE as int);
                    }
                }
                acc = Vec3 { x: acc.x + tx, y: acc.y + ty, z: acc.z + tz };
            },
        }
        i = i + 1;
    }
    proof {
        assert(scene.lights@.take(scene.lights@.len() as int) =~= scene.lights@);
    }
    Vec3 { x: acc.x * 255, y: acc.y * 255, z: acc.z * 255 }
}

/// The channel bound of a shading result started at `depth`.
pub open spec fn shade_bound(depth: int) -> int {
    (MAX_DEPTH - depth + 1) * COLOR_LIMIT
}

/// What shading computes with shadows at full visibility: the direct
/// color of the nearest hit, plus the reflected color scaled by the hit
/// material's reflectance, recursively to the depth cap.
pub open spec fn shade_spec<M: Material, O: Intersectable<M>>(objects: Seq<O>,
    lights: Seq<Light>, r: Ray, depth: i64) -> Vec3
    decreases MAX_DEPTH - depth,
{
    match list_hit::<M, O>(objects, r) {
        None => Vec3 { x: 0, y: 0, z: 0 },
        Some((d, data)) => {
            let col = scale255(direct_color_spec(lights, data));
            if depth < MAX_DEPTH {
                let refl = Ray {
                    pos: offset_spec(data.pos, data.normal),
                    dir: reflect_dir_spec(r.dir, data.normal),
                };
                let rc = shade_spec::<M, O>(objects, lights, refl, (depth + 1) as i64);
                let k = data.material.spec_reflect();
                Vec3 {
                    x: (col.x + fp_mul(rc.x as int, k as int)) as i64,
                    y: (col.y + fp_mul(rc.y as int, k as int)) as i64,
                    z: (col.z + fp_mul(rc.z as int, k as int)) as i64,
                }
            } else {
                col
            }
        },
    }
}

/// Shade a ray against the scene: resolve the nearest hit, light it, and
/// recurse through the mirror reflection while `depth` is below the cap.
pub fn shade<M: Material, O: Intersectable<M>>(scene: &Scene<O>, ray: Ray, depth: i64,
    shadows: ShadowMode) -> (c: Vec3)
    requires
        scene.wf(),
        ray.pos.wf(),
        ray.dir.bounded(DIR_UNIT_LIMIT as int),
        0 <= depth <= MAX_DEPTH,
    ensures
        shadows is Off ==> c == shade_spec::<M, O>(scene.objects@, scene.lights@, ray, depth),
        0 <= c.x <= shade_bound(depth as int),
        0 <= c.y <= shade_bound(depth as int),
        0 <= c.z <= shade_bound(depth as int),
    decreases MAX_DEPTH - depth,
{
    match scene.objects.intersect(ray) {
        None => Vec3 { x: 0, y: 0, z: 0 },
        Some((d, data)) => {
            let col = color(scene, &data, shadows);
            if depth < MAX_DEPTH {
                let refl = ray.reflect(offset_point(data.pos, data.normal), data.normal);
                let rc = shade(scene, refl, depth + 1, shadows);
                let k = data.material.get_reflect();
                proof {
                    crate::vec3::mul_abs_bound2(rc.x as int, 4 * COLOR_LIMIT as int, k as int,
                        SCALE as int);
                    crate::vec3::mul_abs_bound2(rc.y as int, 4 * COLOR_LIMIT as int, k as int,
                        SCALE as int);
                    crate::vec3::mul_abs_bound2(rc.z as int, 4 * COLOR_LIMIT as int, k as int,
                        SCALE as int);
                    assert(abs_spec(rc.x as int * k) <= SCALE * shade_bound(depth as int + 1)
                        && abs_spec(rc.y as int * k) <= SCALE * shade_bound(depth as int + 1)
                        && abs_spec(rc.z as int * k) <= SCALE * shade_bound(depth as int + 1))
                        by (nonlinear_arith)
                        requires
                            0 <= rc.x <= shade_bound(depth as int + 1),
                            0 <= rc.y <= shade_bound(depth as int + 1),
                            0 <= rc.z <= shade_bound(depth as int + 1),
                            0 <= k <= SCALE,
                            0 < SCALE;
                    crate::vec3::tdiv_bound_by_factor(rc.x as int * k, SCALE as int,
                        shade_bound(depth as int + 1));
                    crate::vec3::tdiv_bound_by_factor(rc.y as int * k, SCALE as int,
                        shade_bound(depth as int + 1));
                    crate::vec3::tdiv_bound_by_factor(rc.z as int * k, SCALE as int,
                        shade_bound(depth as int + 1));
                }
                let sx = crate::math::div_toward_zero_wide((rc.x as i128) * (k as i128),
                    SCALE as i128) as i64;
                let sy = crate::math::div_toward_zero_wide((rc.y as i128) * (k as i128),
                    SCALE as i128) as i64;
                let sz = crate::math::div_toward_zero_wide((rc.z as i128) * (k as i128),
                    SCALE as i128) as i64;
                Vec3 { x: col.x + sx, y: col.y + sy, z: col.z + sz }
            } else {
                col
            }
        },
    }
}

/// At the depth cap, shading returns the direct lighting of the nearest
/// hit alone: the reflection recursion has stopped.
pub proof fn lemma_shade_depth_cap<M: Material, O: Intersectable<M>>(objects: Seq<O>,
    lights: Seq<Light>, r: Ray)
    ensures
        shade_spec::<M, O>(objects, lights, r, MAX_DEPTH) == match list_hit::<M, O>(
            objects, r) {
            None => Vec3 { x: 0, y: 0, z: 0 },
            Some((d, data)) => scale255(direct_color_spec(lights, data)),
        },
    {
}

} // verus!
