//! The tile renderer's verified core: the chunked claim of the shared
//! pixel counter, rendering one claimed sub-range of pixels into bytes,
//! and assembling the workers' chunks into the full framebuffer.
//!
//! The workers themselves (threads, the mutex around the counter) live
//! outside the library; they only call these functions.

use vstd::prelude::*;
use crate::math::{SCALE, tdiv, clamp_spec};
use crate::vec3::Vec3;
use crate::ray::Ray;
use crate::camera::spec_ray_dir;
use crate::material::Material;
use crate::intersect::Intersectable;
use crate::scene::Scene;
use crate::shade::{shade, shade_spec, ShadowMode};

verus! {

/// Pixels claimed per advance of the shared counter.
pub const CHUNK_SIZE: usize = 5000;

/// Fixed worker count of the parallel renderer.
pub const WORKERS_COUNT: usize = 4;

/// One atomic claim of the shared counter: advance it by a chunk, and
/// return the claimed pixel sub-range, or nothing once the counter has
/// passed the image bound.
pub fn next_chunk(passed: usize, total: usize) -> (res: (usize, Option<(usize, usize)>))
    requires
        passed <= usize::MAX - CHUNK_SIZE,
    ensures
        res.0 == passed + CHUNK_SIZE,
        res.1 == if passed < total {
            Some((passed, if passed + CHUNK_SIZE < total {
                (passed + CHUNK_SIZE) as usize
            } else {
                total
            }))
        } else {
            None::<(usize, usize)>
        },
{
    let new_passed = passed + CHUNK_SIZE;
    if passed < total {
        let end = if new_passed < total {
            new_passed
        } else {
            total
        };
        (new_passed, Some((passed, end)))
    } else {
        (new_passed, None)
    }
}

/// Pixel `p` lies in the chunk numbered `k`.
pub open spec fn in_chunk(k: int, p: int) -> bool {
    (CHUNK_SIZE as int) * k <= p < (CHUNK_SIZE as int) * k + (CHUNK_SIZE as int)
}

/// Every pixel index lies in the chunk numbered by its quotient, and in
/// no other: successive claims of `next_chunk` cover the image exactly
/// once.
pub proof fn lemma_chunks_partition(total: int)
    ensures
        forall|p: int| 0 <= p < total ==> in_chunk(#[trigger] (p / (CHUNK_SIZE as int)), p),
        forall|k: int, p: int| 0 <= p && 0 <= k && #[trigger] in_chunk(k, p)
            ==> k == p / (CHUNK_SIZE as int),
    {
    assert forall|p: int| 0 <= p < total
        implies in_chunk(#[trigger] (p / (CHUNK_SIZE as int)), p) by {
        assert((CHUNK_SIZE as int) * (p / (CHUNK_SIZE as int)) <= p
            < (CHUNK_SIZE as int) * (p / (CHUNK_SIZE as int)) + (CHUNK_SIZE as int))
            by (nonlinear_arith)
            requires p >= 0;
    }
    assert forall|k: int, p: int| 0 <= p && 0 <= k && #[trigger] in_chunk(k, p)
        implies k == p / (CHUNK_SIZE as int) by {
        assert(k == p / (CHUNK_SIZE as int)) by (nonlinear_arith)
            requires
                0 <= p && 0 <= k,
                (CHUNK_SIZE as int) * k <= p < (CHUNK_SIZE as int) * k + (CHUNK_SIZE as int);
    }
}

/// The color shading computes for the flat pixel index `pos`, at full
/// shadow visibility.
pub open spec fn pixel_spec<M: Material, O: Intersectable<M>>(scene: Scene<O>,
    pos: int) -> Vec3 {
    let w = scene.cam.w as int;
    let ray = Ray {
        pos: scene.cam.pos,
        dir: spec_ray_dir(scene.cam, (pos % w) as i64, (pos / w) as i64),
    };
    shade_spec::<M, O>(scene.objects@, scene.lights@, ray, 0)
}

/// An accumulated channel narrowed to its 8-bit output value.
pub open spec fn byte_of(c: i64) -> u8 {
    clamp_spec(tdiv(c as int, SCALE as int), 0, 255) as u8
}

/// Render the claimed pixel range `[start, end)` into packed RGB bytes.
/// With shadows off, every byte is pinned by `pixel_spec`.
pub fn render_part<M: Material, O: Intersectable<M>>(scene: &Scene<O>, start: usize,
    end: usize, shadows: ShadowMode) -> (v: Vec<u8>)
    requires
        scene.wf(),
        scene.cam.w >= 1,
        start <= end,
        end <= scene.cam.w * scene.cam.h,
    ensures
        v@.len() == 3 * (end - start),
        shadows is Off ==> forall|i: int| 0 <= i < end - start ==> {
            let c = #[trigger] pixel_spec::<M, O>(*scene, start + i);
            &&& v@[3 * i] == byte_of(c.x)
            &&& v@[3 * i + 1] == byte_of(c.y)
            &&& v@[3 * i + 2] == byte_of(c.z)
        },
{
    let w: usize = scene.cam.w as usize;
    let mut v: Vec<u8> = Vec::new();
    let mut pos: usize = start;
    while pos < end
        invariant
            start <= pos <= end,
            scene.wf(),
            scene.cam.w >= 1,
            w == scene.cam.w as usize,
            end <= scene.cam.w * scene.cam.h,
            v@.len() == 3 * (pos - start),
            shadows is Off ==> forall|i: int| 0 <= i < pos - start ==> {
                let c = #[trigger] pixel_spec::<M, O>(*scene, start + i);
                &&& v@[3 * i] == byte_of(c.x)
                &&& v@[3 * i + 1] == byte_of(c.y)
                &&& v@[3 * i + 2] == byte_of(c.z)
            },
        decreases end - pos,
    {
        let x = pos % w;
        let y = pos / w;
        proof {
            assert(y < scene.cam.h && x < w) by (nonlinear_arith)
                requires
                    w >= 1,
                    pos < scene.cam.w * scene.cam.h,
                    w == scene.cam.w,
                    x == pos as int % w as int,
                    y == pos as int / w as int,
                    scene.cam.h >= 0;
        }
        let ray = scene.cam.get_ray(x as i64, y as i64);
        let c = shade(scene, ray, 0, shadows);
        let bx = channel_byte(c.x);
        let by = channel_byte(c.y);
        let bz = channel_byte(c.z);
        v.push(bx);
        v.push(by);
        v.push(bz);
        pos = pos + 1;
    }
    v
}

/// Narrow one accumulated channel to its 8-bit output value.
fn channel_byte(c: i64) -> (b: u8)
    requires
        c > i64::MIN,
    ensures
        b == byte_of(c),
{
    let q = crate::math::div_toward_zero(c, SCALE);
    if q < 0 {
        0
    } else if q > 255 {
        255
    } else {
        q as u8
    }
}

/// Byte `i` of the framebuffer falls inside some part's chunk.
pub open spec fn covered(parts: Seq<(usize, Vec<u8>)>, i: int) -> bool {
    exists|p: int| 0 <= p < parts.len()
        && (#[trigger] parts[p]).0 * 3 <= i < parts[p].0 * 3 + parts[p].1@.len()
}

/// Copy every worker's `(chunk_start, bytes)` pairs into one framebuffer
/// of `total * 3` bytes.  The chunks must stay inside the buffer and not
/// overlap; every chunk byte lands at its pixel offset.
pub fn assemble(parts: &Vec<(usize, Vec<u8>)>, total: usize) -> (buf: Vec<u8>)
    requires
        total * 3 <= usize::MAX,
        forall|p: int| 0 <= p < parts@.len()
            ==> (#[trigger] parts@[p]).0 * 3 + parts@[p].1@.len() <= total * 3,
        forall|p1: int, p2: int| 0 <= p1 < p2 < parts@.len()
            ==> (#[trigger] parts@[p1]).0 * 3 + parts@[p1].1@.len()
                    <= (#[trigger] parts@[p2]).0 * 3
                || parts@[p2].0 * 3 + parts@[p2].1@.len() <= parts@[p1].0 * 3,
    ensures
        buf@.len() == total * 3,
        forall|p: int, j: int| 0 <= p < parts@.len() && 0 <= j < parts@[p].1@.len()
            ==> buf@[parts@[p].0 * 3 + j] == #[trigger] parts@[p].1@[j],
        forall|i: int| 0 <= i < total * 3 && !covered(parts@, i) ==> buf@[i] == 0,
{
    let mut buf: Vec<u8> = Vec::new();
    let n = total * 3;
    let mut i: usize = 0;
    while i < n
        invariant
            buf@.len() == i,
            i <= n,
            forall|k: int| 0 <= k < i ==> buf@[k] == 0,
        decreases n - i,
    {
        buf.push(0u8);
        i = i + 1;
    }
    let mut p: usize = 0;
    while p < parts.len()
        invariant
            p <= parts@.len(),
            total * 3 <= usize::MAX,
            buf@.len() == total * 3,
            forall|q: int| 0 <= q < parts@.len()
                ==> (#[trigger] parts@[q]).0 * 3 + parts@[q].1@.len() <= total * 3,
            forall|p1: int, p2: int| 0 <= p1 < p2 < parts@.len()
                ==> (#[trigger] parts@[p1]).0 * 3 + parts@[p1].1@.len()
                        <= (#[trigger] parts@[p2]).0 * 3
                    || parts@[p2].0 * 3 + parts@[p2].1@.len() <= parts@[p1].0 * 3,
            forall|q: int, j: int| 0 <= q < p && 0 <= j < parts@[q].1@.len()
                ==> buf@[parts@[q].0 * 3 + j] == #[trigger] parts@[q].1@[j],
            forall|i: int| 0 <= i < total * 3 && !covered(parts@, i) ==> buf@[i] == 0,
        decreases parts@.len() - p,
    {
        proof {
            assert(parts@[p as int].0 * 3 + parts@[p as int].1@.len() <= total * 3);
        }
        let start3 = parts[p].0 * 3;
        let len = parts[p].1.len();
        let mut j: usize = 0;
        while j < len
            invariant
                j <= len,
                p < parts@.len(),
                total * 3 <= usize::MAX,
                len == parts@[p as int].1@.len(),
                start3 == parts@[p as int].0 * 3,
                start3 + len <= total * 3,
                buf@.len() == total * 3,
                forall|q: int| 0 <= q < parts@.len()
                    ==> (#[trigger] parts@[q]).0 * 3 + parts@[q].1@.len() <= total * 3,
                forall|q: int, jj: int| 0 <= q < p && 0 <= jj < parts@[q].1@.len()
                    ==> buf@[parts@[q].0 * 3 + jj] == #[trigger] parts@[q].1@[jj],
                forall|p1: int, p2: int| 0 <= p1 < p2 < parts@.len()
                    ==> (#[trigger] parts@[p1]).0 * 3 + parts@[p1].1@.len()
                            <= (#[trigger] parts@[p2]).0 * 3
                        || parts@[p2].0 * 3 + parts@[p2].1@.len() <= parts@[p1].0 * 3,
                forall|jj: int| 0 <= jj < j
                    ==> buf@[start3 + jj] == parts@[p as int].1@[jj],
                forall|i: int| 0 <= i < total * 3 && !covered(parts@, i) ==> buf@[i] == 0,
            decreases len - j,
        {
            let b = parts[p].1[j];
            buf[start3 + j] = b;
            proof {
                assert(covered(parts@, start3 + j));
                assert forall|q: int, jj: int| 0 <= q < p && 0 <= jj < parts@[q].1@.len()
                    implies buf@[parts@[q].0 * 3 + jj] == #[trigger] parts@[q].1@[jj] by {
                    assert(parts@[q].0 * 3 + parts@[q].1@.len() <= parts@[p as int].0 * 3
                        || parts@[p as int].0 * 3 + parts@[p as int].1@.len()
                            <= parts@[q].0 * 3);
                    assert(parts@[q].0 * 3 + jj != start3 + j);
                }
            }
            j = j + 1;
        }
        proof {
            assert forall|q: int, jj: int| 0 <= q < p + 1 && 0 <= jj < parts@[q].1@.len()
                implies buf@[parts@[q].0 * 3 + jj] == #[trigger] parts@[q].1@[jj] by {
                if q == p {
                    assert(buf@[start3 + jj] == parts@[p as int].1@[jj]);
                }
            }
        }
        p = p + 1;
    }
    buf
}

} // verus!
