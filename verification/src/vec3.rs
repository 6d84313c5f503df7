//! Three-component fixed-point vectors: the coordinate type of every ray,
//! bounding volume, surface normal and color in the crate.

use vstd::prelude::*;
use crate::math::{COORD_LIMIT, SCALE, abs_spec, tdiv, isqrt_spec};

verus! {

/// A 3D vector of fixed-point coordinates (`SCALE` units per world unit).
#[derive(Clone, Copy, Debug, PartialEq, Eq, Structural)]
pub struct Vec3 {
    pub x: i64,
    pub y: i64,
    pub z: i64,
}

impl Vec3 {
    /// Every component has magnitude at most `b`.
    pub open spec fn bounded(self, b: int) -> bool {
        &&& abs_spec(self.x as int) <= b
        &&& abs_spec(self.y as int) <= b
        &&& abs_spec(self.z as int) <= b
    }

    /// A well-formed world-space vector.
    pub open spec fn wf(self) -> bool {
        self.bounded(COORD_LIMIT as int)
    }

    /// Componentwise difference, as a value (exact when the components fit).
    pub open spec fn sub_spec(self, o: Vec3) -> Vec3 {
        Vec3 { x: (self.x - o.x) as i64, y: (self.y - o.y) as i64, z: (self.z - o.z) as i64 }
    }

    /// Componentwise difference.
    pub fn sub(self, o: Vec3) -> (v: Vec3)
        requires
            self.bounded(0x2000_0000_0000_0000),
            o.bounded(0x2000_0000_0000_0000),
        ensures
            v == self.sub_spec(o),
            v.x == self.x - o.x,
            v.y == self.y - o.y,
            v.z == self.z - o.z,
    {
        Vec3 { x: self.x - o.x, y: self.y - o.y, z: self.z - o.z }
    }

    /// The dot product of two vectors, as a mathematical integer.
    pub open spec fn spec_dot(self, o: Vec3) -> int {
        self.x * o.x + self.y * o.y + self.z * o.z
    }

    /// The dot product, computed exactly in wide arithmetic.
    pub fn dot(self, o: Vec3) -> (r: i128)
        requires
            self.bounded(0x1_0000_0000_0000),
            o.bounded(0x1_0000_0000_0000),
        ensures
            r == self.spec_dot(o),
            abs_spec(r as int) <= 0x3_0000_0000_0000_0000_0000_0000,
    {
        proof {
            mul_abs_bound(self.x as int, o.x as int, 0x1_0000_0000_0000);
            mul_abs_bound(self.y as int, o.y as int, 0x1_0000_0000_0000);
            mul_abs_bound(self.z as int, o.z as int, 0x1_0000_0000_0000);
        }
        (self.x as i128) * (o.x as i128) + (self.y as i128) * (o.y as i128)
            + (self.z as i128) * (o.z as i128)
    }

    /// The squared Euclidean norm, as a mathematical integer.
    pub open spec fn spec_norm2(self) -> int {
        self.spec_dot(self)
    }


    /// The squared Euclidean norm, computed exactly in wide arithmetic.
    pub fn norm2(self) -> (r: i128)
        requires
            self.bounded(0x1_0000_0000_0000),
        ensures
            r == self.spec_norm2(),
            r >= 0,
    {
        proof {
            square_nonneg(self.x as int);
            square_nonneg(self.y as int);
            square_nonneg(self.z as int);
        }
        self.dot(self)
    }
    /// The cross product of two vectors.
    pub open spec fn spec_cross(self, o: Vec3) -> Vec3 {
        Vec3 {
            x: (self.y * o.z - self.z * o.y) as i64,
            y: (self.z * o.x - self.x * o.z) as i64,
            z: (self.x * o.y - self.y * o.x) as i64,
        }
    }

    /// The cross product, exact for bounded inputs.
    pub fn cross(self, o: Vec3) -> (r: Vec3)
        requires
            self.bounded(0x4000_0000),
            o.bounded(0x4000_0000),
        ensures
            r == self.spec_cross(o),
            r.x == self.y * o.z - self.z * o.y,
            r.y == self.z * o.x - self.x * o.z,
            r.z == self.x * o.y - self.y * o.x,
    {
        proof {
            mul_abs_bound(self.y as int, o.z as int, 0x4000_0000);
            mul_abs_bound(self.z as int, o.y as int, 0x4000_0000);
            mul_abs_bound(self.z as int, o.x as int, 0x4000_0000);
            mul_abs_bound(self.x as int, o.z as int, 0x4000_0000);
            mul_abs_bound(self.x as int, o.y as int, 0x4000_0000);
            mul_abs_bound(self.y as int, o.x as int, 0x4000_0000);
        }
        Vec3 {
            x: self.y * o.z - self.z * o.y,
            y: self.z * o.x - self.x * o.z,
            z: self.x * o.y - self.y * o.x,
        }
    }

    /// `v` scaled to fixed-point unit length: each component becomes
    /// `c * SCALE / sqrt(|v|^2)`, rounded toward zero.  The zero vector
    /// stays zero.
    pub open spec fn normalize_spec(self) -> Vec3 {
        if self.spec_norm2() == 0 {
            self
        } else {
            let s = isqrt_spec(self.spec_norm2());
            Vec3 {
                x: tdiv(self.x * SCALE, s) as i64,
                y: tdiv(self.y * SCALE, s) as i64,
                z: tdiv(self.z * SCALE, s) as i64,
            }
        }
    }

    /// Normalize to fixed-point unit length.
    pub fn normalize(self) -> (r: Vec3)
        requires
            self.bounded(0x1_0000_0000_0000),
        ensures
            r == self.normalize_spec(),
            r.bounded(SCALE as int),
    {
        let n2 = self.norm2();
        if n2 == 0 {
            proof {
                assert(self.x == 0 && self.y == 0 && self.z == 0) by (nonlinear_arith)
                    requires
                        self.x * self.x + self.y * self.y + self.z * self.z == 0;
            }
            self
        } else {
            let s = crate::math::isqrt(n2 as u128);
            proof {
                assert(s >= 1) by (nonlinear_arith)
                    requires s >= 0 && (s + 1) * (s + 1) > n2 && n2 >= 1;
                assert(abs_spec(self.x as int) <= s && abs_spec(self.y as int) <= s
                    && abs_spec(self.z as int) <= s) by (nonlinear_arith)
                    requires
                        self.x * self.x + self.y * self.y + self.z * self.z == n2,
                        (s + 1) * (s + 1) > n2,
                        s >= 0;
                mul_abs_bound2(self.x as int, 0x1_0000_0000_0000, SCALE as int, SCALE as int);
                mul_abs_bound2(self.y as int, 0x1_0000_0000_0000, SCALE as int, SCALE as int);
                mul_abs_bound2(self.z as int, 0x1_0000_0000_0000, SCALE as int, SCALE as int);
                mul_abs_bound2(self.x as int, s as int, SCALE as int, SCALE as int);
                mul_abs_bound2(self.y as int, s as int, SCALE as int, SCALE as int);
                mul_abs_bound2(self.z as int, s as int, SCALE as int, SCALE as int);
            }
            let qx = crate::math::div_toward_zero_wide((self.x as i128) * (SCALE as i128),
                s as i128);
            let qy = crate::math::div_toward_zero_wide((self.y as i128) * (SCALE as i128),
                s as i128);
            let qz = crate::math::div_toward_zero_wide((self.z as i128) * (SCALE as i128),
                s as i128);
            proof {
                tdiv_bound_by_factor(self.x as int * SCALE, s as int, SCALE as int);
                tdiv_bound_by_factor(self.y as int * SCALE, s as int, SCALE as int);
                tdiv_bound_by_factor(self.z as int * SCALE, s as int, SCALE as int);
            }
            Vec3 { x: qx as i64, y: qy as i64, z: qz as i64 }
        }
    }
}

/// If `|a| <= s * b` with positive `s`, the truncated quotient `a / s` has
/// magnitude at most `b`.
pub proof fn tdiv_bound_by_factor(a: int, s: int, b: int)
    requires
        s > 0,
        b >= 0,
        abs_spec(a) <= s * b,
    ensures
        abs_spec(tdiv(a, s)) <= b,
    {
    assert(abs_spec(tdiv(a, s)) <= b) by (nonlinear_arith)
        requires s > 0 && b >= 0 && abs_spec(a) <= s * b;
}

/// The product of two integers each bounded by `b` is bounded by `b * b`.
pub proof fn mul_abs_bound(a: int, c: int, b: int)
    requires
        abs_spec(a) <= b,
        abs_spec(c) <= b,
    ensures
        abs_spec(a * c) <= b * b,
    {
    assert(abs_spec(a * c) <= b * b) by (nonlinear_arith)
        requires abs_spec(a) <= b && abs_spec(c) <= b;
}

/// The product of integers bounded by `ba` and `bc` is bounded by `ba * bc`.
pub proof fn mul_abs_bound2(a: int, ba: int, c: int, bc: int)
    requires
        abs_spec(a) <= ba,
        abs_spec(c) <= bc,
    ensures
        abs_spec(a * c) <= ba * bc,
    {
    assert(abs_spec(a * c) <= ba * bc) by (nonlinear_arith)
        requires abs_spec(a) <= ba && abs_spec(c) <= bc;
}

/// A square is never negative.
pub proof fn square_nonneg(a: int)
    ensures
        a * a >= 0,
    {
    assert(a * a >= 0) by (nonlinear_arith);
}

} // verus!
