//! Fixed-point scale, coordinate bounds, and the small integer helpers
//! (truncating division, clamping, integer square root) that the geometry
//! and shading code build on.

use vstd::prelude::*;

verus! {

/// Number of fixed-point units per world unit.
pub const SCALE: i64 = 1024;

/// Bound on the magnitude of any world-space coordinate.
pub const COORD_LIMIT: i64 = 1073741824;

/// Bound on the magnitude of any ray-direction component.
pub const DIR_LIMIT: i64 = 2147483648;

/// Bound on the direction components of rays that shading reflects:
/// camera rays and their bounces stay near fixed-point unit length.
pub const DIR_UNIT_LIMIT: i64 = 1048576;

/// Truncating division (rounding toward zero), for a positive divisor.
pub open spec fn tdiv(a: int, b: int) -> int {
    if a >= 0 {
        a / b
    } else {
        -((-a) / b)
    }
}

/// Clamp `x` into the interval `[lo, hi]`.
pub open spec fn clamp_spec(x: int, lo: int, hi: int) -> int {
    if x < lo {
        lo
    } else if x > hi {
        hi
    } else {
        x
    }
}

/// Division of an `i64` by a positive divisor, rounding toward zero as Rust does.
pub fn div_toward_zero(a: i64, b: i64) -> (r: i64)
    requires
        b > 0,
        a > i64::MIN,
    ensures
        r == tdiv(a as int, b as int),
        a >= 0 ==> r >= 0,
        a <= 0 ==> r <= 0,
        -abs_spec(a as int) <= r <= abs_spec(a as int),
{
    if a >= 0 {
        let q: u64 = (a as u64) / (b as u64);
        proof {
            assert(q == a as int / b as int);
            assert(a as int / b as int <= a as int) by (nonlinear_arith)
                requires a >= 0 && b > 0;
            assert(a as int / b as int >= 0) by (nonlinear_arith)
                requires a >= 0 && b > 0;
        }
        q as i64
    } else {
        let m: i64 = -a;
        let q: u64 = (m as u64) / (b as u64);
        proof {
            assert(q == m as int / b as int);
            assert(m as int / b as int <= m as int) by (nonlinear_arith)
                requires m >= 0 && b > 0;
            assert(m as int / b as int >= 0) by (nonlinear_arith)
                requires m >= 0 && b > 0;
        }
        -(q as i64)
    }
}

/// Division of an `i128` by a positive divisor, rounding toward zero.
pub fn div_toward_zero_wide(a: i128, b: i128) -> (r: i128)
    requires
        b > 0,
        a > i128::MIN,
    ensures
        r == tdiv(a as int, b as int),
        a >= 0 ==> r >= 0,
        a <= 0 ==> r <= 0,
        -abs_spec(a as int) <= r <= abs_spec(a as int),
{
    if a >= 0 {
        let q: u128 = (a as u128) / (b as u128);
        proof {
            assert(q == a as int / b as int);
            assert(a as int / b as int <= a as int) by (nonlinear_arith)
                requires a >= 0 && b > 0;
            assert(a as int / b as int >= 0) by (nonlinear_arith)
                requires a >= 0 && b > 0;
        }
        q as i128
    } else {
        let m: i128 = -a;
        let q: u128 = (m as u128) / (b as u128);
        proof {
            assert(q == m as int / b as int);
            assert(m as int / b as int <= m as int) by (nonlinear_arith)
                requires m >= 0 && b > 0;
            assert(m as int / b as int >= 0) by (nonlinear_arith)
                requires m >= 0 && b > 0;
        }
        -(q as i128)
    }
}

/// Magnitude of an integer.
pub open spec fn abs_spec(x: int) -> int {
    if x >= 0 {
        x
    } else {
        -x
    }
}

/// Clamp an `i128` into an `i64` interval.
pub fn clamp_wide(x: i128, lo: i64, hi: i64) -> (r: i64)
    requires
        lo <= hi,
    ensures
        r == clamp_spec(x as int, lo as int, hi as int),
{
    if x < lo as i128 {
        lo
    } else if x > hi as i128 {
        hi
    } else {
        x as i64
    }
}

/// The integer square root of a non-negative integer: the greatest `r`
/// with `r * r <= n`.
pub open spec fn isqrt_spec(n: int) -> int {
    choose|r: int| r >= 0 && #[trigger] (r * r) <= n && (r + 1) * (r + 1) > n
}

/// The integer square root is unique: any witness is the one `isqrt_spec`
/// denotes.
pub proof fn isqrt_unique(n: int, r: int)
    requires
        r >= 0,
        r * r <= n,
        (r + 1) * (r + 1) > n,
    ensures
        isqrt_spec(n) == r,
    {
    assert(r >= 0 && r * r <= n && (r + 1) * (r + 1) > n);
    let q = isqrt_spec(n);
    assert(q >= 0 && q * q <= n && (q + 1) * (q + 1) > n) by {
        assert(exists|k: int| k >= 0 && #[trigger] (k * k) <= n && (k + 1) * (k + 1) > n) by {
            assert(r >= 0 && r * r <= n && (r + 1) * (r + 1) > n);
        }
    }
    assert(q == r) by (nonlinear_arith)
        requires
            q >= 0 && r >= 0,
            q * q <= n && (q + 1) * (q + 1) > n,
            r * r <= n && (r + 1) * (r + 1) > n;
}

/// The integer square root: the greatest `r` with `r * r <= n`.
pub fn isqrt(n: u128) -> (r: u128)
    ensures
        r * r <= n,
        (r + 1) * (r + 1) > n,
        r < 0x1_0000_0000_0000_0000,
        r == isqrt_spec(n as int),
{
    let mut lo: u128 = 0;
    let mut hi: u128 = 0xffff_ffff_ffff_ffff;
    proof {
        assert((hi + 1) * (hi + 1) > n) by (nonlinear_arith)
            requires hi == 0xffff_ffff_ffff_ffffu128 && n <= u128::MAX;
    }
    while lo < hi
        invariant
            lo <= hi <= 0xffff_ffff_ffff_ffff,
            lo * lo <= n,
            (hi + 1) * (hi + 1) > n,
        decreases hi - lo,
    {
        let mid: u128 = lo + (hi - lo + 1) / 2;
        proof {
            assert(mid * mid <= u128::MAX) by (nonlinear_arith)
                requires mid <= 0xffff_ffff_ffff_ffffu128;
        }
        if mid * mid <= n {
            lo = mid;
        } else {
            hi = mid - 1;
        }
    }
    proof {
        isqrt_unique(n as int, lo as int);
    }
    lo
}

} // verus!
