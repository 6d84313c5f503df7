//! Axis-aligned bounding volumes: the ray-slab entry test, half-space
//! splits, overlap and containment tests, and componentwise bounds.
//!
//! The slab test is exact: the contract of `BBox::intersect` speaks about
//! every rational parameter `num / den` along the ray, so "no hit" really
//! means that no point of the ray with a non-negative parameter lies in
//! the box.

use vstd::prelude::*;
use crate::math::{COORD_LIMIT, DIR_LIMIT, abs_spec};
use crate::vec3::Vec3;
use crate::axis::Axis;
use crate::ray::Ray;
use crate::dist::Dist;

verus! {

/// An axis-aligned box between two corners.
#[derive(Clone, Copy, Debug, PartialEq, Eq, Structural)]
pub struct BBox {
    pub bmin: Vec3,
    pub bmax: Vec3,
}

/// The point at parameter `num / den` along the 1D ray `p + d * t` lies in
/// `[lo, hi]`; stated multiplied through by the positive denominator.
pub open spec fn axis_ok(lo: int, hi: int, p: int, d: int, num: int, den: int) -> bool {
    lo * den <= p * den + d * num <= hi * den
}

/// One axis's contribution to the slab test.
#[derive(Clone, Copy)]
enum SlabCase {
    /// The axis constrains nothing: the ray is parallel and inside the slab.
    Open,
    /// The ray is parallel to the slab and outside it: it can never enter.
    Blocked,
    /// The parameter must lie in `[near / den, far / den]`.
    Span(i64, i64, i64),
}

impl BBox {
    /// Corners within the coordinate range.
    pub open spec fn wf(self) -> bool {
        &&& self.bmin.wf()
        &&& self.bmax.wf()
    }

    /// A non-degenerate box: the corners are componentwise ordered.
    pub open spec fn proper(self) -> bool {
        &&& self.bmin.x <= self.bmax.x
        &&& self.bmin.y <= self.bmax.y
        &&& self.bmin.z <= self.bmax.z
    }

    /// The point at parameter `num / den` along `r` lies in this box.
    pub open spec fn at_in_box(self, r: Ray, num: int, den: int) -> bool {
        &&& axis_ok(self.bmin.x as int, self.bmax.x as int, r.pos.x as int, r.dir.x as int,
            num, den)
        &&& axis_ok(self.bmin.y as int, self.bmax.y as int, r.pos.y as int, r.dir.y as int,
            num, den)
        &&& axis_ok(self.bmin.z as int, self.bmax.z as int, r.pos.z as int, r.dir.z as int,
            num, den)
    }

    /// This box contains `v`.
    pub open spec fn spec_in_box(self, v: Vec3) -> bool {
        &&& self.bmin.x <= v.x <= self.bmax.x
        &&& self.bmin.y <= v.y <= self.bmax.y
        &&& self.bmin.z <= v.z <= self.bmax.z
    }

    /// The boxes share at least one point: separated on no axis.
    pub open spec fn spec_overlap(self, o: BBox) -> bool {
        &&& self.bmin.x <= o.bmax.x && o.bmin.x <= self.bmax.x
        &&& self.bmin.y <= o.bmax.y && o.bmin.y <= self.bmax.y
        &&& self.bmin.z <= o.bmax.z && o.bmin.z <= self.bmax.z
    }

    /// Every point of `o` lies in this box.
    pub open spec fn spec_contains_box(self, o: BBox) -> bool {
        &&& self.bmin.x <= o.bmin.x && o.bmax.x <= self.bmax.x
        &&& self.bmin.y <= o.bmin.y && o.bmax.y <= self.bmax.y
        &&& self.bmin.z <= o.bmin.z && o.bmax.z <= self.bmax.z
    }

    pub fn in_box(&self, v: Vec3) -> (r: bool)
        ensures
            r == self.spec_in_box(v),
    {
        v.x >= self.bmin.x && v.x <= self.bmax.x && v.y >= self.bmin.y && v.y <= self.bmax.y
            && v.z >= self.bmin.z && v.z <= self.bmax.z
    }

    pub fn overlap(&self, bbox: &BBox) -> (r: bool)
        ensures
            r == self.spec_overlap(*bbox),
    {
        if self.bmin.x > bbox.bmax.x {
            return false;
        }
        if self.bmax.x < bbox.bmin.x {
            return false;
        }
        if self.bmin.y > bbox.bmax.y {
            return false;
        }
        if self.bmax.y < bbox.bmin.y {
            return false;
        }
        if self.bmin.z > bbox.bmax.z {
            return false;
        }
        if self.bmax.z < bbox.bmin.z {
            return false;
        }
        true
    }

    /// The half of this box below `x` on `axis`.
    pub fn split_left(&self, x: i64, axis: Axis) -> (b: BBox)
        ensures
            b == (BBox { bmin: self.bmin, bmax: axis.spec_set(self.bmax, x) }),
    {
        BBox { bmin: self.bmin, bmax: axis.set(self.bmax, x) }
    }

    /// The half of this box above `x` on `axis`.
    pub fn split_right(&self, x: i64, axis: Axis) -> (b: BBox)
        ensures
            b == (BBox { bmin: axis.spec_set(self.bmin, x), bmax: self.bmax }),
    {
        BBox { bmin: axis.set(self.bmin, x), bmax: self.bmax }
    }

    /// Twice the surface area: `2 * (ab + bc + ca)` of the extents.
    pub open spec fn spec_square(self) -> int {
        let a = abs_spec(self.bmin.x - self.bmax.x);
        let b = abs_spec(self.bmin.y - self.bmax.y);
        let c = abs_spec(self.bmin.z - self.bmax.z);
        (a * b + b * c + a * c) * 2
    }

    pub fn square(&self) -> (r: i128)
        requires
            self.wf(),
        ensures
            r == self.spec_square(),
            r >= 0,
            r <= 0x8_0000_0000_0000_0000,
    {
        let ad: i128 = self.bmin.x as i128 - self.bmax.x as i128;
        let bd: i128 = self.bmin.y as i128 - self.bmax.y as i128;
        let cd: i128 = self.bmin.z as i128 - self.bmax.z as i128;
        let a: i128 = if ad >= 0 { ad } else { -ad };
        let b: i128 = if bd >= 0 { bd } else { -bd };
        let c: i128 = if cd >= 0 { cd } else { -cd };
        proof {
            crate::vec3::mul_abs_bound2(a as int, 0x1_0000_0000, b as int, 0x1_0000_0000);
            crate::vec3::mul_abs_bound2(b as int, 0x1_0000_0000, c as int, 0x1_0000_0000);
            crate::vec3::mul_abs_bound2(a as int, 0x1_0000_0000, c as int, 0x1_0000_0000);
            assert(a * b >= 0 && b * c >= 0 && a * c >= 0) by (nonlinear_arith)
                requires a >= 0 && b >= 0 && c >= 0;
        }
        (a * b + b * c + a * c) * 2
    }

    /// Componentwise minimum of two vectors.
    pub fn vmin(v1: &Vec3, v2: &Vec3) -> (r: Vec3)
        ensures
            r.x == if v1.x < v2.x { v1.x } else { v2.x },
            r.y == if v1.y < v2.y { v1.y } else { v2.y },
            r.z == if v1.z < v2.z { v1.z } else { v2.z },
    {
        let x = if v1.x < v2.x { v1.x } else { v2.x };
        let y = if v1.y < v2.y { v1.y } else { v2.y };
        let z = if v1.z < v2.z { v1.z } else { v2.z };
        Vec3 { x, y, z }
    }

    /// Componentwise maximum of two vectors.
    pub fn vmax(v1: &Vec3, v2: &Vec3) -> (r: Vec3)
        ensures
            r.x == if v1.x > v2.x { v1.x } else { v2.x },
            r.y == if v1.y > v2.y { v1.y } else { v2.y },
            r.z == if v1.z > v2.z { v1.z } else { v2.z },
    {
        let x = if v1.x > v2.x { v1.x } else { v2.x };
        let y = if v1.y > v2.y { v1.y } else { v2.y };
        let z = if v1.z > v2.z { v1.z } else { v2.z };
        Vec3 { x, y, z }
    }

    /// The ray-slab entry test.  Returns the entry parameter of the ray
    /// into the box, clamped below at zero, or `None` when no point of the
    /// ray at a non-negative parameter lies in the box.
    pub fn intersect(&self, r: Ray) -> (res: Option<Dist>)
        requires
            self.wf(),
            self.proper(),
            r.wf(),
        ensures
            res == entry_spec(*self, r),
            match res {
                None => forall|num: int, den: int|
                    den > 0 && num >= 0 ==> !self.at_in_box(r, num, den),
                Some(d) => {
                    &&& d.wf()
                    &&& d.num >= 0
                    &&& self.at_in_box(r, d.num as int, d.den as int)
                    &&& forall|num: int, den: int|
                        den > 0 && num >= 0 && self.at_in_box(r, num, den)
                            ==> d.num * den <= num * d.den
                },
            },
    {
        let sx = axis_slab(self.bmin.x, self.bmax.x, r.pos.x, r.dir.x);
        let sy = axis_slab(self.bmin.y, self.bmax.y, r.pos.y, r.dir.y);
        let sz = axis_slab(self.bmin.z, self.bmax.z, r.pos.z, r.dir.z);
        if matches!(sx, SlabCase::Blocked) || matches!(sy, SlabCase::Blocked)
            || matches!(sz, SlabCase::Blocked) {
            return None;
        }
        let mut acc = RangeAcc { have: false, min_n: 0, min_d: 1, max_n: 0, max_d: 1 };
        match sx {
            SlabCase::Span(nn, nf, dd) => { acc = push_range(acc, nn, nf, dd); },
            _ => {},
        }
        assert(forall|num: int, den: int| den > 0 ==> (acc_allows(acc, num, den)
            <==> axis_ok(self.bmin.x as int, self.bmax.x as int, r.pos.x as int,
                r.dir.x as int, num, den)));
        match sy {
            SlabCase::Span(nn, nf, dd) => { acc = push_range(acc, nn, nf, dd); },
            _ => {},
        }
        assert(forall|num: int, den: int| den > 0 ==> (acc_allows(acc, num, den)
            <==> (axis_ok(self.bmin.x as int, self.bmax.x as int, r.pos.x as int,
                    r.dir.x as int, num, den)
                && axis_ok(self.bmin.y as int, self.bmax.y as int, r.pos.y as int,
                    r.dir.y as int, num, den))));
        match sz {
            SlabCase::Span(nn, nf, dd) => { acc = push_range(acc, nn, nf, dd); },
            _ => {},
        }
        assert(forall|num: int, den: int| den > 0 ==> (acc_allows(acc, num, den)
            <==> self.at_in_box(r, num, den)));
        if !acc.have {
            return Some(Dist { num: 0, den: 1 });
        }
        if acc.max_n < 0 {
            proof {
                assert forall|num: int, den: int| den > 0 && num >= 0
                    implies !self.at_in_box(r, num, den) by {
                    if self.at_in_box(r, num, den) {
                        assert(acc_allows(acc, num, den));
                        assert(num * acc.max_d >= 0 && acc.max_n * den < 0) by (nonlinear_arith)
                            requires num >= 0 && acc.max_d > 0 && acc.max_n < 0 && den > 0;
                    }
                }
            }
            return None;
        }
        let tmin = Dist { num: acc.min_n, den: acc.min_d };
        let tmax = Dist { num: acc.max_n, den: acc.max_d };
        if !tmin.le(tmax) {
            proof {
                assert forall|num: int, den: int| den > 0 && num >= 0
                    implies !self.at_in_box(r, num, den) by {
                    if self.at_in_box(r, num, den) {
                        assert(acc_allows(acc, num, den));
                        frac_le_trans(acc.min_n as int, acc.min_d as int, num, den,
                            acc.max_n as int, acc.max_d as int);
                    }
                }
            }
            return None;
        }
        if acc.min_n < 0 {
            let d = Dist { num: 0, den: 1 };
            proof {
                assert(acc.min_n * 1 <= 0 * acc.min_d && 0 * acc.max_d <= acc.max_n * 1)
                    by (nonlinear_arith)
                    requires acc.min_n < 0 && acc.max_n >= 0 && acc.min_d > 0 && acc.max_d > 0;
                assert(acc_allows(acc, 0, 1));
                assert(self.at_in_box(r, 0, 1));
                assert forall|num: int, den: int|
                    den > 0 && num >= 0 && self.at_in_box(r, num, den)
                    implies d.num * den <= num * d.den by {
                    assert(0 * den <= num * 1) by (nonlinear_arith)
                        requires num >= 0 && den > 0;
                }
            }
            Some(d)
        } else {
            let d = Dist { num: acc.min_n, den: acc.min_d };
            proof {
                assert(acc.min_n * acc.min_d <= acc.min_n * acc.min_d);
                assert(acc.min_n * acc.max_d <= acc.max_n * acc.min_d);
                assert(acc_allows(acc, acc.min_n as int, acc.min_d as int));
                assert(self.at_in_box(r, d.num as int, d.den as int));
                assert forall|num: int, den: int|
                    den > 0 && num >= 0 && self.at_in_box(r, num, den)
                    implies d.num * den <= num * d.den by {
                    assert(acc_allows(acc, num, den));
                }
            }
            Some(d)
        }
    }
}

/// What `axis_slab` reports along one axis, as a function of its inputs.
spec fn slab_case_spec(lo: i64, hi: i64, p: i64, d: i64) -> SlabCase {
    if d == 0 {
        if p < lo || p > hi {
            SlabCase::Blocked
        } else {
            SlabCase::Open
        }
    } else if d > 0 {
        SlabCase::Span((lo - p) as i64, (hi - p) as i64, d)
    } else {
        SlabCase::Span((p - hi) as i64, (p - lo) as i64, (-(d as int)) as i64)
    }
}

/// What `push_range` returns, as a function of its inputs.
spec fn push_spec(a: RangeAcc, nn: i64, nf: i64, dd: i64) -> RangeAcc {
    if !a.have {
        RangeAcc { have: true, min_n: nn, min_d: dd, max_n: nf, max_d: dd }
    } else {
        let keep_min = (Dist { num: nn, den: dd }).spec_le(Dist { num: a.min_n, den: a.min_d });
        let keep_max = (Dist { num: a.max_n, den: a.max_d }).spec_le(Dist { num: nf, den: dd });
        RangeAcc {
            have: true,
            min_n: if keep_min { a.min_n } else { nn },
            min_d: if keep_min { a.min_d } else { dd },
            max_n: if keep_max { a.max_n } else { nf },
            max_d: if keep_max { a.max_d } else { dd },
        }
    }
}

/// Fold one axis's slab case into the running interval.
spec fn fold_case(a: RangeAcc, s: SlabCase) -> RangeAcc {
    match s {
        SlabCase::Span(nn, nf, dd) => push_spec(a, nn, nf, dd),
        _ => a,
    }
}

/// The value `BBox::intersect` returns, as a definite function of the box
/// and the ray: the clamped slab entry parameter, or `None` on a miss.
pub closed spec fn entry_spec(b: BBox, r: Ray) -> Option<Dist> {
    let sx = slab_case_spec(b.bmin.x, b.bmax.x, r.pos.x, r.dir.x);
    let sy = slab_case_spec(b.bmin.y, b.bmax.y, r.pos.y, r.dir.y);
    let sz = slab_case_spec(b.bmin.z, b.bmax.z, r.pos.z, r.dir.z);
    if sx is Blocked || sy is Blocked || sz is Blocked {
        None
    } else {
        let acc = fold_case(fold_case(fold_case(
            RangeAcc { have: false, min_n: 0, min_d: 1, max_n: 0, max_d: 1 }, sx), sy), sz);
        if !acc.have {
            Some(Dist { num: 0, den: 1 })
        } else if acc.max_n < 0 {
            None
        } else if !(Dist { num: acc.min_n, den: acc.min_d }).spec_le(
            Dist { num: acc.max_n, den: acc.max_d }) {
            None
        } else if acc.min_n < 0 {
            Some(Dist { num: 0, den: 1 })
        } else {
            Some(Dist { num: acc.min_n, den: acc.min_d })
        }
    }
}

/// In the slab fold of a ray whose origin is inside the box, the running
/// lower bound stays non-positive and the upper bound non-negative.
spec fn acc_centered(a: RangeAcc) -> bool {
    a.have ==> a.min_n <= 0 < a.min_d && a.max_n >= 0 < a.max_d
}

/// One axis's slab case for an origin inside the box: never `Blocked`,
/// and any span brackets zero.
spec fn span_centered(s: SlabCase) -> bool {
    match s {
        SlabCase::Blocked => false,
        SlabCase::Open => true,
        SlabCase::Span(nn, nf, dd) => nn <= 0 <= nf && dd > 0,
    }
}

/// A ray whose origin is inside the box always hits it, at a non-negative
/// entry parameter.
pub proof fn lemma_origin_inside_hits(b: BBox, r: Ray)
    requires
        b.wf(),
        b.proper(),
        r.wf(),
        b.spec_in_box(r.pos),
    ensures
        match entry_spec(b, r) {
            Some(d) => d.num >= 0 && d.den > 0,
            None => false,
        },
    {
    let sx = slab_case_spec(b.bmin.x, b.bmax.x, r.pos.x, r.dir.x);
    let sy = slab_case_spec(b.bmin.y, b.bmax.y, r.pos.y, r.dir.y);
    let sz = slab_case_spec(b.bmin.z, b.bmax.z, r.pos.z, r.dir.z);
    assert(span_centered(sx));
    assert(span_centered(sy));
    assert(span_centered(sz));
    let acc0 = RangeAcc { have: false, min_n: 0, min_d: 1, max_n: 0, max_d: 1 };
    let acc1 = fold_case(acc0, sx);
    let acc2 = fold_case(acc1, sy);
    let acc3 = fold_case(acc2, sz);
    assert(acc_centered(acc1));
    assert(acc_centered(acc2));
    assert(acc_centered(acc3));
    if acc3.have {
        assert((Dist { num: acc3.min_n, den: acc3.min_d }).spec_le(
            Dist { num: acc3.max_n, den: acc3.max_d })) by {
            assert(acc3.min_n * acc3.max_d <= 0 && 0 <= acc3.max_n * acc3.min_d)
                by (nonlinear_arith)
                requires
                    acc3.min_n <= 0 && acc3.max_d > 0,
                    acc3.max_n >= 0 && acc3.min_d > 0;
        }
    }
}

/// A running rational interval `[min_n / min_d, max_n / max_d]`.
#[derive(Clone, Copy)]
struct RangeAcc {
    have: bool,
    min_n: i64,
    min_d: i64,
    max_n: i64,
    max_d: i64,
}

spec fn acc_wf(a: RangeAcc) -> bool {
    a.have ==> {
        &&& 0 < a.min_d <= DIR_LIMIT
        &&& 0 < a.max_d <= DIR_LIMIT
        &&& abs_spec(a.min_n as int) <= 2 * COORD_LIMIT
        &&& abs_spec(a.max_n as int) <= 2 * COORD_LIMIT
    }
}

/// The rational `num / den` lies in the accumulated interval.
spec fn acc_allows(a: RangeAcc, num: int, den: int) -> bool {
    a.have ==> (a.min_n * den <= num * a.min_d && num * a.max_d <= a.max_n * den)
}

/// `a/b <= c/d` and `c/d <= e/f` imply `a/b <= e/f`, for positive denominators.
proof fn frac_le_trans(a: int, b: int, c: int, d: int, e: int, f: int)
    requires
        b > 0,
        d > 0,
        f > 0,
        a * d <= c * b,
        c * f <= e * d,
    ensures
        a * f <= e * b,
    {
    assert(a * f <= e * b) by (nonlinear_arith)
        requires b > 0 && d > 0 && f > 0 && a * d <= c * b && c * f <= e * d;
}

/// Narrow the running interval by one axis's `[nn / dd, nf / dd]`.
fn push_range(a: RangeAcc, nn: i64, nf: i64, dd: i64) -> (b: RangeAcc)
    requires
        acc_wf(a),
        0 < dd <= DIR_LIMIT,
        abs_spec(nn as int) <= 2 * COORD_LIMIT,
        abs_spec(nf as int) <= 2 * COORD_LIMIT,
    ensures
        acc_wf(b),
        b.have,
        forall|num: int, den: int| den > 0 ==> (acc_allows(b, num, den)
            <==> (acc_allows(a, num, den) && nn * den <= num * dd && num * dd <= nf * den)),
        b == push_spec(a, nn, nf, dd),
{
    if !a.have {
        RangeAcc { have: true, min_n: nn, min_d: dd, max_n: nf, max_d: dd }
    } else {
        let keep_min = (Dist { num: nn, den: dd }).le(Dist { num: a.min_n, den: a.min_d });
        let keep_max = (Dist { num: a.max_n, den: a.max_d }).le(Dist { num: nf, den: dd });
        let b = RangeAcc {
            have: true,
            min_n: if keep_min { a.min_n } else { nn },
            min_d: if keep_min { a.min_d } else { dd },
            max_n: if keep_max { a.max_n } else { nf },
            max_d: if keep_max { a.max_d } else { dd },
        };
        proof {
            assert forall|num: int, den: int| den > 0 implies (acc_allows(b, num, den)
                <==> (acc_allows(a, num, den) && nn * den <= num * dd && num * dd <= nf * den))
                by {
                if keep_min {
                    // the old lower bound dominates the new one
                    if a.min_n * den <= num * a.min_d {
                        frac_le_trans(nn as int, dd as int, a.min_n as int, a.min_d as int,
                            num, den);
                    }
                } else {
                    if nn * den <= num * dd {
                        frac_le_trans(a.min_n as int, a.min_d as int, nn as int, dd as int,
                            num, den);
                    }
                }
                if keep_max {
                    if num * a.max_d <= a.max_n * den {
                        frac_le_trans(num, den, a.max_n as int, a.max_d as int,
                            nf as int, dd as int);
                    }
                } else {
                    if num * dd <= nf * den {
                        frac_le_trans(num, den, nf as int, dd as int,
                            a.max_n as int, a.max_d as int);
                    }
                }
            }
        }
        b
    }
}

/// The slab test along one axis.
fn axis_slab(lo: i64, hi: i64, p: i64, d: i64) -> (s: SlabCase)
    requires
        abs_spec(lo as int) <= COORD_LIMIT,
        abs_spec(hi as int) <= COORD_LIMIT,
        abs_spec(p as int) <= COORD_LIMIT,
        abs_spec(d as int) <= DIR_LIMIT,
        lo <= hi,
    ensures
        match s {
            SlabCase::Blocked => forall|num: int, den: int|
                den > 0 ==> !axis_ok(lo as int, hi as int, p as int, d as int, num, den),
            SlabCase::Open => forall|num: int, den: int|
                den > 0 ==> axis_ok(lo as int, hi as int, p as int, d as int, num, den),
            SlabCase::Span(nn, nf, dd) => {
                &&& 0 < dd <= DIR_LIMIT
                &&& abs_spec(nn as int) <= 2 * COORD_LIMIT
                &&& abs_spec(nf as int) <= 2 * COORD_LIMIT
                &&& forall|num: int, den: int| den > 0
                    ==> (axis_ok(lo as int, hi as int, p as int, d as int, num, den)
                        <==> (nn * den <= num * dd && num * dd <= nf * den))
            },
        },
        s == slab_case_spec(lo, hi, p, d),
{
    if d == 0 {
        if p < lo || p > hi {
            proof {
                assert forall|num: int, den: int| den > 0
                    implies !axis_ok(lo as int, hi as int, p as int, d as int, num, den) by {
                    assert((p < lo ==> p * den < lo * den) && (p > hi ==> p * den > hi * den))
                        by (nonlinear_arith)
                        requires den > 0;
                }
            }
            SlabCase::Blocked
        } else {
            proof {
                assert forall|num: int, den: int| den > 0
                    implies axis_ok(lo as int, hi as int, p as int, d as int, num, den) by {
                    assert(lo * den <= p * den && p * den <= hi * den) by (nonlinear_arith)
                        requires den > 0 && lo <= p <= hi;
                }
            }
            SlabCase::Open
        }
    } else if d > 0 {
        proof {
            assert forall|num: int, den: int| den > 0
                implies (axis_ok(lo as int, hi as int, p as int, d as int, num, den)
                    <==> ((lo - p) * den <= num * d && num * d <= (hi - p) * den)) by {
                assert((lo * den <= p * den + d * num <==> (lo - p) * den <= num * d)
                    && (p * den + d * num <= hi * den <==> num * d <= (hi - p) * den))
                    by (nonlinear_arith)
                    requires den > 0;
            }
        }
        SlabCase::Span(lo - p, hi - p, d)
    } else {
        proof {
            assert forall|num: int, den: int| den > 0
                implies (axis_ok(lo as int, hi as int, p as int, d as int, num, den)
                    <==> ((p - hi) * den <= num * (-d) && num * (-d) <= (p - lo) * den)) by {
                assert((lo * den <= p * den + d * num <==> num * (-d) <= (p - lo) * den)
                    && (p * den + d * num <= hi * den <==> (p - hi) * den <= num * (-d)))
                    by (nonlinear_arith)
                    requires den > 0 && d < 0;
            }
        }
        SlabCase::Span(p - hi, p - lo, -d)
    }
}

} // verus!
