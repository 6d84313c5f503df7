//! Exact rational ray parameters.  A `Dist` is the parameter `num / den`
//! along a ray; keeping it as a fraction lets every comparison be an exact
//! integer cross-multiplication instead of a lossy division.

use vstd::prelude::*;
use crate::math::abs_spec;

verus! {

/// Bound on the magnitude of a distance numerator.
pub const NUM_LIMIT: i64 = 1099511627776;

/// Bound on a distance denominator.
pub const DEN_LIMIT: i64 = 2147483648;

/// A ray parameter as an exact non-negative-denominator rational.
#[derive(Clone, Copy, Debug, PartialEq, Eq, Structural)]
pub struct Dist {
    pub num: i64,
    pub den: i64,
}

impl Dist {
    /// Denominator positive, both parts small enough for exact wide products.
    pub open spec fn wf(self) -> bool {
        &&& 0 < self.den <= DEN_LIMIT
        &&& abs_spec(self.num as int) <= NUM_LIMIT
    }

    /// The rational `self` is strictly below the rational `o`.
    pub open spec fn spec_lt(self, o: Dist) -> bool {
        self.num * o.den < o.num * self.den
    }

    /// The rational `self` is at most the rational `o`.
    pub open spec fn spec_le(self, o: Dist) -> bool {
        self.num * o.den <= o.num * self.den
    }

    /// `spec_le` is transitive over positive denominators.
    pub proof fn lemma_le_trans(a: Dist, b: Dist, c: Dist)
        requires
            a.den > 0,
            b.den > 0,
            c.den > 0,
            a.spec_le(b),
            b.spec_le(c),
        ensures
            a.spec_le(c),
        {
        assert(a.num * c.den <= c.num * a.den) by (nonlinear_arith)
            requires
                a.den > 0 && b.den > 0 && c.den > 0,
                a.num * b.den <= b.num * a.den,
                b.num * c.den <= c.num * b.den;
    }

    /// Exact strict comparison of two rationals.
    pub fn lt(self, o: Dist) -> (r: bool)
        ensures
            r == self.spec_lt(o),
    {
        proof {
            crate::vec3::mul_abs_bound(self.num as int, o.den as int, 0x8000_0000_0000_0000);
            crate::vec3::mul_abs_bound(o.num as int, self.den as int, 0x8000_0000_0000_0000);
        }
        (self.num as i128) * (o.den as i128) < (o.num as i128) * (self.den as i128)
    }

    /// Exact non-strict comparison of two rationals.
    pub fn le(self, o: Dist) -> (r: bool)
        ensures
            r == self.spec_le(o),
    {
        proof {
            crate::vec3::mul_abs_bound(self.num as int, o.den as int, 0x8000_0000_0000_0000);
            crate::vec3::mul_abs_bound(o.num as int, self.den as int, 0x8000_0000_0000_0000);
        }
        (self.num as i128) * (o.den as i128) <= (o.num as i128) * (self.den as i128)
    }
}

} // verus!
