//! Importance-sampling densities.
//!
//! The mixture of two sampling strategies gives each equal weight: its
//! density at a direction is exactly the mean of the component densities,
//! and drawing from it flips an unbiased coin between the components.
//! Component densities whose values involve pi or square roots are
//! evaluated outside the core; the combination laws are exact and live
//! here.

use vstd::prelude::*;
use crate::num::{Frac, frac_eq};
use crate::util::random_coin;

verus! {

/// A density value: a non-negative fraction small enough to combine.
pub open spec fn density_wf(f: Frac) -> bool {
    &&& 1 <= f.d <= 100_000_000
    &&& 0 <= f.n <= 100_000_000
}

/// The even two-strategy mixture used for multiple importance sampling.
pub struct MixturePdf {
    pub p0: Frac,
    pub p1: Frac,
}

impl MixturePdf {
    pub fn new(p0: Frac, p1: Frac) -> (r: MixturePdf)
        ensures
            r.p0 == p0 && r.p1 == p1,
    {
        MixturePdf { p0, p1 }
    }

    /// The mixture's density: exactly half of one component's density plus
    /// half of the other's.
    pub fn value(&self) -> (r: Frac)
        requires
            density_wf(self.p0),
            density_wf(self.p1),
        ensures
            r.n == self.p0.n * self.p1.d + self.p1.n * self.p0.d,
            r.d == 2 * (self.p0.d * self.p1.d),
            r.wf(),
            r.n >= 0,
    {
        proof {
            crate::num::lemma_mul_bound(self.p0.n as int, self.p1.d as int,
                100_000_000, 100_000_000);
            crate::num::lemma_mul_bound(self.p1.n as int, self.p0.d as int,
                100_000_000, 100_000_000);
            crate::num::lemma_mul_bound(self.p0.d as int, self.p1.d as int,
                100_000_000, 100_000_000);
            crate::num::lemma_pos_mul(self.p0.d as int, self.p1.d as int);
            assert(self.p0.n * self.p1.d >= 0 && self.p1.n * self.p0.d >= 0)
                by (nonlinear_arith)
                requires
                    self.p0.n >= 0 && self.p1.n >= 0 && self.p0.d >= 1 && self.p1.d >= 1;
        }
        Frac { n: self.p0.n * self.p1.d + self.p1.n * self.p0.d, d: 2 * (self.p0.d * self.p1.d) }
    }

    /// Draw from the mixture: an unbiased coin picks the component whose
    /// own draw is then used. The result says which component was chosen;
    /// nothing can be promised about the coin itself.
    pub fn generate_choice(&self) -> (r: usize)
        ensures
            r == 0 || r == 1,
    {
        if random_coin() {
            0
        } else {
            1
        }
    }
}

/// The mixture density equals the even blend of its components: for any
/// two component densities, `value` is exactly `(p0 + p1) / 2`, stated as
/// rational equality against any representation of that blend.
pub proof fn lemma_mixture_value_is_even_blend(p0: Frac, p1: Frac, v: Frac, blend: Frac)
    requires
        density_wf(p0),
        density_wf(p1),
        v.n == p0.n * p1.d + p1.n * p0.d,
        v.d == 2 * (p0.d * p1.d),
        // Any representation of (p0 + p1) / 2:
        blend.d > 0,
        blend.n * (2 * (p0.d * p1.d)) == (p0.n * p1.d + p1.n * p0.d) * blend.d,
    ensures
        frac_eq(v, blend),
{
}

/// The unweighted average of member densities given over one shared
/// denominator: how a linear aggregate answers a density query from the
/// densities of its members.
pub fn average_with_common_den(nums: &Vec<i64>, den: i64) -> (r: Frac)
    requires
        nums@.len() <= 1000,
        1 <= den <= 1_000_000,
        forall |i: int| 0 <= i < nums@.len() ==> 0 <= #[trigger] nums@[i] <= 1_000_000,
    ensures
        nums@.len() == 0 ==> r.n == 0 && r.d == 1,
        nums@.len() > 0 ==> r.d == nums@.len() * den && r.n == sum_of(nums@),
        r.wf(),
{
    let n = nums.len();
    if n == 0 {
        return Frac { n: 0, d: 1 };
    }
    let mut acc: i64 = 0;
    let mut i: usize = 0;
    while i < n
        invariant
            n == nums@.len(),
            n <= 1000,
            0 <= i <= n,
            forall |k: int| 0 <= k < n ==> 0 <= #[trigger] nums@[k] <= 1_000_000,
            acc == sum_of(nums@.subrange(0, i as int)),
            0 <= acc <= i * 1_000_000,
        decreases n - i,
    {
        proof {
            assert(nums@.subrange(0, i + 1).drop_last() == nums@.subrange(0, i as int));
            assert(i * 1_000_000 + 1_000_000 == (i + 1) * 1_000_000) by (nonlinear_arith);
            assert(i * 1_000_000 <= 1000 * 1_000_000) by (nonlinear_arith)
                requires
                    0 <= i <= 1000;
        }
        acc = acc + nums[i];
        i = i + 1;
    }
    proof {
        assert(nums@.subrange(0, n as int) == nums@);
        crate::num::lemma_mul_bound(n as int, den as int, 1000, 1_000_000);
        crate::num::lemma_pos_mul(n as int, den as int);
        assert(n * 1_000_000 <= 1000 * 1_000_000) by (nonlinear_arith)
            requires
                n <= 1000;
    }
    Frac { n: acc as i128, d: (n as i128) * (den as i128) }
}

/// The exact sum of a sequence of integers.
pub open spec fn sum_of(s: Seq<i64>) -> int
    decreases s.len(),
{
    if s.len() == 0 {
        0
    } else {
        sum_of(s.drop_last()) + s.last()
    }
}

} // verus!
