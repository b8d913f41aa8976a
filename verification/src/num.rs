//! Exact rational scalars.
//!
//! A `Frac` is a fraction of two `i128` values with a positive denominator.
//! Both parts are kept within `FRAC_BOUND`, so that any two well-formed
//! fractions can be compared by cross-multiplication without overflowing
//! `i128`. No reduction by common factors is performed: every operation
//! states the exact numerator and denominator it produces.

use vstd::prelude::*;

verus! {

/// Magnitude bound on the numerator and denominator of a well-formed `Frac`.
pub const FRAC_BOUND: i128 = 1_000_000_000_000_000_000;

/// Wider magnitude bound for derived point and normal coordinates, which are
/// never cross-multiplied against each other.
pub const POINT_BOUND: i128 = 10_000_000_000_000_000_000_000_000;

#[derive(Clone, Copy, Debug)]
pub struct Frac {
    pub n: i128,
    pub d: i128,
}

/// `a <= b` as rationals, assuming positive denominators.
pub open spec fn frac_le(a: Frac, b: Frac) -> bool {
    a.n * b.d <= b.n * a.d
}

/// `a < b` as rationals, assuming positive denominators.
pub open spec fn frac_lt(a: Frac, b: Frac) -> bool {
    a.n * b.d < b.n * a.d
}

/// `a == b` as rationals, assuming positive denominators.
pub open spec fn frac_eq(a: Frac, b: Frac) -> bool {
    a.n * b.d == b.n * a.d
}

/// `|a * b| <= x * y` whenever `|a| <= x` and `|b| <= y`.
pub proof fn lemma_mul_bound(a: int, b: int, x: int, y: int)
    requires
        -x <= a <= x,
        -y <= b <= y,
        0 <= x,
        0 <= y,
    ensures
        -(x * y) <= a * b <= x * y,
{
    assert(-(x * y) <= a * b <= x * y) by (nonlinear_arith)
        requires
            -x <= a <= x,
            -y <= b <= y,
            0 <= x,
            0 <= y;
}

/// A product of positive factors is positive.
pub proof fn lemma_pos_mul(a: int, b: int)
    requires
        a >= 1,
        b >= 1,
    ensures
        a * b >= 1,
{
    assert(a * b >= 1) by (nonlinear_arith)
        requires
            a >= 1,
            b >= 1;
}

/// Multiplying both sides of an inequality by a positive factor keeps it.
pub proof fn lemma_mul_le_mono(a: int, b: int, d: int)
    requires
        a <= b,
        d > 0,
    ensures
        a * d <= b * d,
{
    assert(a * d <= b * d) by (nonlinear_arith)
        requires
            a <= b,
            d > 0;
}

/// Rational order is transitive.
pub proof fn lemma_frac_lt_trans(a: Frac, b: Frac, c: Frac)
    requires
        a.d > 0,
        b.d > 0,
        c.d > 0,
        frac_lt(a, b),
        frac_lt(b, c),
    ensures
        frac_lt(a, c),
{
    assert(a.n * c.d < c.n * a.d) by (nonlinear_arith)
        requires
            a.d > 0,
            b.d > 0,
            c.d > 0,
            a.n * b.d < b.n * a.d,
            b.n * c.d < c.n * b.d;
}

/// A strict bound below a weak bound is strict.
pub proof fn lemma_frac_lt_le_trans(a: Frac, b: Frac, c: Frac)
    requires
        a.d > 0,
        b.d > 0,
        c.d > 0,
        frac_lt(a, b),
        frac_le(b, c),
    ensures
        frac_lt(a, c),
{
    assert(a.n * c.d < c.n * a.d) by (nonlinear_arith)
        requires
            a.d > 0,
            b.d > 0,
            c.d > 0,
            a.n * b.d < b.n * a.d,
            b.n * c.d <= c.n * b.d;
}

/// A weak bound below a strict bound is strict.
pub proof fn lemma_frac_le_lt_trans(a: Frac, b: Frac, c: Frac)
    requires
        a.d > 0,
        b.d > 0,
        c.d > 0,
        frac_le(a, b),
        frac_lt(b, c),
    ensures
        frac_lt(a, c),
{
    assert(a.n * c.d < c.n * a.d) by (nonlinear_arith)
        requires
            a.d > 0,
            b.d > 0,
            c.d > 0,
            a.n * b.d <= b.n * a.d,
            b.n * c.d < c.n * b.d;
}

/// Weak rational order is transitive.
pub proof fn lemma_frac_le_trans(a: Frac, b: Frac, c: Frac)
    requires
        a.d > 0,
        b.d > 0,
        c.d > 0,
        frac_le(a, b),
        frac_le(b, c),
    ensures
        frac_le(a, c),
{
    assert(a.n * c.d <= c.n * a.d) by (nonlinear_arith)
        requires
            a.d > 0,
            b.d > 0,
            c.d > 0,
            a.n * b.d <= b.n * a.d,
            b.n * c.d <= c.n * b.d;
}

impl Frac {
    /// Both parts within bounds and the denominator positive.
    pub open spec fn wf(self) -> bool {
        &&& 1 <= self.d <= FRAC_BOUND
        &&& -FRAC_BOUND <= self.n <= FRAC_BOUND
    }

    /// The wider bound that point coordinates obey; every well-formed value
    /// also obeys it.
    pub open spec fn wide(self) -> bool {
        &&& 1 <= self.d <= POINT_BOUND
        &&& -POINT_BOUND <= self.n <= POINT_BOUND
    }

    /// The unreduced exact sum, at the spec level.
    pub open spec fn add_spec(self, other: Frac) -> Frac {
        Frac {
            n: (self.n * other.d + other.n * self.d) as i128,
            d: (self.d * other.d) as i128,
        }
    }

    /// The unreduced exact difference, at the spec level.
    pub open spec fn sub_spec(self, other: Frac) -> Frac {
        Frac {
            n: (self.n * other.d - other.n * self.d) as i128,
            d: (self.d * other.d) as i128,
        }
    }

    /// The integer `v` as a fraction over 1.
    pub fn from_i64(v: i64) -> (r: Frac)
        requires
            -FRAC_BOUND <= v as int <= FRAC_BOUND,
        ensures
            r.n == v as int,
            r.d == 1,
            r.wf(),
    {
        Frac { n: v as i128, d: 1 }
    }

    /// The largest well-formed value; every parametric distance that a
    /// well-formed scene can produce lies strictly below it, so it serves
    /// as the open upper bound of a search interval.
    pub fn upper_limit() -> (r: Frac)
        ensures
            r.n == FRAC_BOUND as int,
            r.d == 1,
            r.wf(),
    {
        Frac { n: FRAC_BOUND, d: 1 }
    }

    /// Strict rational comparison.
    pub fn lt(&self, other: &Frac) -> (r: bool)
        requires
            self.wf(),
            other.wf(),
        ensures
            r == frac_lt(*self, *other),
    {
        proof {
            lemma_mul_bound(self.n as int, other.d as int, FRAC_BOUND as int, FRAC_BOUND as int);
            lemma_mul_bound(other.n as int, self.d as int, FRAC_BOUND as int, FRAC_BOUND as int);
        }
        self.n * other.d < other.n * self.d
    }

    /// Weak rational comparison.
    pub fn le(&self, other: &Frac) -> (r: bool)
        requires
            self.wf(),
            other.wf(),
        ensures
            r == frac_le(*self, *other),
    {
        proof {
            lemma_mul_bound(self.n as int, other.d as int, FRAC_BOUND as int, FRAC_BOUND as int);
            lemma_mul_bound(other.n as int, self.d as int, FRAC_BOUND as int, FRAC_BOUND as int);
        }
        self.n * other.d <= other.n * self.d
    }

    /// Rational equality of two representations.
    pub fn eq_frac(&self, other: &Frac) -> (r: bool)
        requires
            self.wf(),
            other.wf(),
        ensures
            r == frac_eq(*self, *other),
    {
        proof {
            lemma_mul_bound(self.n as int, other.d as int, FRAC_BOUND as int, FRAC_BOUND as int);
            lemma_mul_bound(other.n as int, self.d as int, FRAC_BOUND as int, FRAC_BOUND as int);
        }
        self.n * other.d == other.n * self.d
    }

    /// Exact sum; the caller guarantees that the unreduced result stays in
    /// bounds, which machine arithmetic forces.
    pub fn add(&self, other: &Frac) -> (r: Frac)
        requires
            self.wf(),
            other.wf(),
            -FRAC_BOUND <= self.n * other.d + other.n * self.d <= FRAC_BOUND,
            self.d * other.d <= FRAC_BOUND,
        ensures
            r.n == self.n * other.d + other.n * self.d,
            r.d == self.d * other.d,
            r.wf(),
    {
        proof {
            lemma_mul_bound(self.n as int, other.d as int, FRAC_BOUND as int, FRAC_BOUND as int);
            lemma_mul_bound(other.n as int, self.d as int, FRAC_BOUND as int, FRAC_BOUND as int);
            lemma_mul_bound(self.d as int, other.d as int, FRAC_BOUND as int, FRAC_BOUND as int);
            lemma_pos_mul(self.d as int, other.d as int);
        }
        Frac { n: self.n * other.d + other.n * self.d, d: self.d * other.d }
    }

    /// Exact difference, under the same bound obligations as `add`.
    pub fn sub(&self, other: &Frac) -> (r: Frac)
        requires
            self.wf(),
            other.wf(),
            -FRAC_BOUND <= self.n * other.d - other.n * self.d <= FRAC_BOUND,
            self.d * other.d <= FRAC_BOUND,
        ensures
            r.n == self.n * other.d - other.n * self.d,
            r.d == self.d * other.d,
            r.wf(),
    {
        proof {
            lemma_mul_bound(self.n as int, other.d as int, FRAC_BOUND as int, FRAC_BOUND as int);
            lemma_mul_bound(other.n as int, self.d as int, FRAC_BOUND as int, FRAC_BOUND as int);
            lemma_mul_bound(self.d as int, other.d as int, FRAC_BOUND as int, FRAC_BOUND as int);
            lemma_pos_mul(self.d as int, other.d as int);
        }
        Frac { n: self.n * other.d - other.n * self.d, d: self.d * other.d }
    }

    /// Exact product.
    pub fn mul(&self, other: &Frac) -> (r: Frac)
        requires
            self.wf(),
            other.wf(),
            -FRAC_BOUND <= self.n * other.n <= FRAC_BOUND,
            self.d * other.d <= FRAC_BOUND,
        ensures
            r.n == self.n * other.n,
            r.d == self.d * other.d,
            r.wf(),
    {
        proof {
            lemma_mul_bound(self.n as int, other.n as int, FRAC_BOUND as int, FRAC_BOUND as int);
            lemma_mul_bound(self.d as int, other.d as int, FRAC_BOUND as int, FRAC_BOUND as int);
            lemma_pos_mul(self.d as int, other.d as int);
        }
        Frac { n: self.n * other.n, d: self.d * other.d }
    }

    /// Exact quotient by a nonzero fraction; the sign moves into the
    /// numerator so the denominator stays positive.
    pub fn div(&self, other: &Frac) -> (r: Frac)
        requires
            self.wf(),
            other.wf(),
            other.n != 0,
            -FRAC_BOUND <= self.n * other.d <= FRAC_BOUND,
            -FRAC_BOUND <= self.d * other.n <= FRAC_BOUND,
        ensures
            other.n > 0 ==> r.n == self.n * other.d && r.d == self.d * other.n,
            other.n < 0 ==> r.n == -(self.n * other.d) && r.d == -(self.d * other.n),
            r.wf(),
            r.n * (self.d * other.n) == self.n * other.d * r.d,
    {
        proof {
            lemma_mul_bound(self.n as int, other.d as int, FRAC_BOUND as int, FRAC_BOUND as int);
            lemma_mul_bound(self.d as int, other.n as int, FRAC_BOUND as int, FRAC_BOUND as int);
            assert(other.n > 0 ==> self.d * other.n > 0) by (nonlinear_arith)
                requires
                    self.d > 0;
            assert(other.n < 0 ==> self.d * other.n < 0) by (nonlinear_arith)
                requires
                    self.d > 0;
            assert((self.n * other.d) * (self.d * other.n) == self.n * other.d * (self.d * other.n))
                by (nonlinear_arith);
            assert((-(self.n * other.d)) * (self.d * other.n) == self.n * other.d * (-(self.d
                * other.n))) by (nonlinear_arith);
        }
        if other.n > 0 {
            Frac { n: self.n * other.d, d: self.d * other.n }
        } else {
            Frac { n: -(self.n * other.d), d: -(self.d * other.n) }
        }
    }

    /// Exact negation.
    pub fn neg(&self) -> (r: Frac)
        requires
            self.wf(),
        ensures
            r.n == -self.n,
            r.d == self.d,
            r.wf(),
    {
        Frac { n: -self.n, d: self.d }
    }

    /// The larger of two values; ties keep the left argument.
    pub fn max_frac(&self, other: &Frac) -> (r: Frac)
        requires
            self.wf(),
            other.wf(),
        ensures
            r == if frac_lt(*self, *other) { *other } else { *self },
    {
        if self.lt(other) {
            *other
        } else {
            *self
        }
    }

    /// The smaller of two values; ties keep the left argument.
    pub fn min_frac(&self, other: &Frac) -> (r: Frac)
        requires
            self.wf(),
            other.wf(),
        ensures
            r == if frac_lt(*other, *self) { *other } else { *self },
    {
        if other.lt(self) {
            *other
        } else {
            *self
        }
    }
}

} // verus!
