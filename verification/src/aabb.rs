//! Axis-aligned bounding boxes with integer corners.
//!
//! `hit` is the slab test, proved equivalent to its geometric meaning: the
//! test passes exactly when some parameter `t` in the given closed interval
//! puts the ray's point inside the closed box. A ray running parallel to a
//! slab gets an explicit guard instead of relying on division by zero, with
//! the same outcome the limit semantics would give.

use vstd::prelude::*;
use crate::num::{Frac, frac_le, frac_lt, lemma_frac_le_trans, lemma_frac_le_lt_trans, lemma_frac_lt_le_trans};
use crate::ray::Ray;
use crate::vec3::{Vec3, FVec3, COORD_MAX, ORIGIN_MAX};

verus! {

/// Largest magnitude of a box corner coordinate: primitives' boxes stay
/// within the scene range, and each translation decorator can shift a box
/// by at most one coordinate range.
pub const BOX_MAX: i64 = 2_000_000;

/// Largest magnitude of a primitive's own box corner: scene coordinates
/// plus the one-unit padding a flat rectangle's box carries.
pub const PRIM_BOX_MAX: i64 = 100_001;

/// Coordinate of the empty sentinel's `min` corner: at least every
/// admissible corner, so that merging the sentinel with any admissible box
/// yields that box.
pub const EMPTY_MIN: i64 = 2_000_000;

/// Coordinate of the empty sentinel's `max` corner.
pub const EMPTY_MAX: i64 = -2_000_000;

#[derive(Clone, Copy, Debug, PartialEq, Eq, Structural)]
pub struct AABB {
    pub min: Vec3,
    pub max: Vec3,
}

/// Does the closed slab `[m, M]` on one axis contain the axis coordinate of
/// the ray's point at parameter `t`? The coordinate is `(o * t.d + t.n * d)
/// / t.d`, so with `t.d > 0` the comparison cross-multiplies by `t.d`.
/// For `d == 0` this reduces to `m <= o <= M`, the correct limit.
pub open spec fn axis_contains(o: int, d: int, m: int, M: int, t: Frac) -> bool {
    &&& m * t.d <= o * t.d + t.n * d
    &&& o * t.d + t.n * d <= M * t.d
}

impl AABB {
    /// Corners within the admissible box coordinate range.
    pub open spec fn bounded_box(self) -> bool {
        &&& self.min.bounded(BOX_MAX as int)
        &&& self.max.bounded(BOX_MAX as int)
    }

    /// A non-empty box: ordered corners on every axis.
    pub open spec fn valid(self) -> bool {
        &&& self.bounded_box()
        &&& self.min.x <= self.max.x
        &&& self.min.y <= self.max.y
        &&& self.min.z <= self.max.z
    }

    /// The closed box contains the rational point `p`.
    pub open spec fn contains_fpoint(self, p: FVec3) -> bool {
        &&& self.min.x * p.x.d <= p.x.n <= self.max.x * p.x.d
        &&& self.min.y * p.y.d <= p.y.n <= self.max.y * p.y.d
        &&& self.min.z * p.z.d <= p.z.n <= self.max.z * p.z.d
    }

    /// The closed box contains the ray's point at parameter `t`.
    pub open spec fn contains_at(self, r: Ray, t: Frac) -> bool {
        &&& axis_contains(r.origin.x as int, r.direction.x as int, self.min.x as int, self.max.x as int, t)
        &&& axis_contains(r.origin.y as int, r.direction.y as int, self.min.y as int, self.max.y as int, t)
        &&& axis_contains(r.origin.z as int, r.direction.z as int, self.min.z as int, self.max.z as int, t)
    }

    /// The componentwise merge of two boxes.
    pub open spec fn merge(a: AABB, b: AABB) -> AABB {
        AABB {
            min: Vec3 {
                x: if a.min.x <= b.min.x { a.min.x } else { b.min.x },
                y: if a.min.y <= b.min.y { a.min.y } else { b.min.y },
                z: if a.min.z <= b.min.z { a.min.z } else { b.min.z },
            },
            max: Vec3 {
                x: if a.max.x >= b.max.x { a.max.x } else { b.max.x },
                y: if a.max.y >= b.max.y { a.max.y } else { b.max.y },
                z: if a.max.z >= b.max.z { a.max.z } else { b.max.z },
            },
        }
    }

    pub fn new(min: &Vec3, max: &Vec3) -> (r: AABB)
        ensures
            r.min == *min && r.max == *max,
    {
        AABB { min: *min, max: *max }
    }

    /// The empty sentinel: merging it with any box yields that box.
    pub fn new_max() -> (r: AABB)
        ensures
            r.min == (Vec3 { x: EMPTY_MIN, y: EMPTY_MIN, z: EMPTY_MIN }),
            r.max == (Vec3 { x: EMPTY_MAX, y: EMPTY_MAX, z: EMPTY_MAX }),
            r.bounded_box(),
    {
        AABB {
            min: Vec3 { x: EMPTY_MIN, y: EMPTY_MIN, z: EMPTY_MIN },
            max: Vec3 { x: EMPTY_MAX, y: EMPTY_MAX, z: EMPTY_MAX },
        }
    }

    pub fn min(&self) -> (r: Vec3)
        ensures
            r == self.min,
    {
        self.min
    }

    pub fn max(&self) -> (r: Vec3)
        ensures
            r == self.max,
    {
        self.max
    }

    /// The smallest box containing both `self` and `other`.
    pub fn surrounding_box(&self, other: &AABB) -> (r: AABB)
        requires
            self.bounded_box(),
            other.bounded_box(),
        ensures
            r == AABB::merge(*self, *other),
            r.bounded_box(),
    {
        let small = Vec3 {
            x: if self.min.x <= other.min.x { self.min.x } else { other.min.x },
            y: if self.min.y <= other.min.y { self.min.y } else { other.min.y },
            z: if self.min.z <= other.min.z { self.min.z } else { other.min.z },
        };
        let big = Vec3 {
            x: if self.max.x >= other.max.x { self.max.x } else { other.max.x },
            y: if self.max.y >= other.max.y { self.max.y } else { other.max.y },
            z: if self.max.z >= other.max.z { self.max.z } else { other.max.z },
        };
        AABB { min: small, max: big }
    }

    /// Grow the box to cover the integer point `point`.
    pub fn add_point(&mut self, point: &Vec3)
        requires
            old(self).bounded_box(),
            point.bounded(COORD_MAX as int),
        ensures
            final(self).min.x == if old(self).min.x <= point.x { old(self).min.x } else { point.x },
            final(self).min.y == if old(self).min.y <= point.y { old(self).min.y } else { point.y },
            final(self).min.z == if old(self).min.z <= point.z { old(self).min.z } else { point.z },
            final(self).max.x == if old(self).max.x >= point.x { old(self).max.x } else { point.x },
            final(self).max.y == if old(self).max.y >= point.y { old(self).max.y } else { point.y },
            final(self).max.z == if old(self).max.z >= point.z { old(self).max.z } else { point.z },
            final(self).bounded_box(),
    {
        let small = Vec3 {
            x: if self.min.x <= point.x { self.min.x } else { point.x },
            y: if self.min.y <= point.y { self.min.y } else { point.y },
            z: if self.min.z <= point.z { self.min.z } else { point.z },
        };
        let big = Vec3 {
            x: if self.max.x >= point.x { self.max.x } else { point.x },
            y: if self.max.y >= point.y { self.max.y } else { point.y },
            z: if self.max.z >= point.z { self.max.z } else { point.z },
        };
        self.min = small;
        self.max = big;
    }

    /// Slab test: does some `t` in the closed interval `[t_lo, t_hi]` put
    /// the ray's point inside the closed box?
    pub fn hit(&self, r: &Ray, t_lo: Frac, t_hi: Frac) -> (res: bool)
        requires
            self.bounded_box(),
            r.bounded(ORIGIN_MAX as int),
            t_lo.wf(),
            t_hi.wf(),
        ensures
            res <==> exists |t: Frac|
                t.d > 0 && frac_le(t_lo, t) && frac_le(t, t_hi) && #[trigger] self.contains_at(*r, t),
    {
        let o = r.origin;
        let d = r.direction;
        let ghost ox = o.x as int;
        let ghost oy = o.y as int;
        let ghost oz = o.z as int;
        let ghost dx = d.x as int;
        let ghost dy = d.y as int;
        let ghost dz = d.z as int;
        let ghost mnx = self.min.x as int;
        let ghost mny = self.min.y as int;
        let ghost mnz = self.min.z as int;
        let ghost mxx = self.max.x as int;
        let ghost mxy = self.max.y as int;
        let ghost mxz = self.max.z as int;
        let step_x = axis_narrow(o.x, d.x, self.min.x, self.max.x, t_lo, t_hi);
        match step_x {
            None => {
                proof {
                    assert forall |t: Frac|
                        t.d > 0 && frac_le(t_lo, t) && frac_le(t, t_hi) && #[trigger] self.contains_at(*r, t)
                    implies false by {
                        assert(axis_contains(ox, dx, mnx, mxx, t));
                    }
                }
                false
            }
            Some((lo1, hi1)) => {
                let step_y = axis_narrow(o.y, d.y, self.min.y, self.max.y, lo1, hi1);
                match step_y {
                    None => {
                        proof {
                            assert forall |t: Frac|
                                t.d > 0 && frac_le(t_lo, t) && frac_le(t, t_hi) && #[trigger] self.contains_at(*r, t)
                            implies false by {
                                assert(axis_contains(ox, dx, mnx, mxx, t));
                                assert(frac_le(lo1, t) && frac_le(t, hi1));
                                assert(axis_contains(oy, dy, mny, mxy, t));
                            }
                        }
                        false
                    }
                    Some((lo2, hi2)) => {
                        let step_z = axis_narrow(o.z, d.z, self.min.z, self.max.z, lo2, hi2);
                        match step_z {
                            None => {
                                proof {
                                    assert forall |t: Frac|
                                        t.d > 0 && frac_le(t_lo, t) && frac_le(t, t_hi)
                                        && #[trigger] self.contains_at(*r, t)
                                    implies false by {
                                        assert(axis_contains(ox, dx, mnx, mxx, t));
                                        assert(frac_le(lo1, t) && frac_le(t, hi1));
                                        assert(axis_contains(oy, dy, mny, mxy, t));
                                        assert(frac_le(lo2, t) && frac_le(t, hi2));
                                        assert(axis_contains(oz, dz, mnz, mxz, t));
                                    }
                                }
                                false
                            }
                            Some((lo3, hi3)) => {
                                proof {
                                    let w = lo3;
                                    assert(frac_le(w, w));
                                    assert(frac_le(w, hi3));
                                    assert(axis_contains(oz, dz, mnz, mxz, w));
                                    assert(frac_le(lo2, w));
                                    assert(frac_le(w, hi2));
                                    assert(axis_contains(oy, dy, mny, mxy, w));
                                    assert(frac_le(lo1, w));
                                    assert(frac_le(w, hi1));
                                    assert(axis_contains(ox, dx, mnx, mxx, w));
                                    assert(frac_le(t_lo, w));
                                    assert(frac_le(w, t_hi));
                                    assert(w.d > 0 && frac_le(t_lo, w) && frac_le(w, t_hi)
                                        && self.contains_at(*r, w));
                                }
                                true
                            }
                        }
                    }
                }
            }
        }
    }
}

/// The empty sentinel is the identity element of the merge: merging it
/// with any admissible box, on either side, yields that box.
pub proof fn lemma_sentinel_merge_identity(s: AABB, b: AABB)
    requires
        s.min == (Vec3 { x: EMPTY_MIN, y: EMPTY_MIN, z: EMPTY_MIN }),
        s.max == (Vec3 { x: EMPTY_MAX, y: EMPTY_MAX, z: EMPTY_MAX }),
        b.bounded_box(),
    ensures
        AABB::merge(s, b) == b,
        AABB::merge(b, s) == b,
{
}

/// The merged box contains both input boxes: each input's corners lie
/// within the merge.
pub proof fn lemma_merge_contains_boxes(a: AABB, b: AABB)
    ensures
        AABB::merge(a, b).min.x <= a.min.x && a.max.x <= AABB::merge(a, b).max.x,
        AABB::merge(a, b).min.y <= a.min.y && a.max.y <= AABB::merge(a, b).max.y,
        AABB::merge(a, b).min.z <= a.min.z && a.max.z <= AABB::merge(a, b).max.z,
        AABB::merge(a, b).min.x <= b.min.x && b.max.x <= AABB::merge(a, b).max.x,
        AABB::merge(a, b).min.y <= b.min.y && b.max.y <= AABB::merge(a, b).max.y,
        AABB::merge(a, b).min.z <= b.min.z && b.max.z <= AABB::merge(a, b).max.z,
{
}

/// The merged box contains every point of both boxes: any point lying in
/// either input box lies in their surrounding box.
pub proof fn lemma_surrounding_box_contains(a: AABB, b: AABB, p: FVec3)
    requires
        p.x.d > 0,
        p.y.d > 0,
        p.z.d > 0,
        a.contains_fpoint(p) || b.contains_fpoint(p),
    ensures
        AABB::merge(a, b).contains_fpoint(p),
{
    let m = AABB::merge(a, b);
    if a.contains_fpoint(p) {
        crate::num::lemma_mul_le_mono(m.min.x as int, a.min.x as int, p.x.d as int);
        crate::num::lemma_mul_le_mono(m.min.y as int, a.min.y as int, p.y.d as int);
        crate::num::lemma_mul_le_mono(m.min.z as int, a.min.z as int, p.z.d as int);
        crate::num::lemma_mul_le_mono(a.max.x as int, m.max.x as int, p.x.d as int);
        crate::num::lemma_mul_le_mono(a.max.y as int, m.max.y as int, p.y.d as int);
        crate::num::lemma_mul_le_mono(a.max.z as int, m.max.z as int, p.z.d as int);
    } else {
        crate::num::lemma_mul_le_mono(m.min.x as int, b.min.x as int, p.x.d as int);
        crate::num::lemma_mul_le_mono(m.min.y as int, b.min.y as int, p.y.d as int);
        crate::num::lemma_mul_le_mono(m.min.z as int, b.min.z as int, p.z.d as int);
        crate::num::lemma_mul_le_mono(b.max.x as int, m.max.x as int, p.x.d as int);
        crate::num::lemma_mul_le_mono(b.max.y as int, m.max.y as int, p.y.d as int);
        crate::num::lemma_mul_le_mono(b.max.z as int, m.max.z as int, p.z.d as int);
    }
}

/// The merged box is the tightest axis-aligned box containing both inputs:
/// any box that contains every point of both non-empty inputs contains
/// every point of the merge.
pub proof fn lemma_surrounding_box_tightest(a: AABB, b: AABB, c: AABB)
    requires
        a.valid(),
        b.valid(),
        forall |p: FVec3| p.x.d > 0 && p.y.d > 0 && p.z.d > 0
            && #[trigger] a.contains_fpoint(p) ==> c.contains_fpoint(p),
        forall |p: FVec3| p.x.d > 0 && p.y.d > 0 && p.z.d > 0
            && #[trigger] b.contains_fpoint(p) ==> c.contains_fpoint(p),
    ensures
        forall |p: FVec3| p.x.d > 0 && p.y.d > 0 && p.z.d > 0
            && #[trigger] AABB::merge(a, b).contains_fpoint(p) ==> c.contains_fpoint(p),
{
    let m = AABB::merge(a, b);
    let a_lo = FVec3 {
        x: Frac { n: a.min.x as i128, d: 1 },
        y: Frac { n: a.min.y as i128, d: 1 },
        z: Frac { n: a.min.z as i128, d: 1 },
    };
    let a_hi = FVec3 {
        x: Frac { n: a.max.x as i128, d: 1 },
        y: Frac { n: a.max.y as i128, d: 1 },
        z: Frac { n: a.max.z as i128, d: 1 },
    };
    let b_lo = FVec3 {
        x: Frac { n: b.min.x as i128, d: 1 },
        y: Frac { n: b.min.y as i128, d: 1 },
        z: Frac { n: b.min.z as i128, d: 1 },
    };
    let b_hi = FVec3 {
        x: Frac { n: b.max.x as i128, d: 1 },
        y: Frac { n: b.max.y as i128, d: 1 },
        z: Frac { n: b.max.z as i128, d: 1 },
    };
    assert(a.contains_fpoint(a_lo));
    assert(a.contains_fpoint(a_hi));
    assert(b.contains_fpoint(b_lo));
    assert(b.contains_fpoint(b_hi));
    assert(c.contains_fpoint(a_lo) && c.contains_fpoint(a_hi));
    assert(c.contains_fpoint(b_lo) && c.contains_fpoint(b_hi));
    assert forall |p: FVec3| p.x.d > 0 && p.y.d > 0 && p.z.d > 0
        && #[trigger] m.contains_fpoint(p) implies c.contains_fpoint(p) by {
        crate::num::lemma_mul_le_mono(c.min.x as int, m.min.x as int, p.x.d as int);
        crate::num::lemma_mul_le_mono(c.min.y as int, m.min.y as int, p.y.d as int);
        crate::num::lemma_mul_le_mono(c.min.z as int, m.min.z as int, p.z.d as int);
        crate::num::lemma_mul_le_mono(m.max.x as int, c.max.x as int, p.x.d as int);
        crate::num::lemma_mul_le_mono(m.max.y as int, c.max.y as int, p.y.d as int);
        crate::num::lemma_mul_le_mono(m.max.z as int, c.max.z as int, p.z.d as int);
    }
}

/// A ray whose origin lies inside a non-empty box hits that box whenever
/// the parameter interval admits zero: the entry parameter is non-positive.
pub proof fn lemma_hit_from_inside(b: AABB, r: Ray, t_lo: Frac, t_hi: Frac)
    requires
        b.valid(),
        t_lo.wf(),
        t_hi.wf(),
        t_lo.n <= 0,
        t_hi.n >= 0,
        b.min.x <= r.origin.x <= b.max.x,
        b.min.y <= r.origin.y <= b.max.y,
        b.min.z <= r.origin.z <= b.max.z,
    ensures
        exists |t: Frac| t.d > 0 && frac_le(t_lo, t) && frac_le(t, t_hi)
            && #[trigger] b.contains_at(r, t),
{
    let w = Frac { n: 0, d: 1 };
    assert(b.contains_at(r, w));
    assert(frac_le(t_lo, w) && frac_le(w, t_hi));
}

/// Narrow the running parameter interval by one axis' slab.
///
/// The returned interval holds exactly the parameters of the incoming
/// interval whose axis coordinate lies within the slab, and it is returned
/// only if it is non-empty.
fn axis_narrow(o: i64, d: i64, m: i64, ma: i64, lo: Frac, hi: Frac) -> (res: Option<(Frac, Frac)>)
    requires
        -(ORIGIN_MAX as int) <= o <= ORIGIN_MAX as int,
        -(COORD_MAX as int) <= d <= COORD_MAX as int,
        -(BOX_MAX as int) <= m <= BOX_MAX as int,
        -(BOX_MAX as int) <= ma <= BOX_MAX as int,
        lo.wf(),
        hi.wf(),
    ensures
        match res {
            Some(iv) => {
                &&& iv.0.wf() && iv.1.wf()
                &&& frac_le(iv.0, iv.1)
                &&& forall |t: Frac| t.d > 0 ==>
                    ((frac_le(iv.0, t) && frac_le(t, iv.1)) <==>
                     (frac_le(lo, t) && frac_le(t, hi)
                      && #[trigger] axis_contains(o as int, d as int, m as int, ma as int, t)))
            },
            None => forall |t: Frac| t.d > 0 && frac_le(lo, t) && frac_le(t, hi)
                ==> !#[trigger] axis_contains(o as int, d as int, m as int, ma as int, t),
        },
{
    if d == 0 {
        if o < m || o > ma {
            proof {
                assert forall |t: Frac| t.d > 0 && frac_le(lo, t) && frac_le(t, hi)
                    implies !axis_contains(o as int, 0, m as int, ma as int, t) by {
                    assert(!(m * t.d <= o * t.d && o * t.d <= ma * t.d)) by (nonlinear_arith)
                        requires
                            t.d > 0,
                            o < m || o > ma;
                }
            }
            None
        } else {
            if hi.lt(&lo) {
                proof {
                    assert forall |t: Frac| t.d > 0 && frac_le(lo, t) && frac_le(t, hi)
                        implies false by {
                        lemma_frac_le_trans(lo, t, hi);
                    }
                }
                None
            } else {
                proof {
                    assert forall |t: Frac| t.d > 0
                        implies ((frac_le(lo, t) && frac_le(t, hi)) <==>
                            (frac_le(lo, t) && frac_le(t, hi)
                             && axis_contains(o as int, 0, m as int, ma as int, t))) by {
                        assert(m * t.d <= o * t.d && o * t.d <= ma * t.d) by (nonlinear_arith)
                            requires
                                t.d > 0,
                                m <= o <= ma;
                    }
                }
                Some((lo, hi))
            }
        }
    } else {
        let (en, ex, ad): (i64, i64, i64) = if d > 0 {
            (m - o, ma - o, d)
        } else {
            (o - ma, o - m, -d)
        };
        let entry = Frac { n: en as i128, d: ad as i128 };
        let exit = Frac { n: ex as i128, d: ad as i128 };
        assert(entry.wf() && exit.wf());
        proof {
            assert forall |t: Frac| t.d > 0
                implies ((frac_le(entry, t) && frac_le(t, exit)) <==>
                    axis_contains(o as int, d as int, m as int, ma as int, t)) by {
                if d > 0 {
                    assert(((m - o) * t.d <= t.n * d <==> m * t.d <= o * t.d + t.n * d)
                        && (t.n * d <= (ma - o) * t.d <==> o * t.d + t.n * d <= ma * t.d))
                        by (nonlinear_arith)
                        requires
                            t.d > 0,
                            d > 0;
                } else {
                    assert(((o - ma) * t.d <= t.n * (-d) <==> o * t.d + t.n * d <= ma * t.d)
                        && (t.n * (-d) <= (o - m) * t.d <==> m * t.d <= o * t.d + t.n * d))
                        by (nonlinear_arith)
                        requires
                            t.d > 0,
                            d < 0;
                }
            }
        }
        let lo2 = lo.max_frac(&entry);
        let hi2 = hi.min_frac(&exit);
        proof {
            assert forall |t: Frac| t.d > 0
                implies (frac_le(lo2, t) <==> (frac_le(lo, t) && frac_le(entry, t))) by {
                if frac_lt(lo, entry) {
                    if frac_le(lo2, t) {
                        crate::num::lemma_frac_lt_le_trans(lo, entry, t);
                    }
                } else {
                    if frac_le(lo2, t) {
                        lemma_frac_le_trans(entry, lo, t);
                    }
                }
            }
            assert forall |t: Frac| t.d > 0
                implies (frac_le(t, hi2) <==> (frac_le(t, hi) && frac_le(t, exit))) by {
                if frac_lt(exit, hi) {
                    if frac_le(t, hi2) {
                        lemma_frac_le_lt_trans(t, exit, hi);
                    }
                } else {
                    if frac_le(t, hi2) {
                        lemma_frac_le_trans(t, hi, exit);
                    }
                }
            }
        }
        if hi2.lt(&lo2) {
            proof {
                assert forall |t: Frac| t.d > 0 && frac_le(lo, t) && frac_le(t, hi)
                    implies !axis_contains(o as int, d as int, m as int, ma as int, t) by {
                    if axis_contains(o as int, d as int, m as int, ma as int, t) {
                        lemma_frac_le_trans(lo2, t, hi2);
                    }
                }
            }
            None
        } else {
            Some((lo2, hi2))
        }
    }
}

} // verus!
