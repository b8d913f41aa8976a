//! Axis-aligned rectangles: three orientations, each spanning two axes at a
//! fixed coordinate on the third.
//!
//! A ray with a nonzero direction component along the fixed axis meets the
//! rectangle's plane at exactly one parameter; the hit stands if the
//! in-plane point lies within the rectangle's extent. A ray running inside
//! the plane itself reports no hit, matching the limit behavior of the
//! division-based formulation.

use vstd::prelude::*;
use crate::num::{Frac, frac_le, frac_lt, frac_eq};
use crate::aabb::{AABB, axis_contains};
use crate::hittable::HitRecord;
use crate::material::Material;
use crate::ray::Ray;
use crate::vec3::{Vec3, FVec3, COORD_MAX, ORIGIN_MAX};

verus! {

/// A rectangle in the plane `y = k`, spanning `[x0, x1] x [z0, z1]`.
#[derive(Clone, Copy, Debug)]
pub struct XZRect {
    pub x0: i64,
    pub x1: i64,
    pub z0: i64,
    pub z1: i64,
    pub k: i64,
    pub mat: Material,
}

impl XZRect {
    pub open spec fn wf(self) -> bool {
        &&& -(COORD_MAX as int) <= self.x0 < self.x1 <= COORD_MAX as int
        &&& -(COORD_MAX as int) <= self.z0 < self.z1 <= COORD_MAX as int
        &&& -(COORD_MAX as int) <= self.k <= COORD_MAX as int
        &&& self.mat.wf()
    }

    /// The ray's point at parameter `t` lies on the rectangle: on the plane
    /// `y = k` and within the extent on both spanned axes.
    pub open spec fn hits_at_spec(self, r: Ray, t: Frac) -> bool {
        &&& r.direction.y != 0
        &&& r.origin.y * t.d + t.n * r.direction.y == self.k * t.d
        &&& self.x0 * t.d <= r.at_x_num(t)
        &&& r.at_x_num(t) <= self.x1 * t.d
        &&& self.z0 * t.d <= r.at_z_num(t)
        &&& r.at_z_num(t) <= self.z1 * t.d
    }

    pub fn new(mat: Material, x0: i64, x1: i64, z0: i64, z1: i64, k: i64) -> (r: XZRect)
        ensures
            r == (XZRect { x0, x1, z0, z1, k, mat }),
    {
        XZRect { x0, x1, z0, z1, k, mat }
    }

    /// The exact box the rectangle reports: its extent on the spanned
    /// axes, padded by one unit on the flat axis so it has extent there.
    pub open spec fn box_spec(self) -> AABB {
        AABB {
            min: Vec3 { x: self.x0, y: (self.k - 1) as i64, z: self.z0 },
            max: Vec3 { x: self.x1, y: (self.k + 1) as i64, z: self.z1 },
        }
    }

    /// The box `[x0, x1] x [k - 1, k + 1] x [z0, z1]`, padded on the flat
    /// axis so it has extent there.
    pub fn bounding_box(&self) -> (res: AABB)
        requires
            self.wf(),
        ensures
            res == self.box_spec(),
            res.valid(),
            res.min.bounded(crate::aabb::PRIM_BOX_MAX as int),
            res.max.bounded(crate::aabb::PRIM_BOX_MAX as int),
            forall |r: Ray, t: Frac| t.d > 0 && #[trigger] self.hits_at_spec(r, t)
                ==> res.contains_at(r, t),
    {
        let res = AABB {
            min: Vec3 { x: self.x0, y: self.k - 1, z: self.z0 },
            max: Vec3 { x: self.x1, y: self.k + 1, z: self.z1 },
        };
        proof {
            assert forall |r: Ray, t: Frac| t.d > 0 && #[trigger] self.hits_at_spec(r, t)
                implies res.contains_at(r, t) by {
                assert((self.k - 1) * t.d <= self.k * t.d && self.k * t.d <= (self.k + 1) * t.d)
                    by (nonlinear_arith)
                    requires
                        t.d > 0;
                assert(axis_contains(r.origin.y as int, r.direction.y as int,
                    (self.k - 1) as int, (self.k + 1) as int, t));
                assert(axis_contains(r.origin.x as int, r.direction.x as int,
                    self.x0 as int, self.x1 as int, t));
                assert(axis_contains(r.origin.z as int, r.direction.z as int,
                    self.z0 as int, self.z1 as int, t));
            }
        }
        res
    }

    /// The unique plane crossing within the open interval, if it lies on
    /// the rectangle.
    pub fn hit(&self, r: &Ray, t_min: Frac, t_max: Frac) -> (res: Option<HitRecord>)
        requires
            self.wf(),
            r.bounded(ORIGIN_MAX as int),
            t_min.wf(),
            t_max.wf(),
        ensures
            match res {
                Some(rec) => {
                    &&& rec.t.wf()
                    &&& frac_lt(t_min, rec.t) && frac_lt(rec.t, t_max)
                    &&& self.hits_at_spec(*r, rec.t)
                    &&& forall |t: Frac| t.d > 0 && frac_lt(t_min, t) && frac_lt(t, t_max)
                        && #[trigger] self.hits_at_spec(*r, t) ==> frac_le(rec.t, t)
                    &&& rec.p.x.d == rec.t.d && rec.p.x.n == r.at_x_num(rec.t)
                    &&& rec.p.y.d == rec.t.d && rec.p.y.n == r.at_y_num(rec.t)
                    &&& rec.p.z.d == rec.t.d && rec.p.z.n == r.at_z_num(rec.t)
                    &&& rec.mat == self.mat
                    &&& rec.normal.wide()
                    &&& rec.normal.sdot_num(r.direction) <= 0
                    &&& rec.front_face == (r.direction.y < 0)
                    &&& rec.normal == (if rec.front_face {
                        FVec3 {
                        x: Frac { n: 0, d: 1 },
                        y: Frac { n: 1, d: 1 },
                        z: Frac { n: 0, d: 1 },
                    }
                    } else {
                        FVec3 {
                        x: Frac { n: 0, d: 1 },
                        y: Frac { n: (-1) as i128, d: 1 },
                        z: Frac { n: 0, d: 1 },
                    }
                    })
                    &&& rec.u.n == r.at_x_num(rec.t) - self.x0 * rec.t.d
                    &&& rec.u.d == rec.t.d * (self.x1 - self.x0)
                    &&& rec.v.n == r.at_z_num(rec.t) - self.z0 * rec.t.d
                    &&& rec.v.d == rec.t.d * (self.z1 - self.z0)
                },
                None => forall |t: Frac| t.d > 0 && frac_lt(t_min, t) && frac_lt(t, t_max)
                    ==> !#[trigger] self.hits_at_spec(*r, t),
            },
    {
        let dy = r.direction.y;
        let oy = r.origin.y;
        if dy == 0 {
            return None;
        }
        let (tn, td): (i64, i64) = if dy > 0 {
            (self.k - oy, dy)
        } else {
            (oy - self.k, -dy)
        };
        let t = Frac { n: tn as i128, d: td as i128 };
        proof {
            assert(oy * t.d + t.n * dy == self.k * t.d) by (nonlinear_arith)
                requires
                    dy != 0,
                    dy > 0 ==> t.n == self.k - oy && t.d == dy,
                    dy < 0 ==> t.n == oy - self.k && t.d == -(dy as int);
            assert forall |u: Frac| u.d > 0 && self.hits_at_spec(*r, u)
                implies #[trigger] frac_eq(t, u) by {
                assert(t.n * u.d == u.n * t.d) by (nonlinear_arith)
                    requires
                        u.d > 0,
                        t.d > 0,
                        oy * u.d + u.n * dy == self.k * u.d,
                        oy * t.d + t.n * dy == self.k * t.d,
                        dy > 0 ==> t.d == dy,
                        dy < 0 ==> t.d == -(dy as int),
                        dy != 0;
            }
        }
        if !(t_min.lt(&t) && t.lt(&t_max)) {
            proof {
                assert forall |u: Frac| u.d > 0 && frac_lt(t_min, u) && frac_lt(u, t_max)
                    implies !#[trigger] self.hits_at_spec(*r, u) by {
                    if self.hits_at_spec(*r, u) {
                        assert(frac_eq(t, u));
                        if !frac_lt(t_min, t) {
                            assert(false) by (nonlinear_arith)
                                requires
                                    t.d > 0,
                                    u.d > 0,
                                    t_min.d > 0,
                                    t.n * u.d == u.n * t.d,
                                    t_min.n * u.d < u.n * t_min.d,
                                    !(t_min.n * t.d < t.n * t_min.d);
                        } else {
                            assert(false) by (nonlinear_arith)
                                requires
                                    t.d > 0,
                                    u.d > 0,
                                    t_max.d > 0,
                                    t.n * u.d == u.n * t.d,
                                    u.n * t_max.d < t_max.n * u.d,
                                    !(t.n * t_max.d < t_max.n * t.d);
                        }
                    }
                }
            }
            return None;
        }
        let p = r.at(t);
        proof {
            crate::num::lemma_mul_bound(self.x0 as int, td as int, COORD_MAX as int, COORD_MAX as int);
            crate::num::lemma_mul_bound(self.x1 as int, td as int, COORD_MAX as int, COORD_MAX as int);
            crate::num::lemma_mul_bound(self.z0 as int, td as int, COORD_MAX as int, COORD_MAX as int);
            crate::num::lemma_mul_bound(self.z1 as int, td as int, COORD_MAX as int, COORD_MAX as int);
        }
        let x_lo = (self.x0 as i128) * (td as i128);
        let x_hi = (self.x1 as i128) * (td as i128);
        let z_lo = (self.z0 as i128) * (td as i128);
        let z_hi = (self.z1 as i128) * (td as i128);
        if p.x.n < x_lo || p.x.n > x_hi || p.z.n < z_lo || p.z.n > z_hi {
            proof {
                assert forall |u: Frac| u.d > 0 && frac_lt(t_min, u) && frac_lt(u, t_max)
                    implies !#[trigger] self.hits_at_spec(*r, u) by {
                    if self.hits_at_spec(*r, u) {
                        assert(frac_eq(t, u));
                        lemma_scaled_conditions(*r, t, u, self.x0 as int, self.x1 as int,
                            self.z0 as int, self.z1 as int);
                    }
                }
            }
            return None;
        }
        proof {
            crate::num::lemma_mul_bound(td as int, (self.x1 - self.x0) as int,
                COORD_MAX as int, 2 * COORD_MAX as int);
            crate::num::lemma_mul_bound(td as int, (self.z1 - self.z0) as int,
                COORD_MAX as int, 2 * COORD_MAX as int);
            crate::num::lemma_pos_mul(td as int, (self.x1 - self.x0) as int);
            crate::num::lemma_pos_mul(td as int, (self.z1 - self.z0) as int);
        }
        // Surface coordinates from the in-plane offsets.
        let u_c = Frac { n: p.x.n - x_lo, d: (td as i128) * ((self.x1 - self.x0) as i128) };
        let v_c = Frac { n: p.z.n - z_lo, d: (td as i128) * ((self.z1 - self.z0) as i128) };
        let mut rec = HitRecord {
            p,
            normal: FVec3 {
                x: Frac { n: 0, d: 1 },
                y: Frac { n: 1, d: 1 },
                z: Frac { n: 0, d: 1 },
            },
            mat: self.mat,
            t,
            u: u_c,
            v: v_c,
            front_face: false,
        };
        let outward = FVec3 {
            x: Frac { n: 0, d: 1 },
            y: Frac { n: 1, d: 1 },
            z: Frac { n: 0, d: 1 },
        };
        rec.set_face_normal(r, &outward);
        proof {
            crate::vec3::lemma_sdot_axis_y(outward, r.direction);
            crate::vec3::lemma_sdot_axis_y(rec.normal, r.direction);
            assert forall |u: Frac| u.d > 0 && frac_lt(t_min, u) && frac_lt(u, t_max)
                && #[trigger] self.hits_at_spec(*r, u) implies frac_le(t, u) by {
                assert(frac_eq(t, u));
            }
        }
        Some(rec)
    }
}

/// A rectangle in the plane `z = k`, spanning `[x0, x1] x [y0, y1]`.
#[derive(Clone, Copy, Debug)]
pub struct XYRect {
    pub x0: i64,
    pub x1: i64,
    pub y0: i64,
    pub y1: i64,
    pub k: i64,
    pub mat: Material,
}

impl XYRect {
    pub open spec fn wf(self) -> bool {
        &&& -(COORD_MAX as int) <= self.x0 < self.x1 <= COORD_MAX as int
        &&& -(COORD_MAX as int) <= self.y0 < self.y1 <= COORD_MAX as int
        &&& -(COORD_MAX as int) <= self.k <= COORD_MAX as int
        &&& self.mat.wf()
    }

    /// The ray's point at parameter `t` lies on the rectangle.
    pub open spec fn hits_at_spec(self, r: Ray, t: Frac) -> bool {
        &&& r.direction.z != 0
        &&& r.origin.z * t.d + t.n * r.direction.z == self.k * t.d
        &&& self.x0 * t.d <= r.at_x_num(t)
        &&& r.at_x_num(t) <= self.x1 * t.d
        &&& self.y0 * t.d <= r.at_y_num(t)
        &&& r.at_y_num(t) <= self.y1 * t.d
    }

    pub fn new(mat: Material, x0: i64, x1: i64, y0: i64, y1: i64, k: i64) -> (r: XYRect)
        ensures
            r == (XYRect { x0, x1, y0, y1, k, mat }),
    {
        XYRect { x0, x1, y0, y1, k, mat }
    }

    /// The exact box the rectangle reports.
    pub open spec fn box_spec(self) -> AABB {
        AABB {
            min: Vec3 { x: self.x0, y: self.y0, z: (self.k - 1) as i64 },
            max: Vec3 { x: self.x1, y: self.y1, z: (self.k + 1) as i64 },
        }
    }

    /// The box `[x0, x1] x [y0, y1] x [k - 1, k + 1]`.
    pub fn bounding_box(&self) -> (res: AABB)
        requires
            self.wf(),
        ensures
            res == self.box_spec(),
            res.valid(),
            res.min.bounded(crate::aabb::PRIM_BOX_MAX as int),
            res.max.bounded(crate::aabb::PRIM_BOX_MAX as int),
            forall |r: Ray, t: Frac| t.d > 0 && #[trigger] self.hits_at_spec(r, t)
                ==> res.contains_at(r, t),
    {
        let res = AABB {
            min: Vec3 { x: self.x0, y: self.y0, z: self.k - 1 },
            max: Vec3 { x: self.x1, y: self.y1, z: self.k + 1 },
        };
        proof {
            assert forall |r: Ray, t: Frac| t.d > 0 && #[trigger] self.hits_at_spec(r, t)
                implies res.contains_at(r, t) by {
                assert((self.k - 1) * t.d <= self.k * t.d && self.k * t.d <= (self.k + 1) * t.d)
                    by (nonlinear_arith)
                    requires
                        t.d > 0;
                assert(axis_contains(r.origin.z as int, r.direction.z as int,
                    (self.k - 1) as int, (self.k + 1) as int, t));
                assert(axis_contains(r.origin.x as int, r.direction.x as int,
                    self.x0 as int, self.x1 as int, t));
                assert(axis_contains(r.origin.y as int, r.direction.y as int,
                    self.y0 as int, self.y1 as int, t));
            }
        }
        res
    }

    /// The unique plane crossing within the open interval, if it lies on
    /// the rectangle.
    pub fn hit(&self, r: &Ray, t_min: Frac, t_max: Frac) -> (res: Option<HitRecord>)
        requires
            self.wf(),
            r.bounded(ORIGIN_MAX as int),
            t_min.wf(),
            t_max.wf(),
        ensures
            match res {
                Some(rec) => {
                    &&& rec.t.wf()
                    &&& frac_lt(t_min, rec.t) && frac_lt(rec.t, t_max)
                    &&& self.hits_at_spec(*r, rec.t)
                    &&& forall |t: Frac| t.d > 0 && frac_lt(t_min, t) && frac_lt(t, t_max)
                        && #[trigger] self.hits_at_spec(*r, t) ==> frac_le(rec.t, t)
                    &&& rec.p.x.d == rec.t.d && rec.p.x.n == r.at_x_num(rec.t)
                    &&& rec.p.y.d == rec.t.d && rec.p.y.n == r.at_y_num(rec.t)
                    &&& rec.p.z.d == rec.t.d && rec.p.z.n == r.at_z_num(rec.t)
                    &&& rec.mat == self.mat
                    &&& rec.normal.wide()
                    &&& rec.normal.sdot_num(r.direction) <= 0
                    &&& rec.front_face == (r.direction.z < 0)
                    &&& rec.normal == (if rec.front_face {
                        FVec3 {
                        x: Frac { n: 0, d: 1 },
                        y: Frac { n: 0, d: 1 },
                        z: Frac { n: 1, d: 1 },
                    }
                    } else {
                        FVec3 {
                        x: Frac { n: 0, d: 1 },
                        y: Frac { n: 0, d: 1 },
                        z: Frac { n: (-1) as i128, d: 1 },
                    }
                    })
                    &&& rec.u.n == r.at_x_num(rec.t) - self.x0 * rec.t.d
                    &&& rec.u.d == rec.t.d * (self.x1 - self.x0)
                    &&& rec.v.n == r.at_y_num(rec.t) - self.y0 * rec.t.d
                    &&& rec.v.d == rec.t.d * (self.y1 - self.y0)
                },
                None => forall |t: Frac| t.d > 0 && frac_lt(t_min, t) && frac_lt(t, t_max)
                    ==> !#[trigger] self.hits_at_spec(*r, t),
            },
    {
        let dz = r.direction.z;
        let oz = r.origin.z;
        if dz == 0 {
            return None;
        }
        let (tn, td): (i64, i64) = if dz > 0 {
            (self.k - oz, dz)
        } else {
            (oz - self.k, -dz)
        };
        let t = Frac { n: tn as i128, d: td as i128 };
        proof {
            assert(oz * t.d + t.n * dz == self.k * t.d) by (nonlinear_arith)
                requires
                    dz != 0,
                    dz > 0 ==> t.n == self.k - oz && t.d == dz,
                    dz < 0 ==> t.n == oz - self.k && t.d == -(dz as int);
            assert forall |u: Frac| u.d > 0 && self.hits_at_spec(*r, u)
                implies #[trigger] frac_eq(t, u) by {
                assert(t.n * u.d == u.n * t.d) by (nonlinear_arith)
                    requires
                        u.d > 0,
                        t.d > 0,
                        oz * u.d + u.n * dz == self.k * u.d,
                        oz * t.d + t.n * dz == self.k * t.d,
                        dz > 0 ==> t.d == dz,
                        dz < 0 ==> t.d == -(dz as int),
                        dz != 0;
            }
        }
        if !(t_min.lt(&t) && t.lt(&t_max)) {
            proof {
                assert forall |u: Frac| u.d > 0 && frac_lt(t_min, u) && frac_lt(u, t_max)
                    implies !#[trigger] self.hits_at_spec(*r, u) by {
                    if self.hits_at_spec(*r, u) {
                        assert(frac_eq(t, u));
                        if !frac_lt(t_min, t) {
                            assert(false) by (nonlinear_arith)
                                requires
                                    t.d > 0,
                                    u.d > 0,
                                    t_min.d > 0,
                                    t.n * u.d == u.n * t.d,
                                    t_min.n * u.d < u.n * t_min.d,
                                    !(t_min.n * t.d < t.n * t_min.d);
                        } else {
                            assert(false) by (nonlinear_arith)
                                requires
                                    t.d > 0,
                                    u.d > 0,
                                    t_max.d > 0,
                                    t.n * u.d == u.n * t.d,
                                    u.n * t_max.d < t_max.n * u.d,
                                    !(t.n * t_max.d < t_max.n * t.d);
                        }
                    }
                }
            }
            return None;
        }
        let p = r.at(t);
        proof {
            crate::num::lemma_mul_bound(self.x0 as int, td as int, COORD_MAX as int, COORD_MAX as int);
            crate::num::lemma_mul_bound(self.x1 as int, td as int, COORD_MAX as int, COORD_MAX as int);
            crate::num::lemma_mul_bound(self.y0 as int, td as int, COORD_MAX as int, COORD_MAX as int);
            crate::num::lemma_mul_bound(self.y1 as int, td as int, COORD_MAX as int, COORD_MAX as int);
        }
        let x_lo = (self.x0 as i128) * (td as i128);
        let x_hi = (self.x1 as i128) * (td as i128);
        let y_lo = (self.y0 as i128) * (td as i128);
        let y_hi = (self.y1 as i128) * (td as i128);
        if p.x.n < x_lo || p.x.n > x_hi || p.y.n < y_lo || p.y.n > y_hi {
            proof {
                assert forall |u: Frac| u.d > 0 && frac_lt(t_min, u) && frac_lt(u, t_max)
                    implies !#[trigger] self.hits_at_spec(*r, u) by {
                    if self.hits_at_spec(*r, u) {
                        assert(frac_eq(t, u));
                        lemma_scaled_axis(r.origin.x as int, r.direction.x as int,
                            self.x0 as int, self.x1 as int, t, u);
                        lemma_scaled_axis(r.origin.y as int, r.direction.y as int,
                            self.y0 as int, self.y1 as int, t, u);
                    }
                }
            }
            return None;
        }
        proof {
            crate::num::lemma_mul_bound(td as int, (self.x1 - self.x0) as int,
                COORD_MAX as int, 2 * COORD_MAX as int);
            crate::num::lemma_mul_bound(td as int, (self.y1 - self.y0) as int,
                COORD_MAX as int, 2 * COORD_MAX as int);
            crate::num::lemma_pos_mul(td as int, (self.x1 - self.x0) as int);
            crate::num::lemma_pos_mul(td as int, (self.y1 - self.y0) as int);
        }
        // Surface coordinates from the in-plane offsets.
        let u_c = Frac { n: p.x.n - x_lo, d: (td as i128) * ((self.x1 - self.x0) as i128) };
        let v_c = Frac { n: p.y.n - y_lo, d: (td as i128) * ((self.y1 - self.y0) as i128) };
        let mut rec = HitRecord {
            p,
            normal: FVec3 {
                x: Frac { n: 0, d: 1 },
                y: Frac { n: 0, d: 1 },
                z: Frac { n: 1, d: 1 },
            },
            mat: self.mat,
            t,
            u: u_c,
            v: v_c,
            front_face: false,
        };
        let outward = FVec3 {
            x: Frac { n: 0, d: 1 },
            y: Frac { n: 0, d: 1 },
            z: Frac { n: 1, d: 1 },
        };
        rec.set_face_normal(r, &outward);
        proof {
            crate::vec3::lemma_sdot_axis_z(outward, r.direction);
            crate::vec3::lemma_sdot_axis_z(rec.normal, r.direction);
            assert forall |u: Frac| u.d > 0 && frac_lt(t_min, u) && frac_lt(u, t_max)
                && #[trigger] self.hits_at_spec(*r, u) implies frac_le(t, u) by {
                assert(frac_eq(t, u));
            }
        }
        Some(rec)
    }
}

/// A rectangle in the plane `x = k`, spanning `[y0, y1] x [z0, z1]`.
#[derive(Clone, Copy, Debug)]
pub struct YZRect {
    pub y0: i64,
    pub y1: i64,
    pub z0: i64,
    pub z1: i64,
    pub k: i64,
    pub mat: Material,
}

impl YZRect {
    pub open spec fn wf(self) -> bool {
        &&& -(COORD_MAX as int) <= self.y0 < self.y1 <= COORD_MAX as int
        &&& -(COORD_MAX as int) <= self.z0 < self.z1 <= COORD_MAX as int
        &&& -(COORD_MAX as int) <= self.k <= COORD_MAX as int
        &&& self.mat.wf()
    }

    /// The ray's point at parameter `t` lies on the rectangle.
    pub open spec fn hits_at_spec(self, r: Ray, t: Frac) -> bool {
        &&& r.direction.x != 0
        &&& r.origin.x * t.d + t.n * r.direction.x == self.k * t.d
        &&& self.y0 * t.d <= r.at_y_num(t)
        &&& r.at_y_num(t) <= self.y1 * t.d
        &&& self.z0 * t.d <= r.at_z_num(t)
        &&& r.at_z_num(t) <= self.z1 * t.d
    }

    pub fn new(mat: Material, y0: i64, y1: i64, z0: i64, z1: i64, k: i64) -> (r: YZRect)
        ensures
            r == (YZRect { y0, y1, z0, z1, k, mat }),
    {
        YZRect { y0, y1, z0, z1, k, mat }
    }

    /// The exact box the rectangle reports.
    pub open spec fn box_spec(self) -> AABB {
        AABB {
            min: Vec3 { x: (self.k - 1) as i64, y: self.y0, z: self.z0 },
            max: Vec3 { x: (self.k + 1) as i64, y: self.y1, z: self.z1 },
        }
    }

    /// The box `[k - 1, k + 1] x [y0, y1] x [z0, z1]`.
    pub fn bounding_box(&self) -> (res: AABB)
        requires
            self.wf(),
        ensures
            res == self.box_spec(),
            res.valid(),
            res.min.bounded(crate::aabb::PRIM_BOX_MAX as int),
            res.max.bounded(crate::aabb::PRIM_BOX_MAX as int),
            forall |r: Ray, t: Frac| t.d > 0 && #[trigger] self.hits_at_spec(r, t)
                ==> res.contains_at(r, t),
    {
        let res = AABB {
            min: Vec3 { x: self.k - 1, y: self.y0, z: self.z0 },
            max: Vec3 { x: self.k + 1, y: self.y1, z: self.z1 },
        };
        proof {
            assert forall |r: Ray, t: Frac| t.d > 0 && #[trigger] self.hits_at_spec(r, t)
                implies res.contains_at(r, t) by {
                assert((self.k - 1) * t.d <= self.k * t.d && self.k * t.d <= (self.k + 1) * t.d)
                    by (nonlinear_arith)
                    requires
                        t.d > 0;
                assert(axis_contains(r.origin.x as int, r.direction.x as int,
                    (self.k - 1) as int, (self.k + 1) as int, t));
                assert(axis_contains(r.origin.y as int, r.direction.y as int,
                    self.y0 as int, self.y1 as int, t));
                assert(axis_contains(r.origin.z as int, r.direction.z as int,
                    self.z0 as int, self.z1 as int, t));
            }
        }
        res
    }

    /// The unique plane crossing within the open interval, if it lies on
    /// the rectangle.
    pub fn hit(&self, r: &Ray, t_min: Frac, t_max: Frac) -> (res: Option<HitRecord>)
        requires
            self.wf(),
            r.bounded(ORIGIN_MAX as int),
            t_min.wf(),
            t_max.wf(),
        ensures
            match res {
                Some(rec) => {
                    &&& rec.t.wf()
                    &&& frac_lt(t_min, rec.t) && frac_lt(rec.t, t_max)
                    &&& self.hits_at_spec(*r, rec.t)
                    &&& forall |t: Frac| t.d > 0 && frac_lt(t_min, t) && frac_lt(t, t_max)
                        && #[trigger] self.hits_at_spec(*r, t) ==> frac_le(rec.t, t)
                    &&& rec.p.x.d == rec.t.d && rec.p.x.n == r.at_x_num(rec.t)
                    &&& rec.p.y.d == rec.t.d && rec.p.y.n == r.at_y_num(rec.t)
                    &&& rec.p.z.d == rec.t.d && rec.p.z.n == r.at_z_num(rec.t)
                    &&& rec.mat == self.mat
                    &&& rec.normal.wide()
                    &&& rec.normal.sdot_num(r.direction) <= 0
                    &&& rec.front_face == (r.direction.x < 0)
                    &&& rec.normal == (if rec.front_face {
                        FVec3 {
                        x: Frac { n: 1, d: 1 },
                        y: Frac { n: 0, d: 1 },
                        z: Frac { n: 0, d: 1 },
                    }
                    } else {
                        FVec3 {
                        x: Frac { n: (-1) as i128, d: 1 },
                        y: Frac { n: 0, d: 1 },
                        z: Frac { n: 0, d: 1 },
                    }
                    })
                    &&& rec.u.n == r.at_y_num(rec.t) - self.y0 * rec.t.d
                    &&& rec.u.d == rec.t.d * (self.y1 - self.y0)
                    &&& rec.v.n == r.at_z_num(rec.t) - self.z0 * rec.t.d
                    &&& rec.v.d == rec.t.d * (self.z1 - self.z0)
                },
                None => forall |t: Frac| t.d > 0 && frac_lt(t_min, t) && frac_lt(t, t_max)
                    ==> !#[trigger] self.hits_at_spec(*r, t),
            },
    {
        let dx = r.direction.x;
        let ox = r.origin.x;
        if dx == 0 {
            return None;
        }
        let (tn, td): (i64, i64) = if dx > 0 {
            (self.k - ox, dx)
        } else {
            (ox - self.k, -dx)
        };
        let t = Frac { n: tn as i128, d: td as i128 };
        proof {
            assert(ox * t.d + t.n * dx == self.k * t.d) by (nonlinear_arith)
                requires
                    dx != 0,
                    dx > 0 ==> t.n == self.k - ox && t.d == dx,
                    dx < 0 ==> t.n == ox - self.k && t.d == -(dx as int);
            assert forall |u: Frac| u.d > 0 && self.hits_at_spec(*r, u)
                implies #[trigger] frac_eq(t, u) by {
                assert(t.n * u.d == u.n * t.d) by (nonlinear_arith)
                    requires
                        u.d > 0,
                        t.d > 0,
                        ox * u.d + u.n * dx == self.k * u.d,
                        ox * t.d + t.n * dx == self.k * t.d,
                        dx > 0 ==> t.d == dx,
                        dx < 0 ==> t.d == -(dx as int),
                        dx != 0;
            }
        }
        if !(t_min.lt(&t) && t.lt(&t_max)) {
            proof {
                assert forall |u: Frac| u.d > 0 && frac_lt(t_min, u) && frac_lt(u, t_max)
                    implies !#[trigger] self.hits_at_spec(*r, u) by {
                    if self.hits_at_spec(*r, u) {
                        assert(frac_eq(t, u));
                        if !frac_lt(t_min, t) {
                            assert(false) by (nonlinear_arith)
                                requires
                                    t.d > 0,
                                    u.d > 0,
                                    t_min.d > 0,
                                    t.n * u.d == u.n * t.d,
                                    t_min.n * u.d < u.n * t_min.d,
                                    !(t_min.n * t.d < t.n * t_min.d);
                        } else {
                            assert(false) by (nonlinear_arith)
                                requires
                                    t.d > 0,
                                    u.d > 0,
                                    t_max.d > 0,
                                    t.n * u.d == u.n * t.d,
                                    u.n * t_max.d < t_max.n * u.d,
                                    !(t.n * t_max.d < t_max.n * t.d);
                        }
                    }
                }
            }
            return None;
        }
        let p = r.at(t);
        proof {
            crate::num::lemma_mul_bound(self.y0 as int, td as int, COORD_MAX as int, COORD_MAX as int);
            crate::num::lemma_mul_bound(self.y1 as int, td as int, COORD_MAX as int, COORD_MAX as int);
            crate::num::lemma_mul_bound(self.z0 as int, td as int, COORD_MAX as int, COORD_MAX as int);
            crate::num::lemma_mul_bound(self.z1 as int, td as int, COORD_MAX as int, COORD_MAX as int);
        }
        let y_lo = (self.y0 as i128) * (td as i128);
        let y_hi = (self.y1 as i128) * (td as i128);
        let z_lo = (self.z0 as i128) * (td as i128);
        let z_hi = (self.z1 as i128) * (td as i128);
        if p.y.n < y_lo || p.y.n > y_hi || p.z.n < z_lo || p.z.n > z_hi {
            proof {
                assert forall |u: Frac| u.d > 0 && frac_lt(t_min, u) && frac_lt(u, t_max)
                    implies !#[trigger] self.hits_at_spec(*r, u) by {
                    if self.hits_at_spec(*r, u) {
                        assert(frac_eq(t, u));
                        lemma_scaled_axis(r.origin.y as int, r.direction.y as int,
                            self.y0 as int, self.y1 as int, t, u);
                        lemma_scaled_axis(r.origin.z as int, r.direction.z as int,
                            self.z0 as int, self.z1 as int, t, u);
                    }
                }
            }
            return None;
        }
        proof {
            crate::num::lemma_mul_bound(td as int, (self.y1 - self.y0) as int,
                COORD_MAX as int, 2 * COORD_MAX as int);
            crate::num::lemma_mul_bound(td as int, (self.z1 - self.z0) as int,
                COORD_MAX as int, 2 * COORD_MAX as int);
            crate::num::lemma_pos_mul(td as int, (self.y1 - self.y0) as int);
            crate::num::lemma_pos_mul(td as int, (self.z1 - self.z0) as int);
        }
        // Surface coordinates from the in-plane offsets.
        let u_c = Frac { n: p.y.n - y_lo, d: (td as i128) * ((self.y1 - self.y0) as i128) };
        let v_c = Frac { n: p.z.n - z_lo, d: (td as i128) * ((self.z1 - self.z0) as i128) };
        let mut rec = HitRecord {
            p,
            normal: FVec3 {
                x: Frac { n: 1, d: 1 },
                y: Frac { n: 0, d: 1 },
                z: Frac { n: 0, d: 1 },
            },
            mat: self.mat,
            t,
            u: u_c,
            v: v_c,
            front_face: false,
        };
        let outward = FVec3 {
            x: Frac { n: 1, d: 1 },
            y: Frac { n: 0, d: 1 },
            z: Frac { n: 0, d: 1 },
        };
        rec.set_face_normal(r, &outward);
        proof {
            crate::vec3::lemma_sdot_axis_x(outward, r.direction);
            crate::vec3::lemma_sdot_axis_x(rec.normal, r.direction);
            assert forall |u: Frac| u.d > 0 && frac_lt(t_min, u) && frac_lt(u, t_max)
                && #[trigger] self.hits_at_spec(*r, u) implies frac_le(t, u) by {
                assert(frac_eq(t, u));
            }
        }
        Some(rec)
    }
}

/// A one-axis extent condition transfers between two representations of
/// the same rational parameter.
pub(crate) proof fn lemma_scaled_axis(o: int, d: int, lo: int, hi: int, t: Frac, u: Frac)
    requires
        t.d > 0,
        u.d > 0,
        frac_eq(t, u),
        lo * u.d <= o * u.d + u.n * d,
        o * u.d + u.n * d <= hi * u.d,
    ensures
        lo * t.d <= o * t.d + t.n * d,
        o * t.d + t.n * d <= hi * t.d,
{
    assert(lo * t.d <= o * t.d + t.n * d && o * t.d + t.n * d <= hi * t.d)
        by (nonlinear_arith)
        requires
            t.d > 0,
            u.d > 0,
            t.n * u.d == u.n * t.d,
            lo * u.d <= o * u.d + u.n * d,
            o * u.d + u.n * d <= hi * u.d;
}

/// In-plane membership conditions transfer between two representations of
/// the same rational parameter.
proof fn lemma_scaled_conditions(r: Ray, t: Frac, u: Frac, x0: int, x1: int, z0: int, z1: int)
    requires
        t.d > 0,
        u.d > 0,
        frac_eq(t, u),
        x0 * u.d <= r.at_x_num(u),
        r.at_x_num(u) <= x1 * u.d,
        z0 * u.d <= r.at_z_num(u),
        r.at_z_num(u) <= z1 * u.d,
    ensures
        x0 * t.d <= r.at_x_num(t),
        r.at_x_num(t) <= x1 * t.d,
        z0 * t.d <= r.at_z_num(t),
        r.at_z_num(t) <= z1 * t.d,
{
    lemma_scaled_axis(r.origin.x as int, r.direction.x as int, x0, x1, t, u);
    lemma_scaled_axis(r.origin.z as int, r.direction.z as int, z0, z1, t, u);
}

} // verus!
