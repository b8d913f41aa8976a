//! Triangles, intersected by the Möller–Trumbore algorithm.
//!
//! Over integer vertices and directions the algorithm's determinants are
//! exact integers: the hit test divides nothing and loses nothing. A ray
//! in the triangle's plane (zero determinant) reports no hit, matching
//! the limit behavior of the division-based formulation. The shading
//! normal is either the flat geometric normal or three vertex normals
//! blended barycentrically.

use vstd::prelude::*;
use crate::num::{Frac, frac_le, frac_lt, frac_eq, FRAC_BOUND, POINT_BOUND};
use crate::aabb::AABB;
use crate::hittable::HitRecord;
use crate::material::Material;
use crate::ray::Ray;
use crate::vec3::{Vec3, FVec3, COORD_MAX, ORIGIN_MAX};

verus! {

/// The shading normal: one flat normal, or three vertex normals blended
/// barycentrically for smooth meshes.
#[derive(Clone, Copy, Debug)]
pub enum Norm {
    Smooth(Vec3, Vec3, Vec3),
    Flat(Vec3),
}

#[derive(Clone, Copy, Debug)]
pub struct Triangle {
    pub p1: Vec3,
    pub p2: Vec3,
    pub p3: Vec3,
    pub e1: Vec3,
    pub e2: Vec3,
    pub norm: Norm,
    pub mat: Material,
}

/// The smaller and larger of three values.
pub open spec fn min3(a: int, b: int, c: int) -> int {
    if a <= b && a <= c {
        a
    } else if b <= c {
        b
    } else {
        c
    }
}

pub open spec fn max3(a: int, b: int, c: int) -> int {
    if a >= b && a >= c {
        a
    } else if b >= c {
        b
    } else {
        c
    }
}

impl Triangle {
    pub open spec fn wf(self) -> bool {
        &&& self.p1.bounded(COORD_MAX as int)
        &&& self.p2.bounded(COORD_MAX as int)
        &&& self.p3.bounded(COORD_MAX as int)
        &&& self.e1.x == self.p2.x - self.p1.x
        &&& self.e1.y == self.p2.y - self.p1.y
        &&& self.e1.z == self.p2.z - self.p1.z
        &&& self.e2.x == self.p3.x - self.p1.x
        &&& self.e2.y == self.p3.y - self.p1.y
        &&& self.e2.z == self.p3.z - self.p1.z
        &&& match self.norm {
            Norm::Flat(n) => n.x == self.e1.y * self.e2.z - self.e1.z * self.e2.y
                && n.y == self.e1.z * self.e2.x - self.e1.x * self.e2.z
                && n.z == self.e1.x * self.e2.y - self.e1.y * self.e2.x,
            Norm::Smooth(n1, n2, n3) => n1.bounded(COORD_MAX as int)
                && n2.bounded(COORD_MAX as int) && n3.bounded(COORD_MAX as int),
        }
        &&& self.mat.wf()
    }

    /// The Möller–Trumbore determinant: the triple product of the ray
    /// direction and the two edges.
    pub open spec fn det(self, r: Ray) -> int {
        self.e1.x * (r.direction.y * self.e2.z - r.direction.z * self.e2.y)
            + self.e1.y * (r.direction.z * self.e2.x - r.direction.x * self.e2.z)
            + self.e1.z * (r.direction.x * self.e2.y - r.direction.y * self.e2.x)
    }

    /// Numerator of the first barycentric coordinate, over `det`.
    pub open spec fn u_num(self, r: Ray) -> int {
        (r.origin.x - self.p1.x) * (r.direction.y * self.e2.z - r.direction.z * self.e2.y)
            + (r.origin.y - self.p1.y) * (r.direction.z * self.e2.x - r.direction.x * self.e2.z)
            + (r.origin.z - self.p1.z) * (r.direction.x * self.e2.y - r.direction.y * self.e2.x)
    }

    /// X component of the cross product of the origin offset and the first
    /// edge, and its mates.
    pub open spec fn q_x(self, r: Ray) -> int {
        (r.origin.y - self.p1.y) * self.e1.z - (r.origin.z - self.p1.z) * self.e1.y
    }

    pub open spec fn q_y(self, r: Ray) -> int {
        (r.origin.z - self.p1.z) * self.e1.x - (r.origin.x - self.p1.x) * self.e1.z
    }

    pub open spec fn q_z(self, r: Ray) -> int {
        (r.origin.x - self.p1.x) * self.e1.y - (r.origin.y - self.p1.y) * self.e1.x
    }

    /// Numerator of the second barycentric coordinate, over `det`.
    pub open spec fn v_num(self, r: Ray) -> int {
        r.direction.x * self.q_x(r) + r.direction.y * self.q_y(r) + r.direction.z * self.q_z(r)
    }

    /// Numerator of the hit parameter, over `det`.
    pub open spec fn t_num(self, r: Ray) -> int {
        self.e2.x * self.q_x(r) + self.e2.y * self.q_y(r) + self.e2.z * self.q_z(r)
    }

    /// The inner product of the outward shading normal with the ray
    /// direction, scaled by a positive factor: its sign decides the
    /// front-face flag. For a flat normal this is the cross product's
    /// inner product with the direction; for a smooth normal it is the
    /// barycentric blend's, over the determinant's magnitude.
    pub open spec fn outward_dot_num(self, r: Ray) -> int {
        match self.norm {
            Norm::Flat(n) => n.sdot(r.direction),
            Norm::Smooth(n1, n2, n3) => {
                let a = self.det(r);
                let u = self.u_num(r);
                let v = self.v_num(r);
                let s = (a - u - v) * n1.sdot(r.direction) + u * n2.sdot(r.direction)
                    + v * n3.sdot(r.direction);
                if a >= 0 {
                    s
                } else {
                    -s
                }
            }
        }
    }

    /// The outward shading normal at a hit: the edges' cross product for
    /// a flat triangle, or the vertex normals blended barycentrically over
    /// the determinant's magnitude for a smooth one.
    pub open spec fn outward_normal_spec(self, r: Ray) -> FVec3 {
        match self.norm {
            Norm::Flat(n) => FVec3 {
                x: Frac { n: n.x as i128, d: 1 },
                y: Frac { n: n.y as i128, d: 1 },
                z: Frac { n: n.z as i128, d: 1 },
            },
            Norm::Smooth(n1, n2, n3) => {
                let a = self.det(r);
                let u = self.u_num(r);
                let v = self.v_num(r);
                let w1: int = if a >= 0 { a - u - v } else { -(a - u - v) };
                let w2: int = if a >= 0 { u } else { -u };
                let w3: int = if a >= 0 { v } else { -v };
                let den: int = if a >= 0 { a } else { -a };
                FVec3 {
                    x: Frac { n: (n1.x * w1 + n2.x * w2 + n3.x * w3) as i128, d: den as i128 },
                    y: Frac { n: (n1.y * w1 + n2.y * w2 + n3.y * w3) as i128, d: den as i128 },
                    z: Frac { n: (n1.z * w1 + n2.z * w2 + n3.z * w3) as i128, d: den as i128 },
                }
            }
        }
    }

    /// The barycentric conditions `0 <= u`, `0 <= v`, `u + v <= 1`, with
    /// the inequalities turned by the determinant's sign.
    pub open spec fn bary_ok(self, r: Ray) -> bool {
        let a = self.det(r);
        let u = self.u_num(r);
        let v = self.v_num(r);
        &&& a != 0
        &&& a > 0 ==> 0 <= u && u <= a && 0 <= v && u + v <= a
        &&& a < 0 ==> a <= u && u <= 0 && v <= 0 && a <= u + v
    }

    /// The ray meets the triangle at parameter `t`: the barycentric
    /// conditions hold, `t` is the determinant ratio, and the point lies
    /// in the triangle's vertex box.
    pub open spec fn hits_at_spec(self, r: Ray, t: Frac) -> bool {
        &&& self.bary_ok(r)
        &&& t.n * self.det(r) == self.t_num(r) * t.d
        &&& min3(self.p1.x as int, self.p2.x as int, self.p3.x as int) * t.d <= r.at_x_num(t)
        &&& r.at_x_num(t) <= max3(self.p1.x as int, self.p2.x as int, self.p3.x as int) * t.d
        &&& min3(self.p1.y as int, self.p2.y as int, self.p3.y as int) * t.d <= r.at_y_num(t)
        &&& r.at_y_num(t) <= max3(self.p1.y as int, self.p2.y as int, self.p3.y as int) * t.d
        &&& min3(self.p1.z as int, self.p2.z as int, self.p3.z as int) * t.d <= r.at_z_num(t)
        &&& r.at_z_num(t) <= max3(self.p1.z as int, self.p2.z as int, self.p3.z as int) * t.d
    }

    /// A triangle with one flat normal: the cross product of its edges.
    pub fn new_flat(p1: Vec3, p2: Vec3, p3: Vec3, mat: Material) -> (res: Triangle)
        requires
            p1.bounded(COORD_MAX as int),
            p2.bounded(COORD_MAX as int),
            p3.bounded(COORD_MAX as int),
            mat.wf(),
        ensures
            res.wf(),
            res.p1 == p1 && res.p2 == p2 && res.p3 == p3,
            res.mat == mat,
            res.norm is Flat,
    {
        let e1 = p2.sub(&p1);
        let e2 = p3.sub(&p1);
        let n = e1.cross(&e2);
        Triangle { p1, p2, p3, e1, e2, norm: Norm::Flat(n), mat }
    }

    /// A triangle with three vertex normals, blended at each hit.
    pub fn new_smooth(p1: Vec3, p2: Vec3, p3: Vec3, n1: Vec3, n2: Vec3, n3: Vec3,
        mat: Material) -> (res: Triangle)
        requires
            p1.bounded(COORD_MAX as int),
            p2.bounded(COORD_MAX as int),
            p3.bounded(COORD_MAX as int),
            n1.bounded(COORD_MAX as int),
            n2.bounded(COORD_MAX as int),
            n3.bounded(COORD_MAX as int),
            mat.wf(),
        ensures
            res.wf(),
            res.p1 == p1 && res.p2 == p2 && res.p3 == p3,
            res.mat == mat,
            res.norm == Norm::Smooth(n1, n2, n3),
    {
        let e1 = p2.sub(&p1);
        let e2 = p3.sub(&p1);
        Triangle { p1, p2, p3, e1, e2, norm: Norm::Smooth(n1, n2, n3), mat }
    }

    /// The exact box the triangle reports: the componentwise extrema of
    /// its three vertices.
    pub open spec fn box_spec(self) -> AABB {
        AABB {
            min: Vec3 {
                x: min3(self.p1.x as int, self.p2.x as int, self.p3.x as int) as i64,
                y: min3(self.p1.y as int, self.p2.y as int, self.p3.y as int) as i64,
                z: min3(self.p1.z as int, self.p2.z as int, self.p3.z as int) as i64,
            },
            max: Vec3 {
                x: max3(self.p1.x as int, self.p2.x as int, self.p3.x as int) as i64,
                y: max3(self.p1.y as int, self.p2.y as int, self.p3.y as int) as i64,
                z: max3(self.p1.z as int, self.p2.z as int, self.p3.z as int) as i64,
            },
        }
    }

    /// The box spanned by the three vertices.
    pub fn bounding_box(&self) -> (res: AABB)
        requires
            self.wf(),
        ensures
            res == self.box_spec(),
            res.valid(),
            res.min.bounded(crate::aabb::PRIM_BOX_MAX as int),
            res.max.bounded(crate::aabb::PRIM_BOX_MAX as int),
            forall |r: Ray, t: Frac| t.d > 0 && #[trigger] self.hits_at_spec(r, t)
                ==> res.contains_at(r, t),
    {
        let minx = if self.p1.x <= self.p2.x && self.p1.x <= self.p3.x { self.p1.x }
            else if self.p2.x <= self.p3.x { self.p2.x } else { self.p3.x };
        let miny = if self.p1.y <= self.p2.y && self.p1.y <= self.p3.y { self.p1.y }
            else if self.p2.y <= self.p3.y { self.p2.y } else { self.p3.y };
        let minz = if self.p1.z <= self.p2.z && self.p1.z <= self.p3.z { self.p1.z }
            else if self.p2.z <= self.p3.z { self.p2.z } else { self.p3.z };
        let maxx = if self.p1.x >= self.p2.x && self.p1.x >= self.p3.x { self.p1.x }
            else if self.p2.x >= self.p3.x { self.p2.x } else { self.p3.x };
        let maxy = if self.p1.y >= self.p2.y && self.p1.y >= self.p3.y { self.p1.y }
            else if self.p2.y >= self.p3.y { self.p2.y } else { self.p3.y };
        let maxz = if self.p1.z >= self.p2.z && self.p1.z >= self.p3.z { self.p1.z }
            else if self.p2.z >= self.p3.z { self.p2.z } else { self.p3.z };
        AABB {
            min: Vec3 { x: minx, y: miny, z: minz },
            max: Vec3 { x: maxx, y: maxy, z: maxz },
        }
    }

    /// The unique crossing of the triangle's plane within the open
    /// interval, if it lies inside the triangle.
    pub fn hit(&self, r: &Ray, t_min: Frac, t_max: Frac) -> (res: Option<HitRecord>)
        requires
            self.wf(),
            r.bounded(ORIGIN_MAX as int),
            t_min.wf(),
            t_max.wf(),
        ensures
            match res {
                Some(rec) => {
                    &&& rec.t.wf()
                    &&& frac_lt(t_min, rec.t) && frac_lt(rec.t, t_max)
                    &&& self.hits_at_spec(*r, rec.t)
                    &&& forall |t: Frac| t.d > 0 && frac_lt(t_min, t) && frac_lt(t, t_max)
                        && #[trigger] self.hits_at_spec(*r, t) ==> frac_le(rec.t, t)
                    &&& rec.p.x.d == rec.t.d && rec.p.x.n == r.at_x_num(rec.t)
                    &&& rec.p.y.d == rec.t.d && rec.p.y.n == r.at_y_num(rec.t)
                    &&& rec.p.z.d == rec.t.d && rec.p.z.n == r.at_z_num(rec.t)
                    &&& rec.mat == self.mat
                    &&& rec.normal.wide()
                    &&& rec.normal.sdot_num(r.direction) <= 0
                    &&& rec.front_face == (self.outward_dot_num(*r) < 0)
                    &&& rec.normal == (if rec.front_face {
                        self.outward_normal_spec(*r)
                    } else {
                        FVec3 {
                            x: Frac {
                                n: (-self.outward_normal_spec(*r).x.n) as i128,
                                d: self.outward_normal_spec(*r).x.d,
                            },
                            y: Frac {
                                n: (-self.outward_normal_spec(*r).y.n) as i128,
                                d: self.outward_normal_spec(*r).y.d,
                            },
                            z: Frac {
                                n: (-self.outward_normal_spec(*r).z.n) as i128,
                                d: self.outward_normal_spec(*r).z.d,
                            },
                        }
                    })
                    &&& rec.u.d > 0 && rec.u.n * self.det(*r) == self.u_num(*r) * rec.u.d
                    &&& rec.v.d > 0 && rec.v.n * self.det(*r) == self.v_num(*r) * rec.v.d
                },
                None => forall |t: Frac| t.d > 0 && frac_lt(t_min, t) && frac_lt(t, t_max)
                    ==> !#[trigger] self.hits_at_spec(*r, t),
            },
    {
        let ox = r.origin.x as i128;
        let oy = r.origin.y as i128;
        let oz = r.origin.z as i128;
        let dx = r.direction.x as i128;
        let dy = r.direction.y as i128;
        let dz = r.direction.z as i128;
        let e1x = self.e1.x as i128;
        let e1y = self.e1.y as i128;
        let e1z = self.e1.z as i128;
        let e2x = self.e2.x as i128;
        let e2y = self.e2.y as i128;
        let e2z = self.e2.z as i128;
        proof {
            crate::num::lemma_mul_bound(dy as int, e2z as int, 100_000, 200_000);
            crate::num::lemma_mul_bound(dz as int, e2y as int, 100_000, 200_000);
            crate::num::lemma_mul_bound(dz as int, e2x as int, 100_000, 200_000);
            crate::num::lemma_mul_bound(dx as int, e2z as int, 100_000, 200_000);
            crate::num::lemma_mul_bound(dx as int, e2y as int, 100_000, 200_000);
            crate::num::lemma_mul_bound(dy as int, e2x as int, 100_000, 200_000);
        }
        let hx = dy * e2z - dz * e2y;
        let hy = dz * e2x - dx * e2z;
        let hz = dx * e2y - dy * e2x;
        proof {
            crate::num::lemma_mul_bound(e1x as int, hx as int, 200_000, 40_000_000_000);
            crate::num::lemma_mul_bound(e1y as int, hy as int, 200_000, 40_000_000_000);
            crate::num::lemma_mul_bound(e1z as int, hz as int, 200_000, 40_000_000_000);
        }
        let a = e1x * hx + e1y * hy + e1z * hz;
        proof {
            assert(a == self.det(*r));
        }
        if a == 0 {
            return None;
        }
        let sx = ox - (self.p1.x as i128);
        let sy = oy - (self.p1.y as i128);
        let sz = oz - (self.p1.z as i128);
        proof {
            crate::num::lemma_mul_bound(sx as int, hx as int, 1_100_000, 40_000_000_000);
            crate::num::lemma_mul_bound(sy as int, hy as int, 1_100_000, 40_000_000_000);
            crate::num::lemma_mul_bound(sz as int, hz as int, 1_100_000, 40_000_000_000);
        }
        let u_n = sx * hx + sy * hy + sz * hz;
        proof {
            assert(u_n == self.u_num(*r));
        }
        if a > 0 && (u_n < 0 || u_n > a) {
            return None;
        }
        if a < 0 && (u_n > 0 || u_n < a) {
            return None;
        }
        proof {
            crate::num::lemma_mul_bound(sy as int, e1z as int, 1_100_000, 200_000);
            crate::num::lemma_mul_bound(sz as int, e1y as int, 1_100_000, 200_000);
            crate::num::lemma_mul_bound(sz as int, e1x as int, 1_100_000, 200_000);
            crate::num::lemma_mul_bound(sx as int, e1z as int, 1_100_000, 200_000);
            crate::num::lemma_mul_bound(sx as int, e1y as int, 1_100_000, 200_000);
            crate::num::lemma_mul_bound(sy as int, e1x as int, 1_100_000, 200_000);
        }
        let qx = sy * e1z - sz * e1y;
        let qy = sz * e1x - sx * e1z;
        let qz = sx * e1y - sy * e1x;
        proof {
            crate::num::lemma_mul_bound(dx as int, qx as int, 100_000, 440_000_000_000);
            crate::num::lemma_mul_bound(dy as int, qy as int, 100_000, 440_000_000_000);
            crate::num::lemma_mul_bound(dz as int, qz as int, 100_000, 440_000_000_000);
        }
        let v_n = dx * qx + dy * qy + dz * qz;
        proof {
            assert(qx == self.q_x(*r) && qy == self.q_y(*r) && qz == self.q_z(*r));
            assert(v_n == self.v_num(*r));
        }
        if a > 0 && (v_n < 0 || u_n + v_n > a) {
            return None;
        }
        if a < 0 && (v_n > 0 || u_n + v_n < a) {
            return None;
        }
        proof {
            crate::num::lemma_mul_bound(e2x as int, qx as int, 200_000, 440_000_000_000);
            crate::num::lemma_mul_bound(e2y as int, qy as int, 200_000, 440_000_000_000);
            crate::num::lemma_mul_bound(e2z as int, qz as int, 200_000, 440_000_000_000);
        }
        let t_n = e2x * qx + e2y * qy + e2z * qz;
        proof {
            assert(t_n == self.t_num(*r));
        }
        let t = if a > 0 {
            Frac { n: t_n, d: a }
        } else {
            Frac { n: -t_n, d: -a }
        };
        proof {
            assert(t.wf());
            assert(t.n * self.det(*r) == self.t_num(*r) * t.d) by (nonlinear_arith)
                requires
                    self.det(*r) != 0,
                    self.det(*r) > 0 ==> t.n == self.t_num(*r) && t.d == self.det(*r),
                    self.det(*r) < 0 ==> t.n == -self.t_num(*r) && t.d == -self.det(*r);
            assert forall |u: Frac| u.d > 0 && self.hits_at_spec(*r, u)
                implies #[trigger] frac_eq(t, u) by {
                assert(t.n * u.d == u.n * t.d) by (nonlinear_arith)
                    requires
                        u.d > 0,
                        t.d > 0,
                        self.det(*r) != 0,
                        u.n * self.det(*r) == self.t_num(*r) * u.d,
                        t.n * self.det(*r) == self.t_num(*r) * t.d;
            }
        }
        if !(t_min.lt(&t) && t.lt(&t_max)) {
            proof {
                assert forall |u: Frac| u.d > 0 && frac_lt(t_min, u) && frac_lt(u, t_max)
                    implies !#[trigger] self.hits_at_spec(*r, u) by {
                    if self.hits_at_spec(*r, u) {
                        assert(frac_eq(t, u));
                        if !frac_lt(t_min, t) {
                            assert(false) by (nonlinear_arith)
                                requires
                                    t.d > 0,
                                    u.d > 0,
                                    t_min.d > 0,
                                    t.n * u.d == u.n * t.d,
                                    t_min.n * u.d < u.n * t_min.d,
                                    !(t_min.n * t.d < t.n * t_min.d);
                        } else {
                            assert(false) by (nonlinear_arith)
                                requires
                                    t.d > 0,
                                    u.d > 0,
                                    t_max.d > 0,
                                    t.n * u.d == u.n * t.d,
                                    u.n * t_max.d < t_max.n * u.d,
                                    !(t.n * t_max.d < t_max.n * t.d);
                        }
                    }
                }
            }
            return None;
        }
        let p = r.at(t);
        let bx = self.bounding_box_corners();
        proof {
            crate::num::lemma_mul_bound(bx.0.x as int, t.d as int, COORD_MAX as int,
                FRAC_BOUND as int);
            crate::num::lemma_mul_bound(bx.0.y as int, t.d as int, COORD_MAX as int,
                FRAC_BOUND as int);
            crate::num::lemma_mul_bound(bx.0.z as int, t.d as int, COORD_MAX as int,
                FRAC_BOUND as int);
            crate::num::lemma_mul_bound(bx.1.x as int, t.d as int, COORD_MAX as int,
                FRAC_BOUND as int);
            crate::num::lemma_mul_bound(bx.1.y as int, t.d as int, COORD_MAX as int,
                FRAC_BOUND as int);
            crate::num::lemma_mul_bound(bx.1.z as int, t.d as int, COORD_MAX as int,
                FRAC_BOUND as int);
        }
        if p.x.n < (bx.0.x as i128) * t.d || p.x.n > (bx.1.x as i128) * t.d
            || p.y.n < (bx.0.y as i128) * t.d || p.y.n > (bx.1.y as i128) * t.d
            || p.z.n < (bx.0.z as i128) * t.d || p.z.n > (bx.1.z as i128) * t.d {
            proof {
                assert forall |u: Frac| u.d > 0 && frac_lt(t_min, u) && frac_lt(u, t_max)
                    implies !#[trigger] self.hits_at_spec(*r, u) by {
                    if self.hits_at_spec(*r, u) {
                        assert(frac_eq(t, u));
                        crate::aarect::lemma_scaled_axis(r.origin.x as int, r.direction.x as int,
                            min3(self.p1.x as int, self.p2.x as int, self.p3.x as int),
                            max3(self.p1.x as int, self.p2.x as int, self.p3.x as int), t, u);
                        crate::aarect::lemma_scaled_axis(r.origin.y as int, r.direction.y as int,
                            min3(self.p1.y as int, self.p2.y as int, self.p3.y as int),
                            max3(self.p1.y as int, self.p2.y as int, self.p3.y as int), t, u);
                        crate::aarect::lemma_scaled_axis(r.origin.z as int, r.direction.z as int,
                            min3(self.p1.z as int, self.p2.z as int, self.p3.z as int),
                            max3(self.p1.z as int, self.p2.z as int, self.p3.z as int), t, u);
                    }
                }
            }
            return None;
        }
        let outward = self.shading_normal(r, a, u_n, v_n);
        let mut rec = HitRecord {
            p,
            normal: outward,
            mat: self.mat,
            t,
            u: if a > 0 { Frac { n: u_n, d: a } } else { Frac { n: -u_n, d: -a } },
            v: if a > 0 { Frac { n: v_n, d: a } } else { Frac { n: -v_n, d: -a } },
            front_face: false,
        };
        rec.set_face_normal(r, &outward);
        proof {
            assert(outward == self.outward_normal_spec(*r));
            assert(outward.sdot_num(r.direction) == self.outward_dot_num(*r)) by {
                match self.norm {
                    Norm::Flat(n) => {
                        assert(outward.x.n == n.x && outward.y.n == n.y && outward.z.n == n.z);
                    }
                    Norm::Smooth(n1, n2, n3) => {
                        let ad = self.det(*r);
                        let ud = self.u_num(*r);
                        let vd = self.v_num(*r);
                        let s = (ad - ud - vd) * n1.sdot(r.direction)
                            + ud * n2.sdot(r.direction) + vd * n3.sdot(r.direction);
                        if a > 0 {
                            lemma_blend_dot(outward, n1, n2, n3, ad - ud - vd, ud, vd,
                                r.direction);
                            assert(outward.sdot_num(r.direction) == s);
                        } else {
                            lemma_blend_dot(outward, n1, n2, n3, -(ad - ud - vd), -ud, -vd,
                                r.direction);
                            assert((-(ad - ud - vd)) * n1.sdot(r.direction)
                                == -((ad - ud - vd) * n1.sdot(r.direction)))
                                by (nonlinear_arith);
                            assert((-ud) * n2.sdot(r.direction)
                                == -(ud * n2.sdot(r.direction))) by (nonlinear_arith);
                            assert((-vd) * n3.sdot(r.direction)
                                == -(vd * n3.sdot(r.direction))) by (nonlinear_arith);
                            assert(outward.sdot_num(r.direction) == -s);
                        }
                    }
                }
            }
            assert(rec.u.n * self.det(*r) == self.u_num(*r) * rec.u.d) by (nonlinear_arith)
                requires
                    self.det(*r) != 0,
                    self.det(*r) > 0 ==> rec.u.n == self.u_num(*r) && rec.u.d == self.det(*r),
                    self.det(*r) < 0 ==> rec.u.n == -self.u_num(*r) && rec.u.d == -self.det(*r);
            assert(rec.v.n * self.det(*r) == self.v_num(*r) * rec.v.d) by (nonlinear_arith)
                requires
                    self.det(*r) != 0,
                    self.det(*r) > 0 ==> rec.v.n == self.v_num(*r) && rec.v.d == self.det(*r),
                    self.det(*r) < 0 ==> rec.v.n == -self.v_num(*r) && rec.v.d == -self.det(*r);
            if outward.sdot_num(r.direction) < 0 {
                assert(rec.normal.sdot_num(r.direction) < 0);
            } else {
                assert(rec.normal.sdot_num(r.direction)
                    == -outward.x.n * r.direction.x + -outward.y.n * r.direction.y
                        + -outward.z.n * r.direction.z);
                assert(rec.normal.sdot_num(r.direction) <= 0) by (nonlinear_arith)
                    requires
                        outward.x.n * r.direction.x + outward.y.n * r.direction.y
                            + outward.z.n * r.direction.z >= 0,
                        rec.normal.sdot_num(r.direction)
                            == -outward.x.n * r.direction.x + -outward.y.n * r.direction.y
                                + -outward.z.n * r.direction.z;
            }
            assert forall |u: Frac| u.d > 0 && frac_lt(t_min, u) && frac_lt(u, t_max)
                && #[trigger] self.hits_at_spec(*r, u) implies frac_le(t, u) by {
                assert(frac_eq(t, u));
            }
        }
        Some(rec)
    }

    /// The vertex-box corners, smallest and largest per axis.
    fn bounding_box_corners(&self) -> (res: (Vec3, Vec3))
        requires
            self.wf(),
        ensures
            res.0.x == min3(self.p1.x as int, self.p2.x as int, self.p3.x as int),
            res.0.y == min3(self.p1.y as int, self.p2.y as int, self.p3.y as int),
            res.0.z == min3(self.p1.z as int, self.p2.z as int, self.p3.z as int),
            res.1.x == max3(self.p1.x as int, self.p2.x as int, self.p3.x as int),
            res.1.y == max3(self.p1.y as int, self.p2.y as int, self.p3.y as int),
            res.1.z == max3(self.p1.z as int, self.p2.z as int, self.p3.z as int),
    {
        let minx = if self.p1.x <= self.p2.x && self.p1.x <= self.p3.x { self.p1.x }
            else if self.p2.x <= self.p3.x { self.p2.x } else { self.p3.x };
        let miny = if self.p1.y <= self.p2.y && self.p1.y <= self.p3.y { self.p1.y }
            else if self.p2.y <= self.p3.y { self.p2.y } else { self.p3.y };
        let minz = if self.p1.z <= self.p2.z && self.p1.z <= self.p3.z { self.p1.z }
            else if self.p2.z <= self.p3.z { self.p2.z } else { self.p3.z };
        let maxx = if self.p1.x >= self.p2.x && self.p1.x >= self.p3.x { self.p1.x }
            else if self.p2.x >= self.p3.x { self.p2.x } else { self.p3.x };
        let maxy = if self.p1.y >= self.p2.y && self.p1.y >= self.p3.y { self.p1.y }
            else if self.p2.y >= self.p3.y { self.p2.y } else { self.p3.y };
        let maxz = if self.p1.z >= self.p2.z && self.p1.z >= self.p3.z { self.p1.z }
            else if self.p2.z >= self.p3.z { self.p2.z } else { self.p3.z };
        (Vec3 { x: minx, y: miny, z: minz }, Vec3 { x: maxx, y: maxy, z: maxz })
    }

    /// The outward shading normal at a hit with the given determinants:
    /// the flat normal, or the barycentric blend of the vertex normals
    /// over the determinant as shared denominator.
    fn shading_normal(&self, r: &Ray, a: i128, u_n: i128, v_n: i128) -> (res: FVec3)
        requires
            self.wf(),
            a != 0,
            -200_000_000_000_000_000 <= a <= 200_000_000_000_000_000,
            a > 0 ==> 0 <= u_n <= a && 0 <= v_n && u_n + v_n <= a,
            a < 0 ==> a <= u_n <= 0 && v_n <= 0 && a <= u_n + v_n,
        ensures
            res.wide(),
            match self.norm {
                Norm::Flat(n) => res.x.n == n.x && res.y.n == n.y && res.z.n == n.z
                    && res.x.d == 1 && res.y.d == 1 && res.z.d == 1,
                Norm::Smooth(n1, n2, n3) => {
                    let w1: int = if a > 0 { a - u_n - v_n } else { -(a - u_n - v_n) };
                    let w2: int = if a > 0 { u_n as int } else { -u_n };
                    let w3: int = if a > 0 { v_n as int } else { -v_n };
                    &&& res.x.n == n1.x * w1 + n2.x * w2 + n3.x * w3
                    &&& res.y.n == n1.y * w1 + n2.y * w2 + n3.y * w3
                    &&& res.z.n == n1.z * w1 + n2.z * w2 + n3.z * w3
                    &&& res.x.d == if a > 0 { a as int } else { -a }
                },
            },
    {
        match self.norm {
            Norm::Flat(n) => {
                proof {
                    crate::num::lemma_mul_bound(self.e1.y as int, self.e2.z as int,
                        200_000, 200_000);
                    crate::num::lemma_mul_bound(self.e1.z as int, self.e2.y as int,
                        200_000, 200_000);
                    crate::num::lemma_mul_bound(self.e1.z as int, self.e2.x as int,
                        200_000, 200_000);
                    crate::num::lemma_mul_bound(self.e1.x as int, self.e2.z as int,
                        200_000, 200_000);
                    crate::num::lemma_mul_bound(self.e1.x as int, self.e2.y as int,
                        200_000, 200_000);
                    crate::num::lemma_mul_bound(self.e1.y as int, self.e2.x as int,
                        200_000, 200_000);
                }
                FVec3 {
                    x: Frac { n: n.x as i128, d: 1 },
                    y: Frac { n: n.y as i128, d: 1 },
                    z: Frac { n: n.z as i128, d: 1 },
                }
            }
            Norm::Smooth(n1, n2, n3) => {
                let (w1, w2, w3, den): (i128, i128, i128, i128) = if a > 0 {
                    (a - u_n - v_n, u_n, v_n, a)
                } else {
                    (-(a - u_n - v_n), -u_n, -v_n, -a)
                };
                proof {
                    crate::num::lemma_mul_bound(n1.x as int, w1 as int, 100_000,
                        200_000_000_000_000_000);
                    crate::num::lemma_mul_bound(n1.y as int, w1 as int, 100_000,
                        200_000_000_000_000_000);
                    crate::num::lemma_mul_bound(n1.z as int, w1 as int, 100_000,
                        200_000_000_000_000_000);
                    crate::num::lemma_mul_bound(n2.x as int, w2 as int, 100_000,
                        200_000_000_000_000_000);
                    crate::num::lemma_mul_bound(n2.y as int, w2 as int, 100_000,
                        200_000_000_000_000_000);
                    crate::num::lemma_mul_bound(n2.z as int, w2 as int, 100_000,
                        200_000_000_000_000_000);
                    crate::num::lemma_mul_bound(n3.x as int, w3 as int, 100_000,
                        200_000_000_000_000_000);
                    crate::num::lemma_mul_bound(n3.y as int, w3 as int, 100_000,
                        200_000_000_000_000_000);
                    crate::num::lemma_mul_bound(n3.z as int, w3 as int, 100_000,
                        200_000_000_000_000_000);
                }
                FVec3 {
                    x: Frac { n: n1.x as i128 * w1 + n2.x as i128 * w2 + n3.x as i128 * w3, d: den },
                    y: Frac { n: n1.y as i128 * w1 + n2.y as i128 * w2 + n3.y as i128 * w3, d: den },
                    z: Frac { n: n1.z as i128 * w1 + n2.z as i128 * w2 + n3.z as i128 * w3, d: den },
                }
            }
        }
    }
}

/// The inner product of a barycentric blend of three vectors with a
/// direction is the blend of the three inner products.
proof fn lemma_blend_dot(outward: FVec3, n1: Vec3, n2: Vec3, n3: Vec3, w1: int, w2: int,
    w3: int, d: Vec3)
    requires
        outward.x.n == n1.x * w1 + n2.x * w2 + n3.x * w3,
        outward.y.n == n1.y * w1 + n2.y * w2 + n3.y * w3,
        outward.z.n == n1.z * w1 + n2.z * w2 + n3.z * w3,
    ensures
        outward.sdot_num(d) == w1 * n1.sdot(d) + w2 * n2.sdot(d) + w3 * n3.sdot(d),
{
    assert((n1.x * w1 + n2.x * w2 + n3.x * w3) * d.x
        == n1.x * w1 * d.x + n2.x * w2 * d.x + n3.x * w3 * d.x) by (nonlinear_arith);
    assert((n1.y * w1 + n2.y * w2 + n3.y * w3) * d.y
        == n1.y * w1 * d.y + n2.y * w2 * d.y + n3.y * w3 * d.y) by (nonlinear_arith);
    assert((n1.z * w1 + n2.z * w2 + n3.z * w3) * d.z
        == n1.z * w1 * d.z + n2.z * w2 * d.z + n3.z * w3 * d.z) by (nonlinear_arith);
    assert(n1.x * w1 * d.x == w1 * (n1.x * d.x)) by (nonlinear_arith);
    assert(n1.y * w1 * d.y == w1 * (n1.y * d.y)) by (nonlinear_arith);
    assert(n1.z * w1 * d.z == w1 * (n1.z * d.z)) by (nonlinear_arith);
    assert(n2.x * w2 * d.x == w2 * (n2.x * d.x)) by (nonlinear_arith);
    assert(n2.y * w2 * d.y == w2 * (n2.y * d.y)) by (nonlinear_arith);
    assert(n2.z * w2 * d.z == w2 * (n2.z * d.z)) by (nonlinear_arith);
    assert(n3.x * w3 * d.x == w3 * (n3.x * d.x)) by (nonlinear_arith);
    assert(n3.y * w3 * d.y == w3 * (n3.y * d.y)) by (nonlinear_arith);
    assert(n3.z * w3 * d.z == w3 * (n3.z * d.z)) by (nonlinear_arith);
    assert(w1 * n1.sdot(d) == w1 * (n1.x * d.x) + w1 * (n1.y * d.y) + w1 * (n1.z * d.z))
        by (nonlinear_arith);
    assert(w2 * n2.sdot(d) == w2 * (n2.x * d.x) + w2 * (n2.y * d.y) + w2 * (n2.z * d.z))
        by (nonlinear_arith);
    assert(w3 * n3.sdot(d) == w3 * (n3.x * d.x) + w3 * (n3.y * d.y) + w3 * (n3.z * d.z))
        by (nonlinear_arith);
}

} // verus!
