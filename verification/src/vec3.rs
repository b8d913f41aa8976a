//! Three-component vectors.
//!
//! `Vec3` carries integer components: scene geometry (corners, centers,
//! offsets, ray directions) lives on an integer grid in world units, which
//! keeps every intersection computation exact. `FVec3` carries rational
//! components and holds derived values such as hit points, oriented normals
//! and colors.

use vstd::prelude::*;
use crate::num::{Frac, FRAC_BOUND, POINT_BOUND};

verus! {

/// Largest magnitude of a scene coordinate or ray-direction component.
pub const COORD_MAX: i64 = 100_000;

/// Largest magnitude of a ray-origin component; the slack above `COORD_MAX`
/// absorbs the shifts that nested translation decorators apply.
pub const ORIGIN_MAX: i64 = 1_000_000;

#[derive(Clone, Copy, Debug, PartialEq, Eq, Structural)]
pub struct Vec3 {
    pub x: i64,
    pub y: i64,
    pub z: i64,
}

impl Vec3 {
    /// All components within `b`.
    pub open spec fn bounded(self, b: int) -> bool {
        &&& -b <= self.x <= b
        &&& -b <= self.y <= b
        &&& -b <= self.z <= b
    }

    /// The exact inner product, as a mathematical integer.
    pub open spec fn sdot(self, o: Vec3) -> int {
        self.x * o.x + self.y * o.y + self.z * o.z
    }

    pub fn new(x: i64, y: i64, z: i64) -> (r: Vec3)
        ensures
            r == (Vec3 { x, y, z }),
    {
        Vec3 { x, y, z }
    }

    pub fn zero() -> (r: Vec3)
        ensures
            r == (Vec3 { x: 0i64, y: 0i64, z: 0i64 }),
    {
        Vec3 { x: 0, y: 0, z: 0 }
    }

    pub fn x(&self) -> (r: i64)
        ensures
            r == self.x,
    {
        self.x
    }

    pub fn y(&self) -> (r: i64)
        ensures
            r == self.y,
    {
        self.y
    }

    pub fn z(&self) -> (r: i64)
        ensures
            r == self.z,
    {
        self.z
    }

    /// Componentwise sum.
    pub fn add(&self, o: &Vec3) -> (r: Vec3)
        requires
            self.bounded(1_000_000_000),
            o.bounded(1_000_000_000),
        ensures
            r.x == self.x + o.x,
            r.y == self.y + o.y,
            r.z == self.z + o.z,
    {
        Vec3 { x: self.x + o.x, y: self.y + o.y, z: self.z + o.z }
    }

    /// Componentwise difference.
    pub fn sub(&self, o: &Vec3) -> (r: Vec3)
        requires
            self.bounded(1_000_000_000),
            o.bounded(1_000_000_000),
        ensures
            r.x == self.x - o.x,
            r.y == self.y - o.y,
            r.z == self.z - o.z,
    {
        Vec3 { x: self.x - o.x, y: self.y - o.y, z: self.z - o.z }
    }

    /// Componentwise negation.
    pub fn neg(&self) -> (r: Vec3)
        requires
            self.bounded(1_000_000_000),
        ensures
            r.x == -self.x,
            r.y == -self.y,
            r.z == -self.z,
    {
        Vec3 { x: -self.x, y: -self.y, z: -self.z }
    }

    /// Scale every component by `k`.
    pub fn scale(&self, k: i64) -> (r: Vec3)
        requires
            self.bounded(1_000_000_000),
            -1_000_000_000 <= k <= 1_000_000_000,
        ensures
            r.x == self.x * k,
            r.y == self.y * k,
            r.z == self.z * k,
    {
        proof {
            crate::num::lemma_mul_bound(self.x as int, k as int, 1_000_000_000, 1_000_000_000);
            crate::num::lemma_mul_bound(self.y as int, k as int, 1_000_000_000, 1_000_000_000);
            crate::num::lemma_mul_bound(self.z as int, k as int, 1_000_000_000, 1_000_000_000);
        }
        Vec3 { x: self.x * k, y: self.y * k, z: self.z * k }
    }

    /// Exact inner product.
    pub fn dot(&self, o: &Vec3) -> (r: i64)
        requires
            self.bounded(1_000_000_000),
            o.bounded(1_000_000_000),
        ensures
            r == self.sdot(*o),
    {
        proof {
            crate::num::lemma_mul_bound(self.x as int, o.x as int, 1_000_000_000, 1_000_000_000);
            crate::num::lemma_mul_bound(self.y as int, o.y as int, 1_000_000_000, 1_000_000_000);
            crate::num::lemma_mul_bound(self.z as int, o.z as int, 1_000_000_000, 1_000_000_000);
        }
        self.x * o.x + self.y * o.y + self.z * o.z
    }

    /// Exact cross product.
    pub fn cross(&self, o: &Vec3) -> (r: Vec3)
        requires
            self.bounded(1_000_000_000),
            o.bounded(1_000_000_000),
        ensures
            r.x == self.y * o.z - self.z * o.y,
            r.y == self.z * o.x - self.x * o.z,
            r.z == self.x * o.y - self.y * o.x,
    {
        proof {
            crate::num::lemma_mul_bound(self.x as int, o.y as int, 1_000_000_000, 1_000_000_000);
            crate::num::lemma_mul_bound(self.x as int, o.z as int, 1_000_000_000, 1_000_000_000);
            crate::num::lemma_mul_bound(self.y as int, o.x as int, 1_000_000_000, 1_000_000_000);
            crate::num::lemma_mul_bound(self.y as int, o.z as int, 1_000_000_000, 1_000_000_000);
            crate::num::lemma_mul_bound(self.z as int, o.x as int, 1_000_000_000, 1_000_000_000);
            crate::num::lemma_mul_bound(self.z as int, o.y as int, 1_000_000_000, 1_000_000_000);
        }
        Vec3 {
            x: self.y * o.z - self.z * o.y,
            y: self.z * o.x - self.x * o.z,
            z: self.x * o.y - self.y * o.x,
        }
    }
}

/// The inner product of an axis-aligned unit normal with an integer vector
/// is the matching component, up to the normal's sign.
pub proof fn lemma_sdot_axis_x(nv: FVec3, v: Vec3)
    requires
        nv.y.n == 0,
        nv.z.n == 0,
    ensures
        nv.x.n == 1 ==> nv.sdot_num(v) == v.x,
        nv.x.n == -1 ==> nv.sdot_num(v) == -(v.x as int),
{
    assert(nv.x.n == 1 ==> nv.x.n * v.x + nv.y.n * v.y + nv.z.n * v.z == v.x)
        by (nonlinear_arith)
        requires
            nv.y.n == 0,
            nv.z.n == 0;
    assert(nv.x.n == -1 ==> nv.x.n * v.x + nv.y.n * v.y + nv.z.n * v.z == -(v.x as int))
        by (nonlinear_arith)
        requires
            nv.y.n == 0,
            nv.z.n == 0;
}

pub proof fn lemma_sdot_axis_y(nv: FVec3, v: Vec3)
    requires
        nv.x.n == 0,
        nv.z.n == 0,
    ensures
        nv.y.n == 1 ==> nv.sdot_num(v) == v.y,
        nv.y.n == -1 ==> nv.sdot_num(v) == -(v.y as int),
{
    assert(nv.y.n == 1 ==> nv.x.n * v.x + nv.y.n * v.y + nv.z.n * v.z == v.y)
        by (nonlinear_arith)
        requires
            nv.x.n == 0,
            nv.z.n == 0;
    assert(nv.y.n == -1 ==> nv.x.n * v.x + nv.y.n * v.y + nv.z.n * v.z == -(v.y as int))
        by (nonlinear_arith)
        requires
            nv.x.n == 0,
            nv.z.n == 0;
}

pub proof fn lemma_sdot_axis_z(nv: FVec3, v: Vec3)
    requires
        nv.x.n == 0,
        nv.y.n == 0,
    ensures
        nv.z.n == 1 ==> nv.sdot_num(v) == v.z,
        nv.z.n == -1 ==> nv.sdot_num(v) == -(v.z as int),
{
    assert(nv.z.n == 1 ==> nv.x.n * v.x + nv.y.n * v.y + nv.z.n * v.z == v.z)
        by (nonlinear_arith)
        requires
            nv.x.n == 0,
            nv.y.n == 0;
    assert(nv.z.n == -1 ==> nv.x.n * v.x + nv.y.n * v.y + nv.z.n * v.z == -(v.z as int))
        by (nonlinear_arith)
        requires
            nv.x.n == 0,
            nv.y.n == 0;
}

/// A vector of exact rationals: hit points, oriented normals, colors.
#[derive(Clone, Copy, Debug)]
pub struct FVec3 {
    pub x: Frac,
    pub y: Frac,
    pub z: Frac,
}

impl FVec3 {
    /// Every component within the standard fraction bounds.
    pub open spec fn wf(self) -> bool {
        &&& self.x.wf()
        &&& self.y.wf()
        &&& self.z.wf()
    }

    /// Every component within the wide point bounds, sharing one positive
    /// denominator. Derived points and normals satisfy this.
    pub open spec fn wide(self) -> bool {
        &&& self.x.wide()
        &&& self.y.wide()
        &&& self.z.wide()
        &&& self.x.d == self.y.d
        &&& self.y.d == self.z.d
    }

    /// An integer vector, embedded with denominator 1.
    pub fn from_vec3(v: &Vec3) -> (r: FVec3)
        requires
            v.bounded(1_000_000_000),
        ensures
            r.x.n == v.x && r.y.n == v.y && r.z.n == v.z,
            r.x.d == 1 && r.y.d == 1 && r.z.d == 1,
            r.wf(),
            r.wide(),
    {
        FVec3 {
            x: Frac { n: v.x as i128, d: 1 },
            y: Frac { n: v.y as i128, d: 1 },
            z: Frac { n: v.z as i128, d: 1 },
        }
    }

    /// The inner product with an integer vector, given a shared denominator:
    /// its sign is the sign of the rational inner product.
    pub open spec fn sdot_num(self, v: Vec3) -> int {
        self.x.n * v.x + self.y.n * v.y + self.z.n * v.z
    }

    /// Numerator of the inner product with an integer vector over the shared
    /// denominator; the denominator is positive, so the sign of the result
    /// is the sign of the true inner product.
    pub fn dot_vec3_num(&self, v: &Vec3) -> (r: i128)
        requires
            self.wide(),
            v.bounded(COORD_MAX as int),
        ensures
            r == self.sdot_num(*v),
    {
        proof {
            crate::num::lemma_mul_bound(self.x.n as int, v.x as int, POINT_BOUND as int, COORD_MAX as int);
            crate::num::lemma_mul_bound(self.y.n as int, v.y as int, POINT_BOUND as int, COORD_MAX as int);
            crate::num::lemma_mul_bound(self.z.n as int, v.z as int, POINT_BOUND as int, COORD_MAX as int);
        }
        self.x.n * (v.x as i128) + self.y.n * (v.y as i128) + self.z.n * (v.z as i128)
    }

    /// Componentwise negation.
    pub fn neg(&self) -> (r: FVec3)
        requires
            self.x.wide(),
            self.y.wide(),
            self.z.wide(),
        ensures
            r.x.n == -self.x.n && r.x.d == self.x.d,
            r.y.n == -self.y.n && r.y.d == self.y.d,
            r.z.n == -self.z.n && r.z.d == self.z.d,
    {
        FVec3 {
            x: Frac { n: -self.x.n, d: self.x.d },
            y: Frac { n: -self.y.n, d: self.y.d },
            z: Frac { n: -self.z.n, d: self.z.d },
        }
    }
}

/// The mirror reflection of `v` about the normal `n`, scaled by the
/// squared length of `n` so it stays on the integer grid: the direction of
/// `v - 2 (v . n) n / |n|^2`, exactly.
pub fn reflect(v: &Vec3, n: &Vec3) -> (r: Vec3)
    requires
        v.bounded(100_000),
        n.bounded(100_000),
    ensures
        r.x == v.x * n.sdot(*n) - n.x * (2 * v.sdot(*n)),
        r.y == v.y * n.sdot(*n) - n.y * (2 * v.sdot(*n)),
        r.z == v.z * n.sdot(*n) - n.z * (2 * v.sdot(*n)),
{
    proof {
        crate::num::lemma_mul_bound(n.x as int, n.x as int, 100_000, 100_000);
        crate::num::lemma_mul_bound(n.y as int, n.y as int, 100_000, 100_000);
        crate::num::lemma_mul_bound(n.z as int, n.z as int, 100_000, 100_000);
        crate::num::lemma_mul_bound(v.x as int, n.x as int, 100_000, 100_000);
        crate::num::lemma_mul_bound(v.y as int, n.y as int, 100_000, 100_000);
        crate::num::lemma_mul_bound(v.z as int, n.z as int, 100_000, 100_000);
        crate::num::lemma_mul_bound(v.x as int, n.sdot(*n), 100_000, 30_000_000_000);
        crate::num::lemma_mul_bound(v.y as int, n.sdot(*n), 100_000, 30_000_000_000);
        crate::num::lemma_mul_bound(v.z as int, n.sdot(*n), 100_000, 30_000_000_000);
        crate::num::lemma_mul_bound(n.x as int, 2 * v.sdot(*n), 100_000, 60_000_000_000);
        crate::num::lemma_mul_bound(n.y as int, 2 * v.sdot(*n), 100_000, 60_000_000_000);
        crate::num::lemma_mul_bound(n.z as int, 2 * v.sdot(*n), 100_000, 60_000_000_000);
    }
    let nn = n.x * n.x + n.y * n.y + n.z * n.z;
    let vn2 = 2 * (v.x * n.x + v.y * n.y + v.z * n.z);
    Vec3 {
        x: v.x * nn - n.x * vn2,
        y: v.y * nn - n.y * vn2,
        z: v.z * nn - n.z * vn2,
    }
}

} // verus!
