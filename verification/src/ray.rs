//! Rays: an integer origin, an integer direction and a timestamp.
//!
//! The point at parameter `t = n/d` along a ray has the exact rational
//! coordinates `(origin * d + n * direction) / d` in each component.

use vstd::prelude::*;
use crate::num::Frac;
use crate::vec3::{Vec3, FVec3, COORD_MAX, ORIGIN_MAX};

verus! {

#[derive(Clone, Copy, Debug)]
pub struct Ray {
    pub origin: Vec3,
    pub direction: Vec3,
    pub time: Frac,
}

impl Ray {
    /// Origin within `b`, direction within `COORD_MAX`, and a well-formed
    /// timestamp. The origin bound shrinks as translation decorators
    /// shift a ray on its way down a scene graph.
    pub open spec fn bounded(self, b: int) -> bool {
        &&& self.origin.bounded(b)
        &&& self.direction.bounded(COORD_MAX as int)
        &&& self.time.wf()
    }

    /// The bound that rays handed to the library obey.
    pub open spec fn wf(self) -> bool {
        self.bounded(ORIGIN_MAX as int - 5 * COORD_MAX as int)
    }

    pub fn new(origin: Vec3, direction: Vec3) -> (r: Ray)
        ensures
            r.origin == origin,
            r.direction == direction,
            r.time.n == 0 && r.time.d == 1,
    {
        Ray { origin, direction, time: Frac { n: 0, d: 1 } }
    }

    pub fn new_timed(origin: Vec3, direction: Vec3, time: Frac) -> (r: Ray)
        ensures
            r == (Ray { origin, direction, time }),
    {
        Ray { origin, direction, time }
    }

    pub fn origin(&self) -> (r: Vec3)
        ensures
            r == self.origin,
    {
        self.origin
    }

    pub fn direction(&self) -> (r: Vec3)
        ensures
            r == self.direction,
    {
        self.direction
    }

    pub fn time(&self) -> (r: Frac)
        ensures
            r == self.time,
    {
        self.time
    }

    /// The exact coordinates of the point at parameter `t`, for spec use:
    /// component `c` is `at_num(c) / t.d`.
    pub open spec fn at_x_num(self, t: Frac) -> int {
        self.origin.x * t.d + t.n * self.direction.x
    }

    pub open spec fn at_y_num(self, t: Frac) -> int {
        self.origin.y * t.d + t.n * self.direction.y
    }

    pub open spec fn at_z_num(self, t: Frac) -> int {
        self.origin.z * t.d + t.n * self.direction.z
    }

    /// The point at parameter `t`, with all three components over the
    /// denominator of `t`.
    pub fn at(&self, t: Frac) -> (r: FVec3)
        requires
            self.bounded(ORIGIN_MAX as int),
            t.wf(),
        ensures
            r.x.n == self.at_x_num(t) && r.x.d == t.d,
            r.y.n == self.at_y_num(t) && r.y.d == t.d,
            r.z.n == self.at_z_num(t) && r.z.d == t.d,
            r.wide(),
    {
        proof {
            crate::num::lemma_mul_bound(self.origin.x as int, t.d as int, ORIGIN_MAX as int, crate::num::FRAC_BOUND as int);
            crate::num::lemma_mul_bound(self.origin.y as int, t.d as int, ORIGIN_MAX as int, crate::num::FRAC_BOUND as int);
            crate::num::lemma_mul_bound(self.origin.z as int, t.d as int, ORIGIN_MAX as int, crate::num::FRAC_BOUND as int);
            crate::num::lemma_mul_bound(t.n as int, self.direction.x as int, crate::num::FRAC_BOUND as int, COORD_MAX as int);
            crate::num::lemma_mul_bound(t.n as int, self.direction.y as int, crate::num::FRAC_BOUND as int, COORD_MAX as int);
            crate::num::lemma_mul_bound(t.n as int, self.direction.z as int, crate::num::FRAC_BOUND as int, COORD_MAX as int);
        }
        FVec3 {
            x: Frac { n: (self.origin.x as i128) * t.d + t.n * (self.direction.x as i128), d: t.d },
            y: Frac { n: (self.origin.y as i128) * t.d + t.n * (self.direction.y as i128), d: t.d },
            z: Frac { n: (self.origin.z as i128) * t.d + t.n * (self.direction.z as i128), d: t.d },
        }
    }
}

} // verus!
