//! Surface records and the scene-node contract.
//!
//! Every intersection test produces a `HitRecord`: the hit point, the
//! oriented normal, the struck material, the parametric distance and the
//! surface coordinates. The stored normal always faces the side the ray
//! arrived from; `set_face_normal` derives the orientation by the sign of
//! the inner product between the ray direction and the outward normal.

use vstd::prelude::*;
use crate::num::{Frac, frac_le, frac_lt};
use crate::aabb::{AABB, PRIM_BOX_MAX, EMPTY_MIN, EMPTY_MAX, axis_contains};
use crate::material::Material;
use crate::ray::Ray;
use crate::vec3::{Vec3, FVec3, COORD_MAX, ORIGIN_MAX};

verus! {

#[derive(Clone, Copy, Debug)]
pub struct HitRecord {
    /// The hit point, over the denominator of `t`.
    pub p: FVec3,
    /// The stored normal, oriented against the arriving ray.
    pub normal: FVec3,
    /// The struck material.
    pub mat: Material,
    /// Parametric distance of the hit along the ray.
    pub t: Frac,
    /// Surface coordinates of the hit.
    pub u: Frac,
    pub v: Frac,
    /// Whether the ray struck the side the outward normal points toward.
    pub front_face: bool,
}

impl HitRecord {
    /// Orient the stored normal: if the ray direction and the outward
    /// normal point toward each other, the hit is front-facing and the
    /// outward normal is stored; otherwise its negation is stored.
    pub fn set_face_normal(&mut self, r: &Ray, outward_normal: &FVec3)
        requires
            outward_normal.wide(),
            r.direction.bounded(COORD_MAX as int),
        ensures
            final(self).front_face == (outward_normal.sdot_num(r.direction) < 0),
            final(self).normal == if outward_normal.sdot_num(r.direction) < 0 {
                *outward_normal
            } else {
                FVec3 {
                    x: Frac { n: (-outward_normal.x.n) as i128, d: outward_normal.x.d },
                    y: Frac { n: (-outward_normal.y.n) as i128, d: outward_normal.y.d },
                    z: Frac { n: (-outward_normal.z.n) as i128, d: outward_normal.z.d },
                }
            },
            final(self).normal.wide(),
            final(self).p == old(self).p,
            final(self).mat == old(self).mat,
            final(self).t == old(self).t,
            final(self).u == old(self).u,
            final(self).v == old(self).v,
    {
        let d = outward_normal.dot_vec3_num(&r.direction);
        self.front_face = d < 0;
        self.normal = if d < 0 {
            *outward_normal
        } else {
            outward_normal.neg()
        };
    }
}

/// Shifting a decorator moves the ray the opposite way before delegating.
pub open spec fn shift_ray(r: Ray, off: Vec3) -> Ray {
    Ray {
        origin: Vec3 {
            x: (r.origin.x - off.x) as i64,
            y: (r.origin.y - off.y) as i64,
            z: (r.origin.z - off.z) as i64,
        },
        direction: r.direction,
        time: r.time,
    }
}

/// One quarter turn about the Y axis, carrying world coordinates into the
/// rotated object's coordinates.
pub open spec fn yaw_vec(v: Vec3) -> Vec3 {
    Vec3 { x: v.z, y: v.y, z: (-v.x) as i64 }
}

pub open spec fn yaw_ray(r: Ray) -> Ray {
    Ray { origin: yaw_vec(r.origin), direction: yaw_vec(r.direction), time: r.time }
}

/// `k` quarter turns of the ray into object space.
pub open spec fn yaw_ray_n(r: Ray, k: int) -> Ray
    decreases k,
{
    if k <= 0 {
        r
    } else {
        yaw_ray(yaw_ray_n(r, k - 1))
    }
}

/// The world-space box whose object-space image under one quarter turn is
/// `b`.
pub open spec fn unyaw_box(b: AABB) -> AABB {
    AABB {
        min: Vec3 { x: (-b.max.z) as i64, y: b.min.y, z: b.min.x },
        max: Vec3 { x: (-b.min.z) as i64, y: b.max.y, z: b.max.x },
    }
}

pub open spec fn unyaw_box_n(b: AABB, k: int) -> AABB
    decreases k,
{
    if k <= 0 {
        b
    } else {
        unyaw_box(unyaw_box_n(b, k - 1))
    }
}

/// Translation decorator: shifts the ray by the negated offset before
/// delegating, and shifts the returned point back.
pub struct Translate {
    pub object: Box<Hittable>,
    pub offset: Vec3,
}

/// Rotation decorator about the Y axis, restricted to quarter turns, the
/// rotations an integer grid admits exactly.
pub struct RotateY {
    pub object: Box<Hittable>,
    pub turns: u8,
}

/// Inverts the front-face flag of the child's result without altering the
/// normal vector, so a light emits toward an enclosure's interior.
pub struct FlipFace {
    pub object: Box<Hittable>,
}

/// The linear aggregate: tests every child and keeps the closest hit.
pub struct HittableList {
    pub objects: Vec<Hittable>,
}

/// A node of the bounding volume hierarchy: two children and a box that
/// covers every surface point of both.
pub struct BVHNode {
    pub left: Box<Hittable>,
    pub right: Box<Hittable>,
    pub aabb_box: AABB,
}

/// A scene node: a primitive, an aggregate, or a decorator.
pub enum Hittable {
    XYRect(crate::aarect::XYRect),
    XZRect(crate::aarect::XZRect),
    YZRect(crate::aarect::YZRect),
    Tri(crate::triangle::Triangle),
    Translate(Translate),
    RotateY(RotateY),
    FlipFace(FlipFace),
    List(HittableList),
    Bvh(BVHNode),
}

impl Hittable {
    /// The ray meets this node's surface at parameter `t`.
    pub open spec fn hits_at(self, r: Ray, t: Frac) -> bool
        decreases self,
    {
        match self {
            Hittable::XYRect(rect) => rect.hits_at_spec(r, t),
            Hittable::XZRect(rect) => rect.hits_at_spec(r, t),
            Hittable::YZRect(rect) => rect.hits_at_spec(r, t),
            Hittable::Tri(tri) => tri.hits_at_spec(r, t),
            Hittable::Translate(tr) => (*tr.object).hits_at(shift_ray(r, tr.offset), t),
            Hittable::RotateY(ro) => (*ro.object).hits_at(yaw_ray_n(r, ro.turns as int), t),
            Hittable::FlipFace(f) => (*f.object).hits_at(r, t),
            Hittable::List(l) => exists |i: int| 0 <= i < l.objects@.len()
                && (#[trigger] l.objects@[i]).hits_at(r, t),
            Hittable::Bvh(b) => (*b.left).hits_at(r, t) || (*b.right).hits_at(r, t),
        }
    }

    /// The ray meets this node at parameter `t` on a surface carrying the
    /// material `m`.
    pub open spec fn hits_mat(self, r: Ray, t: Frac, m: Material) -> bool
        decreases self,
    {
        match self {
            Hittable::XYRect(rect) => rect.hits_at_spec(r, t) && m == rect.mat,
            Hittable::XZRect(rect) => rect.hits_at_spec(r, t) && m == rect.mat,
            Hittable::YZRect(rect) => rect.hits_at_spec(r, t) && m == rect.mat,
            Hittable::Tri(tri) => tri.hits_at_spec(r, t) && m == tri.mat,
            Hittable::Translate(tr) => (*tr.object).hits_mat(shift_ray(r, tr.offset), t, m),
            Hittable::RotateY(ro) => (*ro.object).hits_mat(yaw_ray_n(r, ro.turns as int), t, m),
            Hittable::FlipFace(f) => (*f.object).hits_mat(r, t, m),
            Hittable::List(l) => exists |i: int| 0 <= i < l.objects@.len()
                && (#[trigger] l.objects@[i]).hits_mat(r, t, m),
            Hittable::Bvh(b) => (*b.left).hits_mat(r, t, m) || (*b.right).hits_mat(r, t, m),
        }
    }

    /// The ray meets this node at parameter `t` and the hit is reported
    /// with front-face flag `f`: a primitive compares the ray direction
    /// against its outward normal, a face-flip decorator inverts the
    /// child's flag without touching the normal, and the other nodes pass
    /// the flag through.
    pub open spec fn hits_front(self, r: Ray, t: Frac, f: bool) -> bool
        decreases self,
    {
        match self {
            Hittable::XYRect(rect) => rect.hits_at_spec(r, t) && f == (r.direction.z < 0),
            Hittable::XZRect(rect) => rect.hits_at_spec(r, t) && f == (r.direction.y < 0),
            Hittable::YZRect(rect) => rect.hits_at_spec(r, t) && f == (r.direction.x < 0),
            Hittable::Tri(tri) => tri.hits_at_spec(r, t) && f == (tri.outward_dot_num(r) < 0),
            Hittable::Translate(tr) => (*tr.object).hits_front(shift_ray(r, tr.offset), t, f),
            Hittable::RotateY(ro) => (*ro.object).hits_front(yaw_ray_n(r, ro.turns as int), t, f),
            Hittable::FlipFace(fl) => (*fl.object).hits_front(r, t, !f),
            Hittable::List(l) => exists |i: int| 0 <= i < l.objects@.len()
                && (#[trigger] l.objects@[i]).hits_front(r, t, f),
            Hittable::Bvh(b) => (*b.left).hits_front(r, t, f) || (*b.right).hits_front(r, t, f),
        }
    }

    /// The exact box this node reports, or none for an aggregate with an
    /// empty branch: primitives report their own extent, a translation
    /// shifts its child's box, a rotation turns it back, an aggregate
    /// merges its members' boxes progressively from the empty sentinel,
    /// and a hierarchy node reports its stored box.
    pub open spec fn box_model(self) -> Option<AABB>
        decreases self,
    {
        match self {
            Hittable::XYRect(rect) => Option::Some(rect.box_spec()),
            Hittable::XZRect(rect) => Option::Some(rect.box_spec()),
            Hittable::YZRect(rect) => Option::Some(rect.box_spec()),
            Hittable::Tri(tri) => Option::Some(tri.box_spec()),
            Hittable::Translate(tr) => match (*tr.object).box_model() {
                Option::Some(cb) => Option::Some(AABB {
                    min: Vec3 {
                        x: (cb.min.x + tr.offset.x) as i64,
                        y: (cb.min.y + tr.offset.y) as i64,
                        z: (cb.min.z + tr.offset.z) as i64,
                    },
                    max: Vec3 {
                        x: (cb.max.x + tr.offset.x) as i64,
                        y: (cb.max.y + tr.offset.y) as i64,
                        z: (cb.max.z + tr.offset.z) as i64,
                    },
                }),
                Option::None => Option::None,
            },
            Hittable::RotateY(ro) => match (*ro.object).box_model() {
                Option::Some(cb) => Option::Some(unyaw_box_n(cb, ro.turns as int)),
                Option::None => Option::None,
            },
            Hittable::FlipFace(f) => (*f.object).box_model(),
            Hittable::List(l) => if l.objects@.len() == 0 {
                Option::None
            } else {
                list_box_model(l.objects@)
            },
            Hittable::Bvh(b) => Option::Some(b.aabb_box),
        }
    }

    /// The box `bx` contains every surface point that a ray within the
    /// given origin bound can meet on this node.
    pub open spec fn covered_within(self, bx: AABB, ob: int) -> bool {
        forall |r: Ray, t: Frac| r.origin.bounded(ob) && r.direction.bounded(COORD_MAX as int)
            && t.d > 0 && #[trigger] self.hits_at(r, t) ==> bx.contains_at(r, t)
    }

    /// The box `bx` contains every surface point of this node that the
    /// rays the library admits can meet.
    pub open spec fn covered_by(self, bx: AABB) -> bool {
        self.covered_within(bx, ORIGIN_MAX as int - 5 * COORD_MAX as int)
    }

    /// No hierarchy node anywhere in this subtree. A translation decorator
    /// wraps placed objects, not a hierarchy; that keeps the origin
    /// headroom accounting closed.
    pub open spec fn bvh_free(self) -> bool
        decreases self,
    {
        match self {
            Hittable::Translate(tr) => (*tr.object).bvh_free(),
            Hittable::RotateY(ro) => (*ro.object).bvh_free(),
            Hittable::FlipFace(f) => (*f.object).bvh_free(),
            Hittable::List(l) => forall |i: int| 0 <= i < l.objects@.len()
                ==> (#[trigger] l.objects@[i]).bvh_free(),
            Hittable::Bvh(_) => false,
            _ => true,
        }
    }

    /// Structural well-formedness: primitives in range, decorators over
    /// well-formed children, hierarchy boxes covering their subtrees.
    pub open spec fn wf(self) -> bool
        decreases self,
    {
        match self {
            Hittable::XYRect(rect) => rect.wf(),
            Hittable::XZRect(rect) => rect.wf(),
            Hittable::YZRect(rect) => rect.wf(),
            Hittable::Tri(tri) => tri.wf(),
            Hittable::Translate(tr) => tr.offset.bounded(COORD_MAX as int) && (*tr.object).wf()
                && (*tr.object).bvh_free(),
            Hittable::RotateY(ro) => ro.turns < 4 && (*ro.object).wf(),
            Hittable::FlipFace(f) => (*f.object).wf(),
            Hittable::List(l) => forall |i: int| 0 <= i < l.objects@.len()
                ==> (#[trigger] l.objects@[i]).wf(),
            Hittable::Bvh(b) => (*b.left).wf() && (*b.right).wf()
                && b.aabb_box.bounded_box()
                && b.aabb_box.min.bounded(PRIM_BOX_MAX as int + 5 * COORD_MAX as int)
                && b.aabb_box.max.bounded(PRIM_BOX_MAX as int + 5 * COORD_MAX as int)
                && (*b.left).covered_by(b.aabb_box)
                && (*b.right).covered_by(b.aabb_box),
        }
    }

    /// At most `budget` nested translation decorators above any leaf, so a
    /// bounded ray origin stays bounded on the way down.
    pub open spec fn depth_ok(self, budget: int) -> bool
        decreases self,
    {
        match self {
            Hittable::Translate(tr) => budget >= 1 && (*tr.object).depth_ok(budget - 1),
            Hittable::RotateY(ro) => (*ro.object).depth_ok(budget),
            Hittable::FlipFace(f) => (*f.object).depth_ok(budget),
            Hittable::List(l) => forall |i: int| 0 <= i < l.objects@.len()
                ==> (#[trigger] l.objects@[i]).depth_ok(budget),
            Hittable::Bvh(b) => (*b.left).depth_ok(budget) && (*b.right).depth_ok(budget),
            _ => true,
        }
    }

    /// Whether this node reports a bounding box: everything does except an
    /// aggregate with an empty branch.
    pub open spec fn boxed(self) -> bool
        decreases self,
    {
        match self {
            Hittable::Translate(tr) => (*tr.object).boxed(),
            Hittable::RotateY(ro) => (*ro.object).boxed(),
            Hittable::FlipFace(f) => (*f.object).boxed(),
            Hittable::List(l) => l.objects@.len() > 0 && forall |i: int| 0 <= i < l.objects@.len()
                ==> (#[trigger] l.objects@[i]).boxed(),
            Hittable::Bvh(_) => true,
            _ => true,
        }
    }

    /// The clauses every successful hit's record satisfies: a well-formed
    /// parametric distance at which the node is really met, the hit point
    /// exactly on the ray at that distance, the material of the struck
    /// surface, a stored normal facing against the ray, and the front-face
    /// flag the struck surface derives, inverted once per face-flip
    /// decorator above it.
    pub open spec fn record_ok(self, r: Ray, rec: HitRecord) -> bool {
        &&& rec.t.wf()
        &&& self.hits_at(r, rec.t)
        &&& rec.p.x.d == rec.t.d && rec.p.x.n == r.at_x_num(rec.t)
        &&& rec.p.y.d == rec.t.d && rec.p.y.n == r.at_y_num(rec.t)
        &&& rec.p.z.d == rec.t.d && rec.p.z.n == r.at_z_num(rec.t)
        &&& rec.normal.wide()
        &&& rec.normal.sdot_num(r.direction) <= 0
        &&& self.hits_mat(r, rec.t, rec.mat)
        &&& self.hits_front(r, rec.t, rec.front_face)
    }

    /// The closest intersection with parametric distance in the open
    /// interval `(t_min, t_max)`, or none.
    pub fn hit(&self, r: &Ray, t_min: Frac, t_max: Frac) -> (res: Option<HitRecord>)
        requires
            self.wf(),
            self.depth_ok(5),
            r.wf(),
            t_min.wf(),
            t_max.wf(),
        ensures
            match res {
                Some(rec) => {
                    &&& self.record_ok(*r, rec)
                    &&& frac_lt(t_min, rec.t) && frac_lt(rec.t, t_max)
                    &&& forall |t: Frac| t.d > 0 && frac_lt(t_min, t) && frac_lt(t, t_max)
                        && #[trigger] self.hits_at(*r, t) ==> frac_le(rec.t, t)
                },
                None => forall |t: Frac| t.d > 0 && frac_lt(t_min, t) && frac_lt(t, t_max)
                    ==> !#[trigger] self.hits_at(*r, t),
            },
    {
        self.hit_in(r, t_min, t_max, Ghost(5))
    }

    /// Recursive worker for `hit`; the ghost budget tracks how much origin
    /// headroom the remaining translation decorators may consume.
    pub fn hit_in(&self, r: &Ray, t_min: Frac, t_max: Frac, budget: Ghost<int>) -> (res: Option<HitRecord>)
        requires
            self.wf(),
            0 <= budget@ <= 5,
            self.depth_ok(budget@),
            !self.bvh_free() ==> budget@ == 5,
            r.direction.bounded(COORD_MAX as int),
            r.origin.bounded(ORIGIN_MAX as int - budget@ * COORD_MAX as int),
            r.time.wf(),
            t_min.wf(),
            t_max.wf(),
        ensures
            match res {
                Some(rec) => {
                    &&& self.record_ok(*r, rec)
                    &&& frac_lt(t_min, rec.t) && frac_lt(rec.t, t_max)
                    &&& forall |t: Frac| t.d > 0 && frac_lt(t_min, t) && frac_lt(t, t_max)
                        && #[trigger] self.hits_at(*r, t) ==> frac_le(rec.t, t)
                },
                None => forall |t: Frac| t.d > 0 && frac_lt(t_min, t) && frac_lt(t, t_max)
                    ==> !#[trigger] self.hits_at(*r, t),
            },
        decreases *self,
    {
        proof {
            assert(ORIGIN_MAX as int - budget@ * COORD_MAX as int <= ORIGIN_MAX as int)
                by (nonlinear_arith)
                requires
                    0 <= budget@;
        }
        match self {
            Hittable::XYRect(rect) => {
                let res = rect.hit(r, t_min, t_max);
                proof {
                    assert(forall |t2: Frac| #[trigger] self.hits_at(*r, t2)
                        == rect.hits_at_spec(*r, t2));
                    match res {
                        Some(rec) => {
                            assert(self.hits_mat(*r, rec.t, rec.mat));
                            assert(self.hits_front(*r, rec.t, rec.front_face));
                            assert forall |t2: Frac| t2.d > 0 && frac_lt(t_min, t2)
                                && frac_lt(t2, t_max) && #[trigger] self.hits_at(*r, t2)
                                implies frac_le(rec.t, t2) by {
                                assert(rect.hits_at_spec(*r, t2));
                            }
                        }
                        None => {
                            assert forall |t2: Frac| t2.d > 0 && frac_lt(t_min, t2)
                                && frac_lt(t2, t_max) implies !#[trigger] self.hits_at(*r, t2) by {
                                if self.hits_at(*r, t2) {
                                    assert(rect.hits_at_spec(*r, t2));
                                    assert(false);
                                }
                            }
                        }
                    }
                }
                res
            }
            Hittable::XZRect(rect) => {
                let res = rect.hit(r, t_min, t_max);
                proof {
                    assert(forall |t2: Frac| #[trigger] self.hits_at(*r, t2)
                        == rect.hits_at_spec(*r, t2));
                    match res {
                        Some(rec) => {
                            assert(self.hits_mat(*r, rec.t, rec.mat));
                            assert(self.hits_front(*r, rec.t, rec.front_face));
                            assert forall |t2: Frac| t2.d > 0 && frac_lt(t_min, t2)
                                && frac_lt(t2, t_max) && #[trigger] self.hits_at(*r, t2)
                                implies frac_le(rec.t, t2) by {
                                assert(rect.hits_at_spec(*r, t2));
                            }
                        }
                        None => {
                            assert forall |t2: Frac| t2.d > 0 && frac_lt(t_min, t2)
                                && frac_lt(t2, t_max) implies !#[trigger] self.hits_at(*r, t2) by {
                                if self.hits_at(*r, t2) {
                                    assert(rect.hits_at_spec(*r, t2));
                                    assert(false);
                                }
                            }
                        }
                    }
                }
                res
            }
            Hittable::Tri(tri) => {
                let res = tri.hit(r, t_min, t_max);
                proof {
                    assert(forall |t2: Frac| #[trigger] self.hits_at(*r, t2)
                        == tri.hits_at_spec(*r, t2));
                    match res {
                        Some(rec) => {
                            assert(self.hits_mat(*r, rec.t, rec.mat));
                            assert(self.hits_front(*r, rec.t, rec.front_face));
                            assert forall |t2: Frac| t2.d > 0 && frac_lt(t_min, t2)
                                && frac_lt(t2, t_max) && #[trigger] self.hits_at(*r, t2)
                                implies frac_le(rec.t, t2) by {
                                assert(tri.hits_at_spec(*r, t2));
                            }
                        }
                        None => {
                            assert forall |t2: Frac| t2.d > 0 && frac_lt(t_min, t2)
                                && frac_lt(t2, t_max) implies !#[trigger] self.hits_at(*r, t2) by {
                                if self.hits_at(*r, t2) {
                                    assert(tri.hits_at_spec(*r, t2));
                                    assert(false);
                                }
                            }
                        }
                    }
                }
                res
            }
            Hittable::YZRect(rect) => {
                let res = rect.hit(r, t_min, t_max);
                proof {
                    assert(forall |t2: Frac| #[trigger] self.hits_at(*r, t2)
                        == rect.hits_at_spec(*r, t2));
                    match res {
                        Some(rec) => {
                            assert(self.hits_mat(*r, rec.t, rec.mat));
                            assert(self.hits_front(*r, rec.t, rec.front_face));
                            assert forall |t2: Frac| t2.d > 0 && frac_lt(t_min, t2)
                                && frac_lt(t2, t_max) && #[trigger] self.hits_at(*r, t2)
                                implies frac_le(rec.t, t2) by {
                                assert(rect.hits_at_spec(*r, t2));
                            }
                        }
                        None => {
                            assert forall |t2: Frac| t2.d > 0 && frac_lt(t_min, t2)
                                && frac_lt(t2, t_max) implies !#[trigger] self.hits_at(*r, t2) by {
                                if self.hits_at(*r, t2) {
                                    assert(rect.hits_at_spec(*r, t2));
                                    assert(false);
                                }
                            }
                        }
                    }
                }
                res
            }
            Hittable::Translate(tr) => {
                let moved = Ray {
                    origin: Vec3 {
                        x: r.origin.x - tr.offset.x,
                        y: r.origin.y - tr.offset.y,
                        z: r.origin.z - tr.offset.z,
                    },
                    direction: r.direction,
                    time: r.time,
                };
                proof {
                    assert(moved == shift_ray(*r, tr.offset));
                    assert(moved.origin.bounded(
                        ORIGIN_MAX as int - (budget@ - 1) * COORD_MAX as int))
                        by (nonlinear_arith)
                        requires
                            budget@ >= 1,
                            r.origin.bounded(ORIGIN_MAX as int - budget@ * COORD_MAX as int),
                            tr.offset.bounded(COORD_MAX as int),
                            moved.origin.x == r.origin.x - tr.offset.x,
                            moved.origin.y == r.origin.y - tr.offset.y,
                            moved.origin.z == r.origin.z - tr.offset.z;
                }
                proof {
                    assert(forall |t2: Frac| #[trigger] self.hits_at(*r, t2)
                        == (*tr.object).hits_at(moved, t2));
                }
                match tr.object.hit_in(&moved, t_min, t_max, Ghost(budget@ - 1)) {
                    None => None,
                    Some(crec) => {
                        let mut rec = crec;
                        proof {
                            assert(moved.origin.bounded(ORIGIN_MAX as int));
                            lemma_at_num_bounds(moved, crec.t);
                            crate::num::lemma_mul_bound(tr.offset.x as int, crec.t.d as int,
                                COORD_MAX as int, crate::num::FRAC_BOUND as int);
                            crate::num::lemma_mul_bound(tr.offset.y as int, crec.t.d as int,
                                COORD_MAX as int, crate::num::FRAC_BOUND as int);
                            crate::num::lemma_mul_bound(tr.offset.z as int, crec.t.d as int,
                                COORD_MAX as int, crate::num::FRAC_BOUND as int);
                        }
                        rec.p = FVec3 {
                            x: Frac { n: crec.p.x.n + (tr.offset.x as i128) * crec.t.d, d: crec.p.x.d },
                            y: Frac { n: crec.p.y.n + (tr.offset.y as i128) * crec.t.d, d: crec.p.y.d },
                            z: Frac { n: crec.p.z.n + (tr.offset.z as i128) * crec.t.d, d: crec.p.z.d },
                        };
                        proof {
                            assert(rec.p.x.n == r.at_x_num(rec.t)
                                && rec.p.y.n == r.at_y_num(rec.t)
                                && rec.p.z.n == r.at_z_num(rec.t)) by (nonlinear_arith)
                                requires
                                    crec.p.x.n == moved.origin.x * crec.t.d + crec.t.n * moved.direction.x,
                                    crec.p.y.n == moved.origin.y * crec.t.d + crec.t.n * moved.direction.y,
                                    crec.p.z.n == moved.origin.z * crec.t.d + crec.t.n * moved.direction.z,
                                    moved.origin.x == r.origin.x - tr.offset.x,
                                    moved.origin.y == r.origin.y - tr.offset.y,
                                    moved.origin.z == r.origin.z - tr.offset.z,
                                    moved.direction == r.direction,
                                    rec.t == crec.t,
                                    rec.p.x.n == crec.p.x.n + tr.offset.x * crec.t.d,
                                    rec.p.y.n == crec.p.y.n + tr.offset.y * crec.t.d,
                                    rec.p.z.n == crec.p.z.n + tr.offset.z * crec.t.d;
                            assert(rec.p.x.wide() && rec.p.y.wide() && rec.p.z.wide()) by {
                                lemma_at_num_bounds(*r, rec.t);
                            }
                            assert((*tr.object).hits_mat(moved, rec.t, rec.mat));
                            assert(self.hits_mat(*r, rec.t, rec.mat));
                            assert((*tr.object).hits_front(moved, rec.t, rec.front_face));
                            assert(self.hits_front(*r, rec.t, rec.front_face));
                        }
                        Some(rec)
                    }
                }
            }
            Hittable::FlipFace(f) => {
                proof {
                    assert(forall |t2: Frac| #[trigger] self.hits_at(*r, t2)
                        == (*f.object).hits_at(*r, t2));
                }
                match f.object.hit_in(r, t_min, t_max, budget) {
                    None => None,
                    Some(crec) => {
                        let mut rec = crec;
                        rec.front_face = !crec.front_face;
                        proof {
                            assert((*f.object).hits_mat(*r, rec.t, rec.mat));
                            assert(self.hits_mat(*r, rec.t, rec.mat));
                            assert((*f.object).hits_front(*r, rec.t, crec.front_face));
                            assert(!rec.front_face == crec.front_face);
                            assert(self.hits_front(*r, rec.t, rec.front_face));
                        }
                        Some(rec)
                    }
                }
            }
            Hittable::RotateY(ro) => {
                let ghost rr0 = *r;
                let k = ro.turns;
                let mut obj_ray = *r;
                let mut made = 0u8;
                proof {
                    assert(yaw_ray_n(rr0, 0) == rr0);
                }
                while made < k
                    invariant
                        made <= k,
                        k < 4,
                        0 <= budget@ <= 5,
                        obj_ray == yaw_ray_n(rr0, made as int),
                        rr0.direction.bounded(COORD_MAX as int),
                        rr0.origin.bounded(ORIGIN_MAX as int - budget@ * COORD_MAX as int),
                        obj_ray.origin.bounded(ORIGIN_MAX as int - budget@ * COORD_MAX as int),
                        obj_ray.direction.bounded(COORD_MAX as int),
                        obj_ray.time == rr0.time,
                        rr0.time.wf(),
                    decreases k - made,
                {
                    proof {
                        assert(ORIGIN_MAX as int - budget@ * COORD_MAX as int <= ORIGIN_MAX as int)
                            by (nonlinear_arith)
                            requires
                                0 <= budget@;
                    }
                    let ghost before = made as int;
                    obj_ray = yaw_ray_exec(&obj_ray);
                    made = made + 1;
                    proof {
                        assert(yaw_ray_n(rr0, before + 1) == yaw_ray(yaw_ray_n(rr0, before)));
                    }
                }
                proof {
                    assert(forall |t2: Frac| #[trigger] self.hits_at(*r, t2)
                        == (*ro.object).hits_at(obj_ray, t2));
                }
                match ro.object.hit_in(&obj_ray, t_min, t_max, budget) {
                    None => None,
                    Some(crec) => {
                        let ghost rr = *r;
                        let mut rec = crec;
                        let mut back = 0u8;
                        proof {
                            lemma_yaw_ray_n_bounded(rr, k as int,
                                ORIGIN_MAX as int - budget@ * COORD_MAX as int);
                            lemma_at_num_bounds(obj_ray, crec.t);
                        }
                        while back < k
                            invariant
                                back <= k,
                                k < 4,
                                rec.t == crec.t,
                                crec.t.wf(),
                                rec.u == crec.u,
                                rec.v == crec.v,
                                rec.mat == crec.mat,
                                rec.front_face == crec.front_face,
                                rec.p.x.d == crec.t.d && rec.p.y.d == crec.t.d
                                    && rec.p.z.d == crec.t.d,
                                rec.normal.wide(),
                                rec.p.x.wide() && rec.p.y.wide() && rec.p.z.wide(),
                                rr.origin.bounded(ORIGIN_MAX as int),
                                rr.direction.bounded(COORD_MAX as int),
                                rec.p.x.n == yaw_ray_n(rr, k as int - back as int).at_x_num(crec.t),
                                rec.p.y.n == yaw_ray_n(rr, k as int - back as int).at_y_num(crec.t),
                                rec.p.z.n == yaw_ray_n(rr, k as int - back as int).at_z_num(crec.t),
                                rec.normal.sdot_num(yaw_ray_n(rr, k as int - back as int).direction)
                                    == crec.normal.sdot_num(yaw_ray_n(rr, k as int).direction),
                            decreases k - back,
                        {
                            let ghost prev = rec;
                            let ghost mid_ray = yaw_ray_n(rr, k as int - back as int - 1);
                            proof {
                                assert(yaw_ray_n(rr, k as int - back as int) == yaw_ray(mid_ray));
                                lemma_yaw_ray_n_bounded(rr, k as int - back as int - 1,
                                    ORIGIN_MAX as int);
                            }
                            rec.p = unyaw_point_exec(&rec.p);
                            rec.normal = unyaw_point_exec(&rec.normal);
                            proof {
                                lemma_unyaw_step(mid_ray, prev, rec);
                                lemma_at_num_bounds(mid_ray, crec.t);
                            }
                            back = back + 1;
                        }
                        proof {
                            assert(yaw_ray_n(rr, 0) == rr);
                            assert((*ro.object).hits_mat(obj_ray, rec.t, rec.mat));
                            assert(self.hits_mat(rr, rec.t, rec.mat));
                            assert((*ro.object).hits_front(obj_ray, rec.t, rec.front_face));
                            assert(self.hits_front(rr, rec.t, rec.front_face));
                        }
                        Some(rec)
                    }
                }
            }
            Hittable::List(l) => {
                let ghost rr = *r;
                proof {
                    assert(decreases_to!(*self => self->List_0));
                    assert(decreases_to!(self->List_0 => self->List_0.objects));
                    assert(decreases_to!(self->List_0.objects => self->List_0.objects@));
                }
                let res = hit_list(&l.objects, r, t_min, t_max, budget);
                proof {
                    match res {
                        Some(rec) => {
                            assert(self.hits_at(rr, rec.t));
                            let j = choose |j: int| 0 <= j < l.objects@.len()
                                && (#[trigger] l.objects@[j]).hits_mat(rr, rec.t, rec.mat);
                            assert(l.objects@[j].hits_mat(rr, rec.t, rec.mat));
                            assert(self.hits_mat(rr, rec.t, rec.mat));
                            let jf = choose |jf: int| 0 <= jf < l.objects@.len()
                                && (#[trigger] l.objects@[jf]).hits_front(rr, rec.t,
                                    rec.front_face);
                            assert(l.objects@[jf].hits_front(rr, rec.t, rec.front_face));
                            assert(self.hits_front(rr, rec.t, rec.front_face));
                            assert forall |t: Frac| t.d > 0 && frac_lt(t_min, t) && frac_lt(t, t_max)
                                && #[trigger] self.hits_at(rr, t) implies frac_le(rec.t, t) by {
                                let j = choose |j: int| 0 <= j < l.objects@.len()
                                    && (#[trigger] l.objects@[j]).hits_at(rr, t);
                                assert(objects_index_hits(l.objects@, j, rr, t));
                                assert(frac_le(rec.t, t));
                            }
                        }
                        None => {
                            assert forall |t: Frac| t.d > 0 && frac_lt(t_min, t) && frac_lt(t, t_max)
                                implies !#[trigger] self.hits_at(rr, t) by {
                                if self.hits_at(rr, t) {
                                    let j = choose |j: int| 0 <= j < l.objects@.len()
                                        && (#[trigger] l.objects@[j]).hits_at(rr, t);
                                    assert(objects_index_hits(l.objects@, j, rr, t));
                                    assert(false);
                                }
                            }
                        }
                    }
                }
                res
            }
            Hittable::Bvh(b) => {
                proof {
                    assert(!self.bvh_free());
                    assert(budget@ == 5);
                    assert((*b.left).wf() && (*b.right).wf());
                    assert((*b.left).covered_by(b.aabb_box));
                    assert((*b.right).covered_by(b.aabb_box));
                    assert((*b.left).covered_within(b.aabb_box,
                        ORIGIN_MAX as int - 5 * COORD_MAX as int));
                    assert((*b.right).covered_within(b.aabb_box,
                        ORIGIN_MAX as int - 5 * COORD_MAX as int));
                    assert(r.origin.bounded(ORIGIN_MAX as int - 5 * COORD_MAX as int));
                    assert(forall |t2: Frac| #[trigger] self.hits_at(*r, t2)
                        == ((*b.left).hits_at(*r, t2) || (*b.right).hits_at(*r, t2)));
                }
                if !b.aabb_box.hit(r, t_min, t_max) {
                    proof {
                        assert forall |t: Frac| t.d > 0 && frac_lt(t_min, t) && frac_lt(t, t_max)
                            implies !#[trigger] self.hits_at(*r, t) by {
                            if self.hits_at(*r, t) {
                                assert(b.aabb_box.contains_at(*r, t));
                                assert(frac_le(t_min, t) && frac_le(t, t_max));
                            }
                        }
                    }
                    None
                } else {
                    let left_res = b.left.hit_in(r, t_min, t_max, budget);
                    match left_res {
                        Some(lrec) => {
                            let right_res = b.right.hit_in(r, t_min, lrec.t, budget);
                            match right_res {
                                Some(rrec) => {
                                    proof {
                                        crate::num::lemma_frac_lt_trans(rrec.t, lrec.t, t_max);
                                        assert forall |t: Frac| t.d > 0 && frac_lt(t_min, t)
                                            && frac_lt(t, t_max) && #[trigger] self.hits_at(*r, t)
                                            implies frac_le(rrec.t, t) by {
                                            if (*b.left).hits_at(*r, t) {
                                                crate::num::lemma_frac_lt_le_trans(rrec.t, lrec.t, t);
                                            } else {
                                                if frac_lt(t, lrec.t) {
                                                    assert(frac_le(rrec.t, t));
                                                } else {
                                                    crate::num::lemma_frac_lt_le_trans(rrec.t, lrec.t, t);
                                                }
                                            }
                                        }
                                    }
                                    proof {
                                        assert((*b.right).hits_mat(*r, rrec.t, rrec.mat));
                                        assert(self.hits_mat(*r, rrec.t, rrec.mat));
                                        assert((*b.right).hits_front(*r, rrec.t,
                                            rrec.front_face));
                                        assert(self.hits_front(*r, rrec.t, rrec.front_face));
                                    }
                                    Some(rrec)
                                }
                                None => {
                                    proof {
                                        assert forall |t: Frac| t.d > 0 && frac_lt(t_min, t)
                                            && frac_lt(t, t_max) && #[trigger] self.hits_at(*r, t)
                                            implies frac_le(lrec.t, t) by {
                                            if (*b.right).hits_at(*r, t) && frac_lt(t, lrec.t) {
                                                assert(false);
                                            }
                                        }
                                    }
                                    proof {
                                        assert((*b.left).hits_mat(*r, lrec.t, lrec.mat));
                                        assert(self.hits_mat(*r, lrec.t, lrec.mat));
                                        assert((*b.left).hits_front(*r, lrec.t,
                                            lrec.front_face));
                                        assert(self.hits_front(*r, lrec.t, lrec.front_face));
                                    }
                                    Some(lrec)
                                }
                            }
                        }
                        None => {
                            let right_res = b.right.hit_in(r, t_min, t_max, budget);
                            proof {
                                match right_res {
                                    Some(rrec) => {
                                        assert(self.hits_at(*r, rrec.t));
                                        assert((*b.right).hits_mat(*r, rrec.t, rrec.mat));
                                        assert(self.hits_mat(*r, rrec.t, rrec.mat));
                                        assert((*b.right).hits_front(*r, rrec.t,
                                            rrec.front_face));
                                        assert(self.hits_front(*r, rrec.t, rrec.front_face));
                                    }
                                    None => {}
                                }
                            }
                            right_res
                        }
                    }
                }
            }
        }
    }
}

/// An element of the sequence is hit at `t`; stating it through this
/// definition gives quantifiers a stable trigger.
pub open spec fn objects_index_hits(s: Seq<Hittable>, j: int, r: Ray, t: Frac) -> bool {
    s[j].hits_at(r, t)
}

/// Closest hit over a collection of nodes: tests every element and keeps
/// the closest hit found so far, tightening the search interval as it goes.
fn hit_list(objects: &Vec<Hittable>, r: &Ray, t_min: Frac, t_max: Frac, budget: Ghost<int>)
    -> (res: Option<HitRecord>)
    requires
        forall |j: int| 0 <= j < objects@.len() ==> (#[trigger] objects@[j]).wf(),
        forall |j: int| 0 <= j < objects@.len() ==> (#[trigger] objects@[j]).depth_ok(budget@),
        forall |j: int| 0 <= j < objects@.len()
            ==> (!(#[trigger] objects@[j]).bvh_free() ==> budget@ == 5),
        0 <= budget@ <= 5,
        r.direction.bounded(COORD_MAX as int),
        r.origin.bounded(ORIGIN_MAX as int - budget@ * COORD_MAX as int),
        r.time.wf(),
        t_min.wf(),
        t_max.wf(),
    ensures
        match res {
            Some(rec) => {
                &&& rec.t.wf()
                &&& frac_lt(t_min, rec.t) && frac_lt(rec.t, t_max)
                &&& exists |j: int| 0 <= j < objects@.len()
                    && (#[trigger] objects@[j]).hits_at(*r, rec.t)
                &&& exists |j: int| 0 <= j < objects@.len()
                    && (#[trigger] objects@[j]).hits_mat(*r, rec.t, rec.mat)
                &&& rec.p.x.d == rec.t.d && rec.p.x.n == r.at_x_num(rec.t)
                &&& rec.p.y.d == rec.t.d && rec.p.y.n == r.at_y_num(rec.t)
                &&& rec.p.z.d == rec.t.d && rec.p.z.n == r.at_z_num(rec.t)
                &&& rec.normal.wide()
                &&& rec.normal.sdot_num(r.direction) <= 0
                &&& exists |j: int| 0 <= j < objects@.len()
                    && (#[trigger] objects@[j]).hits_front(*r, rec.t, rec.front_face)
                &&& forall |j: int, t: Frac| 0 <= j < objects@.len() && t.d > 0
                    && frac_lt(t_min, t) && frac_lt(t, t_max)
                    && #[trigger] objects_index_hits(objects@, j, *r, t)
                    ==> frac_le(rec.t, t)
            },
            None => forall |j: int, t: Frac| 0 <= j < objects@.len() && t.d > 0
                && frac_lt(t_min, t) && frac_lt(t, t_max)
                ==> !objects_index_hits(objects@, j, *r, t),
        },
    decreases objects@,
{
    let ghost rr = *r;
    let n = objects.len();
    let mut best: Option<HitRecord> = None;
    let mut closest = t_max;
    let mut i: usize = 0;
    while i < n
        invariant
            n == objects@.len(),
            rr == *r,
            0 <= i <= n,
            closest.wf(),
            t_min.wf(),
            t_max.wf(),
            rr.direction.bounded(COORD_MAX as int),
            rr.origin.bounded(ORIGIN_MAX as int - budget@ * COORD_MAX as int),
            rr.time.wf(),
            0 <= budget@ <= 5,
            forall |j: int| 0 <= j < n ==> (#[trigger] objects@[j]).wf(),
            forall |j: int| 0 <= j < n ==> (#[trigger] objects@[j]).depth_ok(budget@),
            forall |j: int| 0 <= j < n
                ==> (!(#[trigger] objects@[j]).bvh_free() ==> budget@ == 5),
            match best {
                Some(rec) => {
                    &&& rec.t == closest
                    &&& rec.t.wf()
                    &&& frac_lt(t_min, rec.t) && frac_lt(rec.t, t_max)
                    &&& exists |j: int| 0 <= j < i
                        && (#[trigger] objects@[j]).hits_at(rr, rec.t)
                    &&& exists |j: int| 0 <= j < i
                        && (#[trigger] objects@[j]).hits_mat(rr, rec.t, rec.mat)
                    &&& rec.p.x.d == rec.t.d && rec.p.x.n == rr.at_x_num(rec.t)
                    &&& rec.p.y.d == rec.t.d && rec.p.y.n == rr.at_y_num(rec.t)
                    &&& rec.p.z.d == rec.t.d && rec.p.z.n == rr.at_z_num(rec.t)
                    &&& rec.normal.wide()
                    &&& rec.normal.sdot_num(rr.direction) <= 0
                    &&& exists |j: int| 0 <= j < i
                        && (#[trigger] objects@[j]).hits_front(rr, rec.t, rec.front_face)
                    &&& forall |j: int, t: Frac| 0 <= j < i && t.d > 0
                        && frac_lt(t_min, t) && frac_lt(t, t_max)
                        && #[trigger] objects_index_hits(objects@, j, rr, t)
                        ==> frac_le(rec.t, t)
                },
                None => {
                    &&& closest == t_max
                    &&& forall |j: int, t: Frac| 0 <= j < i && t.d > 0
                        && frac_lt(t_min, t) && frac_lt(t, t_max)
                        ==> !objects_index_hits(objects@, j, rr, t)
                },
            },
        decreases n - i,
    {
        let child_res = objects[i].hit_in(r, t_min, closest, budget);
        match child_res {
            Some(crec) => {
                proof {
                    if let Some(prev) = best {
                        crate::num::lemma_frac_lt_trans(crec.t, prev.t, t_max);
                    }
                    assert(objects@[i as int].hits_mat(rr, crec.t, crec.mat));
                    assert(objects@[i as int].hits_front(rr, crec.t, crec.front_face));
                    assert forall |j: int, t: Frac| 0 <= j < i + 1 && t.d > 0
                        && frac_lt(t_min, t) && frac_lt(t, t_max)
                        && #[trigger] objects_index_hits(objects@, j, rr, t)
                        implies frac_le(crec.t, t) by {
                        if j < i {
                            match best {
                                Some(prev) => {
                                    crate::num::lemma_frac_lt_le_trans(crec.t, prev.t, t);
                                }
                                None => {
                                    assert(false);
                                }
                            }
                        } else {
                            assert(objects@[j].hits_at(rr, t));
                            if frac_lt(t, closest) {
                                assert(frac_le(crec.t, t));
                            } else {
                                crate::num::lemma_frac_lt_le_trans(crec.t, closest, t);
                            }
                        }
                    }
                }
                closest = crec.t;
                best = Some(crec);
            }
            None => {
                proof {
                    if let Some(prev) = best {
                        assert forall |j: int, t: Frac| 0 <= j < i + 1 && t.d > 0
                            && frac_lt(t_min, t) && frac_lt(t, t_max)
                            && #[trigger] objects_index_hits(objects@, j, rr, t)
                            implies frac_le(prev.t, t) by {
                            if j == i {
                                assert(objects@[j].hits_at(rr, t));
                                if frac_lt(t, closest) {
                                    assert(false);
                                }
                            }
                        }
                    } else {
                        assert forall |j: int, t: Frac| 0 <= j < i + 1 && t.d > 0
                            && frac_lt(t_min, t) && frac_lt(t, t_max)
                            implies !objects_index_hits(objects@, j, rr, t) by {
                            if j == i && objects_index_hits(objects@, j, rr, t) {
                                assert(objects@[j].hits_at(rr, t));
                                assert(false);
                            }
                        }
                    }
                }
            }
        }
        i = i + 1;
    }
    best
}

/// One quarter turn of a ray into object coordinates.
fn yaw_ray_exec(r: &Ray) -> (res: Ray)
    requires
        r.origin.bounded(ORIGIN_MAX as int),
        r.direction.bounded(COORD_MAX as int),
    ensures
        res == yaw_ray(*r),
        res.origin.bounded(ORIGIN_MAX as int),
        res.direction.bounded(COORD_MAX as int),
        res.time == r.time,
{
    Ray {
        origin: Vec3 { x: r.origin.z, y: r.origin.y, z: -r.origin.x },
        direction: Vec3 { x: r.direction.z, y: r.direction.y, z: -r.direction.x },
        time: r.time,
    }
}

/// One inverse quarter turn of a rational point back to world coordinates.
fn unyaw_point_exec(p: &FVec3) -> (res: FVec3)
    requires
        p.x.wide(),
        p.y.wide(),
        p.z.wide(),
    ensures
        res.x.n == -p.z.n && res.x.d == p.z.d,
        res.y == p.y,
        res.z == p.x,
{
    FVec3 {
        x: Frac { n: -p.z.n, d: p.z.d },
        y: p.y,
        z: p.x,
    }
}

/// Quarter turns preserve componentwise bounds on a ray.
proof fn lemma_yaw_ray_n_bounded(r: Ray, k: int, b: int)
    requires
        0 <= k,
        b >= 0,
        r.origin.bounded(b),
        r.direction.bounded(COORD_MAX as int),
    ensures
        yaw_ray_n(r, k).origin.bounded(b),
        yaw_ray_n(r, k).direction.bounded(COORD_MAX as int),
        yaw_ray_n(r, k).time == r.time,
    decreases k,
{
    if k > 0 {
        lemma_yaw_ray_n_bounded(r, k - 1, b);
    }
}

/// Bounds on the numerators of a ray's point at a well-formed parameter.
proof fn lemma_at_num_bounds(r: Ray, t: Frac)
    requires
        r.origin.bounded(ORIGIN_MAX as int),
        r.direction.bounded(COORD_MAX as int),
        t.wf(),
    ensures
        -crate::num::POINT_BOUND <= r.at_x_num(t) <= crate::num::POINT_BOUND,
        -crate::num::POINT_BOUND <= r.at_y_num(t) <= crate::num::POINT_BOUND,
        -crate::num::POINT_BOUND <= r.at_z_num(t) <= crate::num::POINT_BOUND,
{
    crate::num::lemma_mul_bound(r.origin.x as int, t.d as int, ORIGIN_MAX as int, crate::num::FRAC_BOUND as int);
    crate::num::lemma_mul_bound(r.origin.y as int, t.d as int, ORIGIN_MAX as int, crate::num::FRAC_BOUND as int);
    crate::num::lemma_mul_bound(r.origin.z as int, t.d as int, ORIGIN_MAX as int, crate::num::FRAC_BOUND as int);
    crate::num::lemma_mul_bound(t.n as int, r.direction.x as int, crate::num::FRAC_BOUND as int, COORD_MAX as int);
    crate::num::lemma_mul_bound(t.n as int, r.direction.y as int, crate::num::FRAC_BOUND as int, COORD_MAX as int);
    crate::num::lemma_mul_bound(t.n as int, r.direction.z as int, crate::num::FRAC_BOUND as int, COORD_MAX as int);
}

/// One inverse quarter turn undoes one quarter turn of the ray, for both
/// the point-on-ray equations and the normal's inner product.
proof fn lemma_unyaw_step(r: Ray, crec: HitRecord, rec: HitRecord)
    requires
        r.origin.bounded(ORIGIN_MAX as int),
        r.direction.bounded(COORD_MAX as int),
        crec.p.x.d == crec.t.d && crec.p.x.n == yaw_ray(r).at_x_num(crec.t),
        crec.p.y.d == crec.t.d && crec.p.y.n == yaw_ray(r).at_y_num(crec.t),
        crec.p.z.d == crec.t.d && crec.p.z.n == yaw_ray(r).at_z_num(crec.t),
        rec.t == crec.t,
        rec.p.x.d == crec.p.x.d && rec.p.y.d == crec.p.y.d && rec.p.z.d == crec.p.z.d,
        rec.p.x.n == -crec.p.z.n,
        rec.p.y.n == crec.p.y.n,
        rec.p.z.n == crec.p.x.n,
        rec.normal.x.n == -crec.normal.z.n,
        rec.normal.y.n == crec.normal.y.n,
        rec.normal.z.n == crec.normal.x.n,
    ensures
        rec.p.x.d == rec.t.d && rec.p.x.n == r.at_x_num(rec.t),
        rec.p.y.d == rec.t.d && rec.p.y.n == r.at_y_num(rec.t),
        rec.p.z.d == rec.t.d && rec.p.z.n == r.at_z_num(rec.t),
        rec.normal.sdot_num(r.direction) == crec.normal.sdot_num(yaw_ray(r).direction),
{
    let q = yaw_ray(r);
    assert(q.origin.x == r.origin.z && q.origin.z == -(r.origin.x as int));
    assert(q.direction.x == r.direction.z && q.direction.z == -(r.direction.x as int));
    assert(q.direction.y == r.direction.y && q.origin.y == r.origin.y);
    assert(rec.p.x.n == r.at_x_num(rec.t) && rec.p.z.n == r.at_z_num(rec.t)) by (nonlinear_arith)
        requires
            crec.p.x.n == q.origin.x * crec.t.d + crec.t.n * q.direction.x,
            crec.p.z.n == q.origin.z * crec.t.d + crec.t.n * q.direction.z,
            q.origin.x == r.origin.z,
            q.origin.z == -(r.origin.x as int),
            q.direction.x == r.direction.z,
            q.direction.z == -(r.direction.x as int),
            rec.p.x.n == -crec.p.z.n,
            rec.p.z.n == crec.p.x.n,
            rec.t == crec.t;
    assert(rec.normal.sdot_num(r.direction) == crec.normal.sdot_num(q.direction))
        by (nonlinear_arith)
        requires
            q.direction.x == r.direction.z,
            q.direction.y == r.direction.y,
            q.direction.z == -(r.direction.x as int),
            rec.normal.x.n == -crec.normal.z.n,
            rec.normal.y.n == crec.normal.y.n,
            rec.normal.z.n == crec.normal.x.n;
}

/// Containment in one box carries over to its merge with another.
pub proof fn lemma_merge_covers(a: AABB, b: AABB, r: Ray, t: Frac)
    requires
        t.d > 0,
        a.contains_at(r, t) || b.contains_at(r, t),
    ensures
        AABB::merge(a, b).contains_at(r, t),
{
    let m = AABB::merge(a, b);
    if a.contains_at(r, t) {
        crate::num::lemma_mul_le_mono(m.min.x as int, a.min.x as int, t.d as int);
        crate::num::lemma_mul_le_mono(m.min.y as int, a.min.y as int, t.d as int);
        crate::num::lemma_mul_le_mono(m.min.z as int, a.min.z as int, t.d as int);
        crate::num::lemma_mul_le_mono(a.max.x as int, m.max.x as int, t.d as int);
        crate::num::lemma_mul_le_mono(a.max.y as int, m.max.y as int, t.d as int);
        crate::num::lemma_mul_le_mono(a.max.z as int, m.max.z as int, t.d as int);
    } else {
        crate::num::lemma_mul_le_mono(m.min.x as int, b.min.x as int, t.d as int);
        crate::num::lemma_mul_le_mono(m.min.y as int, b.min.y as int, t.d as int);
        crate::num::lemma_mul_le_mono(m.min.z as int, b.min.z as int, t.d as int);
        crate::num::lemma_mul_le_mono(b.max.x as int, m.max.x as int, t.d as int);
        crate::num::lemma_mul_le_mono(b.max.y as int, m.max.y as int, t.d as int);
        crate::num::lemma_mul_le_mono(b.max.z as int, m.max.z as int, t.d as int);
    }
}

/// A box containing the point of a quarter-turned ray corresponds to a
/// turned-back box containing the point of the original ray.
proof fn lemma_unyaw_box_covers(bx: AABB, r: Ray, t: Frac)
    requires
        t.d > 0,
        r.origin.bounded(ORIGIN_MAX as int),
        r.direction.bounded(COORD_MAX as int),
        bx.bounded_box(),
        bx.contains_at(yaw_ray(r), t),
    ensures
        unyaw_box(bx).contains_at(r, t),
{
    let q = yaw_ray(r);
    let u = unyaw_box(bx);
    assert(u.min.x == -(bx.max.z as int) && u.max.x == -(bx.min.z as int));
    assert(q.origin.x == r.origin.z && q.origin.z == -(r.origin.x as int));
    assert(q.direction.x == r.direction.z && q.direction.z == -(r.direction.x as int));
    assert(axis_contains(r.origin.x as int, r.direction.x as int, u.min.x as int, u.max.x as int, t)
        && axis_contains(r.origin.z as int, r.direction.z as int, u.min.z as int, u.max.z as int, t))
        by (nonlinear_arith)
        requires
            t.d > 0,
            u.min.x == -(bx.max.z as int),
            u.max.x == -(bx.min.z as int),
            u.min.z == bx.min.x,
            u.max.z == bx.max.x,
            bx.min.x * t.d <= r.origin.z * t.d + t.n * r.direction.z,
            r.origin.z * t.d + t.n * r.direction.z <= bx.max.x * t.d,
            bx.min.z * t.d <= (-(r.origin.x as int)) * t.d + t.n * (-(r.direction.x as int)),
            (-(r.origin.x as int)) * t.d + t.n * (-(r.direction.x as int)) <= bx.max.z * t.d;
}

/// One turn-back keeps a box's coordinate bound.
proof fn lemma_unyaw_box_bounded(bx: AABB, b: int)
    requires
        0 <= b <= crate::aabb::BOX_MAX as int,
        bx.min.bounded(b),
        bx.max.bounded(b),
    ensures
        unyaw_box(bx).min.bounded(b),
        unyaw_box(bx).max.bounded(b),
{
}

/// Iterating the turn-back of a box commutes with one more turn-back.
proof fn lemma_unyaw_box_n_comm(bx: AABB, k: int)
    requires
        0 <= k,
    ensures
        unyaw_box_n(unyaw_box(bx), k) == unyaw_box(unyaw_box_n(bx, k)),
    decreases k,
{
    if k > 0 {
        lemma_unyaw_box_n_comm(bx, k - 1);
    }
}

/// `k` turn-backs of a covering box cover the original ray.
proof fn lemma_unyaw_box_n_covers(bx: AABB, r: Ray, t: Frac, k: int)
    requires
        t.d > 0,
        0 <= k < 4,
        r.origin.bounded(ORIGIN_MAX as int),
        r.direction.bounded(COORD_MAX as int),
        bx.bounded_box(),
        bx.contains_at(yaw_ray_n(r, k), t),
    ensures
        unyaw_box_n(bx, k).contains_at(r, t),
    decreases k,
{
    if k > 0 {
        let rp = yaw_ray_n(r, k - 1);
        lemma_yaw_ray_n_bounded(r, k - 1, ORIGIN_MAX as int);
        assert(yaw_ray_n(r, k) == yaw_ray(rp));
        lemma_unyaw_box_covers(bx, rp, t);
        lemma_unyaw_box_bounded(bx, crate::aabb::BOX_MAX as int);
        lemma_unyaw_box_n_covers(unyaw_box(bx), r, t, k - 1);
        lemma_unyaw_box_n_comm(bx, k - 1);
        assert(unyaw_box_n(unyaw_box(bx), k - 1) == unyaw_box_n(bx, k));
    }
}

/// One exec turn-back of a box.
fn unyaw_box_exec(bx: &AABB) -> (res: AABB)
    requires
        bx.bounded_box(),
    ensures
        res == unyaw_box(*bx),
        res.bounded_box(),
{
    AABB {
        min: Vec3 { x: -bx.max.z, y: bx.min.y, z: bx.min.x },
        max: Vec3 { x: -bx.min.z, y: bx.max.y, z: bx.max.x },
    }
}

/// The empty sentinel box, as a value.
pub open spec fn empty_box() -> AABB {
    AABB {
        min: Vec3 { x: EMPTY_MIN, y: EMPTY_MIN, z: EMPTY_MIN },
        max: Vec3 { x: EMPTY_MAX, y: EMPTY_MAX, z: EMPTY_MAX },
    }
}

/// The progressive merge of the boxes of a collection of nodes, starting
/// from the empty sentinel; none as soon as some member reports no box.
pub open spec fn list_box_model(s: Seq<Hittable>) -> Option<AABB>
    decreases s,
{
    if s.len() == 0 {
        Option::Some(empty_box())
    } else {
        match (list_box_model(s.drop_last()), s.last().box_model()) {
            (Option::Some(acc), Option::Some(b)) => Option::Some(AABB::merge(acc, b)),
            _ => Option::None,
        }
    }
}

/// A member without a box leaves the whole collection without one.
proof fn lemma_list_box_model_none(s: Seq<Hittable>, i: int)
    requires
        0 <= i < s.len(),
        s[i].box_model() is None,
    ensures
        list_box_model(s) is None,
    decreases s.len(),
{
    if i < s.len() - 1 {
        lemma_list_box_model_none(s.drop_last(), i);
    }
}

impl Hittable {
    /// The box enclosing this node over the given time interval, or none
    /// for an aggregate with an empty branch. The returned box covers
    /// every surface point the admissible rays can meet.
    pub fn bounding_box(&self, time0: Frac, time1: Frac) -> (res: Option<AABB>)
        requires
            self.wf(),
            self.depth_ok(5),
        ensures
            res == self.box_model(),
            res.is_some() == self.boxed(),
            match res {
                Some(bx) => {
                    &&& bx.bounded_box()
                    &&& bx.min.bounded(PRIM_BOX_MAX as int + 5 * COORD_MAX as int)
                    &&& bx.max.bounded(PRIM_BOX_MAX as int + 5 * COORD_MAX as int)
                    &&& self.covered_by(bx)
                },
                None => true,
            },
    {
        let res = self.bounding_box_in(time0, time1, Ghost(5));
        proof {
            if let Some(bx) = res {
                assert(self.covered_within(bx, ORIGIN_MAX as int - 5 * COORD_MAX as int));
            }
        }
        res
    }

    /// Recursive worker for `bounding_box`.
    fn bounding_box_in(&self, time0: Frac, time1: Frac, budget: Ghost<int>) -> (res: Option<AABB>)
        requires
            self.wf(),
            0 <= budget@ <= 5,
            self.depth_ok(budget@),
            !self.bvh_free() ==> budget@ == 5,
        ensures
            res == self.box_model(),
            res.is_some() == self.boxed(),
            match res {
                Some(bx) => {
                    &&& bx.min.bounded(PRIM_BOX_MAX as int + 5 * COORD_MAX as int)
                    &&& bx.max.bounded(PRIM_BOX_MAX as int + 5 * COORD_MAX as int)
                    &&& (self.bvh_free() ==> bx.min.bounded(
                            PRIM_BOX_MAX as int + budget@ * COORD_MAX as int)
                        && bx.max.bounded(PRIM_BOX_MAX as int + budget@ * COORD_MAX as int))
                    &&& bx.bounded_box()
                    &&& self.covered_within(bx, ORIGIN_MAX as int - budget@ * COORD_MAX as int)
                },
                None => true,
            },
        decreases *self,
    {
        proof {
            assert(PRIM_BOX_MAX as int <= PRIM_BOX_MAX as int + budget@ * COORD_MAX as int
                && PRIM_BOX_MAX as int + budget@ * COORD_MAX as int
                    <= PRIM_BOX_MAX as int + 5 * COORD_MAX as int) by (nonlinear_arith)
                requires
                    0 <= budget@ <= 5;
        }
        match self {
            Hittable::XYRect(rect) => {
                let bx = rect.bounding_box();
                proof {
                    assert(self.box_model() == Some(bx));
                    assert forall |r2: Ray, t2: Frac|
                        r2.origin.bounded(ORIGIN_MAX as int - budget@ * COORD_MAX as int)
                        && r2.direction.bounded(COORD_MAX as int)
                        && t2.d > 0 && #[trigger] self.hits_at(r2, t2)
                        implies bx.contains_at(r2, t2) by {
                        assert(rect.hits_at_spec(r2, t2));
                    }
                }
                Some(bx)
            }
            Hittable::XZRect(rect) => {
                let bx = rect.bounding_box();
                proof {
                    assert(self.box_model() == Some(bx));
                    assert forall |r2: Ray, t2: Frac|
                        r2.origin.bounded(ORIGIN_MAX as int - budget@ * COORD_MAX as int)
                        && r2.direction.bounded(COORD_MAX as int)
                        && t2.d > 0 && #[trigger] self.hits_at(r2, t2)
                        implies bx.contains_at(r2, t2) by {
                        assert(rect.hits_at_spec(r2, t2));
                    }
                }
                Some(bx)
            }
            Hittable::YZRect(rect) => {
                let bx = rect.bounding_box();
                proof {
                    assert(self.box_model() == Some(bx));
                    assert forall |r2: Ray, t2: Frac|
                        r2.origin.bounded(ORIGIN_MAX as int - budget@ * COORD_MAX as int)
                        && r2.direction.bounded(COORD_MAX as int)
                        && t2.d > 0 && #[trigger] self.hits_at(r2, t2)
                        implies bx.contains_at(r2, t2) by {
                        assert(rect.hits_at_spec(r2, t2));
                    }
                }
                Some(bx)
            }
            Hittable::Tri(tri) => {
                let bx = tri.bounding_box();
                proof {
                    assert(self.box_model() == Some(bx));
                    assert forall |r2: Ray, t2: Frac|
                        r2.origin.bounded(ORIGIN_MAX as int - budget@ * COORD_MAX as int)
                        && r2.direction.bounded(COORD_MAX as int)
                        && t2.d > 0 && #[trigger] self.hits_at(r2, t2)
                        implies bx.contains_at(r2, t2) by {
                        assert(tri.hits_at_spec(r2, t2));
                    }
                }
                Some(bx)
            }
            Hittable::Translate(tr) => {
                match tr.object.bounding_box_in(time0, time1, Ghost(budget@ - 1)) {
                    None => {
                        proof {
                            assert(self.box_model() is None);
                        }
                        None
                    }
                    Some(cb) => {
                        let bx = AABB {
                            min: Vec3 {
                                x: cb.min.x + tr.offset.x,
                                y: cb.min.y + tr.offset.y,
                                z: cb.min.z + tr.offset.z,
                            },
                            max: Vec3 {
                                x: cb.max.x + tr.offset.x,
                                y: cb.max.y + tr.offset.y,
                                z: cb.max.z + tr.offset.z,
                            },
                        };
                        proof {
                            assert forall |r2: Ray, t2: Frac|
                                r2.origin.bounded(ORIGIN_MAX as int - budget@ * COORD_MAX as int)
                                && r2.direction.bounded(COORD_MAX as int)
                                && t2.d > 0 && #[trigger] self.hits_at(r2, t2)
                                implies bx.contains_at(r2, t2) by {
                                let m = shift_ray(r2, tr.offset);
                                assert(m.origin.x == r2.origin.x - tr.offset.x
                                    && m.origin.y == r2.origin.y - tr.offset.y
                                    && m.origin.z == r2.origin.z - tr.offset.z);
                                assert(m.origin.bounded(
                                    ORIGIN_MAX as int - (budget@ - 1) * COORD_MAX as int))
                                    by (nonlinear_arith)
                                    requires
                                        budget@ >= 1,
                                        r2.origin.bounded(
                                            ORIGIN_MAX as int - budget@ * COORD_MAX as int),
                                        tr.offset.bounded(COORD_MAX as int),
                                        m.origin.x == r2.origin.x - tr.offset.x,
                                        m.origin.y == r2.origin.y - tr.offset.y,
                                        m.origin.z == r2.origin.z - tr.offset.z;
                                assert((*tr.object).hits_at(m, t2));
                                assert(cb.contains_at(m, t2));
                                assert(bx.contains_at(r2, t2)) by (nonlinear_arith)
                                    requires
                                        t2.d > 0,
                                        cb.contains_at(m, t2),
                                        m.origin.x == r2.origin.x - tr.offset.x,
                                        m.origin.y == r2.origin.y - tr.offset.y,
                                        m.origin.z == r2.origin.z - tr.offset.z,
                                        m.direction == r2.direction,
                                        bx.min.x == cb.min.x + tr.offset.x,
                                        bx.min.y == cb.min.y + tr.offset.y,
                                        bx.min.z == cb.min.z + tr.offset.z,
                                        bx.max.x == cb.max.x + tr.offset.x,
                                        bx.max.y == cb.max.y + tr.offset.y,
                                        bx.max.z == cb.max.z + tr.offset.z;
                            }
                            assert(self.box_model() == Some(bx));
                        }
                        Some(bx)
                    }
                }
            }
            Hittable::RotateY(ro) => {
                match ro.object.bounding_box_in(time0, time1, budget) {
                    None => {
                        proof {
                            assert(self.box_model() is None);
                        }
                        None
                    }
                    Some(cb) => {
                        let k = ro.turns;
                        let mut bx = cb;
                        let mut back = 0u8;
                        while back < k
                            invariant
                                back <= k,
                                k < 4,
                                cb.bounded_box(),
                                bx == unyaw_box_n(cb, back as int),
                                bx.bounded_box(),
                            decreases k - back,
                        {
                            let ghost before = back as int;
                            bx = unyaw_box_exec(&bx);
                            back = back + 1;
                            proof {
                                assert(unyaw_box_n(cb, before + 1)
                                    == unyaw_box(unyaw_box_n(cb, before)));
                            }
                        }
                        proof {
                            lemma_unyaw_box_n_bounds(cb, k as int,
                                PRIM_BOX_MAX as int + 5 * COORD_MAX as int);
                            if (*ro.object).bvh_free() {
                                lemma_unyaw_box_n_bounds(cb, k as int,
                                    PRIM_BOX_MAX as int + budget@ * COORD_MAX as int);
                            }
                            assert forall |r2: Ray, t2: Frac|
                                r2.origin.bounded(ORIGIN_MAX as int - budget@ * COORD_MAX as int)
                                && r2.direction.bounded(COORD_MAX as int)
                                && t2.d > 0 && #[trigger] self.hits_at(r2, t2)
                                implies bx.contains_at(r2, t2) by {
                                let q = yaw_ray_n(r2, k as int);
                                lemma_yaw_ray_n_bounded(r2, k as int,
                                    ORIGIN_MAX as int - budget@ * COORD_MAX as int);
                                assert((*ro.object).hits_at(q, t2));
                                assert(ORIGIN_MAX as int - budget@ * COORD_MAX as int
                                    <= ORIGIN_MAX as int) by (nonlinear_arith)
                                    requires
                                        0 <= budget@;
                                assert(cb.contains_at(q, t2));
                                lemma_unyaw_box_n_covers(cb, r2, t2, k as int);
                            }
                            assert(self.box_model() == Some(bx));
                        }
                        Some(bx)
                    }
                }
            }
            Hittable::FlipFace(f) => {
                let res = f.object.bounding_box_in(time0, time1, budget);
                proof {
                    assert(self.box_model() == (*f.object).box_model());
                    if let Some(bx) = res {
                        assert forall |r2: Ray, t2: Frac|
                            r2.origin.bounded(ORIGIN_MAX as int - budget@ * COORD_MAX as int)
                            && r2.direction.bounded(COORD_MAX as int)
                            && t2.d > 0 && #[trigger] self.hits_at(r2, t2)
                            implies bx.contains_at(r2, t2) by {
                            assert((*f.object).hits_at(r2, t2));
                        }
                    }
                }
                res
            }
            Hittable::List(l) => {
                let res = bounding_box_list(&l.objects, time0, time1, budget);
                proof {
                    assert(res == self.box_model());
                    match res {
                        Some(bx) => {
                            assert(self.boxed());
                            assert forall |r2: Ray, t2: Frac|
                                r2.origin.bounded(ORIGIN_MAX as int - budget@ * COORD_MAX as int)
                                && r2.direction.bounded(COORD_MAX as int)
                                && t2.d > 0 && #[trigger] self.hits_at(r2, t2)
                                implies bx.contains_at(r2, t2) by {
                                let j = choose |j: int| 0 <= j < l.objects@.len()
                                    && (#[trigger] l.objects@[j]).hits_at(r2, t2);
                                assert(objects_index_hits(l.objects@, j, r2, t2));
                            }
                        }
                        None => {
                            assert(!self.boxed());
                        }
                    }
                }
                res
            }
            Hittable::Bvh(b) => {
                proof {
                    assert(!self.bvh_free());
                    assert(budget@ == 5);
                    assert forall |r2: Ray, t2: Frac|
                        r2.origin.bounded(ORIGIN_MAX as int - budget@ * COORD_MAX as int)
                        && r2.direction.bounded(COORD_MAX as int)
                        && t2.d > 0 && #[trigger] self.hits_at(r2, t2)
                        implies b.aabb_box.contains_at(r2, t2) by {
                        assert((*b.left).hits_at(r2, t2) || (*b.right).hits_at(r2, t2));
                    }
                    assert(self.box_model() == Some(b.aabb_box));
                }
                Some(b.aabb_box)
            }
        }
    }
}

/// Turn-backs of a box preserve a coordinate bound.
proof fn lemma_unyaw_box_n_bounds(bx: AABB, k: int, b: int)
    requires
        0 <= k,
        0 <= b <= crate::aabb::BOX_MAX as int,
        bx.min.bounded(b),
        bx.max.bounded(b),
    ensures
        unyaw_box_n(bx, k).min.bounded(b),
        unyaw_box_n(bx, k).max.bounded(b),
    decreases k,
{
    if k > 0 {
        lemma_unyaw_box_n_bounds(bx, k - 1, b);
        lemma_unyaw_box_bounded(unyaw_box_n(bx, k - 1), b);
    }
}

/// The progressive merge of the children's boxes, or none if the
/// collection is empty or some child has no box.
fn bounding_box_list(objects: &Vec<Hittable>, time0: Frac, time1: Frac, budget: Ghost<int>)
    -> (res: Option<AABB>)
    requires
        forall |j: int| 0 <= j < objects@.len() ==> (#[trigger] objects@[j]).wf(),
        forall |j: int| 0 <= j < objects@.len() ==> (#[trigger] objects@[j]).depth_ok(budget@),
        forall |j: int| 0 <= j < objects@.len()
            ==> (!(#[trigger] objects@[j]).bvh_free() ==> budget@ == 5),
        0 <= budget@ <= 5,
    ensures
        res.is_some() == (objects@.len() > 0 && forall |j: int| 0 <= j < objects@.len()
            ==> (#[trigger] objects@[j]).boxed()),
        objects@.len() == 0 ==> res is None,
        objects@.len() > 0 ==> res == list_box_model(objects@),
        match res {
            Some(bx) => {
                &&& bx.min.bounded(PRIM_BOX_MAX as int + 5 * COORD_MAX as int)
                &&& bx.max.bounded(PRIM_BOX_MAX as int + 5 * COORD_MAX as int)
                &&& ((forall |j: int| 0 <= j < objects@.len()
                        ==> (#[trigger] objects@[j]).bvh_free())
                    ==> bx.min.bounded(PRIM_BOX_MAX as int + budget@ * COORD_MAX as int)
                        && bx.max.bounded(PRIM_BOX_MAX as int + budget@ * COORD_MAX as int))
                &&& forall |j: int, r2: Ray, t2: Frac| 0 <= j < objects@.len()
                    && r2.origin.bounded(ORIGIN_MAX as int - budget@ * COORD_MAX as int)
                    && r2.direction.bounded(COORD_MAX as int)
                    && t2.d > 0 && #[trigger] objects_index_hits(objects@, j, r2, t2)
                    ==> bx.contains_at(r2, t2)
            },
            None => true,
        },
    decreases objects@,
{
    let n = objects.len();
    if n == 0 {
        return None;
    }
    let mut acc = AABB::new_max();
    proof {
        assert(acc == empty_box());
        assert(Some(acc) == list_box_model(objects@.subrange(0, 0)));
    }
    let mut i: usize = 0;
    while i < n
        invariant
            n == objects@.len(),
            0 < n,
            0 <= i <= n,
            0 <= budget@ <= 5,
            forall |j: int| 0 <= j < n ==> (#[trigger] objects@[j]).wf(),
            forall |j: int| 0 <= j < n ==> (#[trigger] objects@[j]).depth_ok(budget@),
            forall |j: int| 0 <= j < n
                ==> (!(#[trigger] objects@[j]).bvh_free() ==> budget@ == 5),
            forall |j: int| 0 <= j < i ==> (#[trigger] objects@[j]).boxed(),
            Some(acc) == list_box_model(objects@.subrange(0, i as int)),
            i == 0 ==> acc == empty_box(),
            i > 0 ==> acc.min.bounded(PRIM_BOX_MAX as int + 5 * COORD_MAX as int)
                && acc.max.bounded(PRIM_BOX_MAX as int + 5 * COORD_MAX as int),
            i > 0 ==> ((forall |j: int| 0 <= j < n ==> (#[trigger] objects@[j]).bvh_free())
                ==> acc.min.bounded(PRIM_BOX_MAX as int + budget@ * COORD_MAX as int)
                    && acc.max.bounded(PRIM_BOX_MAX as int + budget@ * COORD_MAX as int)),
            acc.bounded_box(),
            forall |j: int, r2: Ray, t2: Frac| 0 <= j < i
                && r2.origin.bounded(ORIGIN_MAX as int - budget@ * COORD_MAX as int)
                && r2.direction.bounded(COORD_MAX as int)
                && t2.d > 0 && #[trigger] objects_index_hits(objects@, j, r2, t2)
                ==> acc.contains_at(r2, t2),
        decreases n - i,
    {
        let child = objects[i].bounding_box_in(time0, time1, budget);
        match child {
            None => {
                proof {
                    assert(!objects@[i as int].boxed());
                    lemma_list_box_model_none(objects@, i as int);
                }
                return None;
            }
            Some(cb) => {
                let ghost old_acc = acc;
                acc = acc.surrounding_box(&cb);
                proof {
                    assert(objects@.subrange(0, i + 1).drop_last()
                        == objects@.subrange(0, i as int));
                    assert(objects@.subrange(0, i + 1).last() == objects@[i as int]);
                    assert(Some(cb) == objects@[i as int].box_model());
                    assert(Some(acc) == list_box_model(objects@.subrange(0, i + 1)));
                    if i == 0 {
                        crate::aabb::lemma_sentinel_merge_identity(old_acc, cb);
                        assert(acc == cb);
                    }
                    if forall |j: int| 0 <= j < n ==> (#[trigger] objects@[j]).bvh_free() {
                        assert(objects@[i as int].bvh_free());
                    }
                    assert forall |j: int, r2: Ray, t2: Frac| 0 <= j < i + 1
                        && r2.origin.bounded(ORIGIN_MAX as int - budget@ * COORD_MAX as int)
                        && r2.direction.bounded(COORD_MAX as int)
                        && t2.d > 0 && #[trigger] objects_index_hits(objects@, j, r2, t2)
                        implies acc.contains_at(r2, t2) by {
                        if j < i {
                            lemma_merge_covers(old_acc, cb, r2, t2);
                        } else {
                            assert(objects@[j].hits_at(r2, t2));
                            assert(cb.contains_at(r2, t2));
                            lemma_merge_covers(old_acc, cb, r2, t2);
                        }
                    }
                }
            }
        }
        i = i + 1;
    }
    proof {
        assert(objects@.subrange(0, n as int) == objects@);
    }
    Some(acc)
}

impl HittableList {
    pub fn new() -> (r: HittableList)
        ensures
            r.objects@.len() == 0,
    {
        HittableList { objects: Vec::new() }
    }

    pub fn new_with_capacity(capacity: usize) -> (r: HittableList)
        ensures
            r.objects@.len() == 0,
    {
        HittableList { objects: Vec::with_capacity(capacity) }
    }

    pub fn clear(&mut self)
        ensures
            final(self).objects@.len() == 0,
    {
        self.objects.clear();
    }

    pub fn add(&mut self, object: Hittable)
        ensures
            final(self).objects@ == old(self).objects@.push(object),
    {
        self.objects.push(object);
    }
}

/// Composing quarter turns adds their counts.
pub proof fn lemma_yaw_ray_add(r: Ray, i: int, j: int)
    requires
        0 <= i,
        0 <= j,
    ensures
        yaw_ray_n(yaw_ray_n(r, j), i) == yaw_ray_n(r, i + j),
    decreases i,
{
    if i > 0 {
        lemma_yaw_ray_add(r, i - 1, j);
    }
}

/// Four quarter turns are the identity on admissible rays.
pub proof fn lemma_yaw_four(r: Ray)
    requires
        r.origin.bounded(ORIGIN_MAX as int),
        r.direction.bounded(COORD_MAX as int),
    ensures
        yaw_ray_n(r, 4) == r,
{
    let r1 = yaw_ray_n(r, 1);
    let r2 = yaw_ray_n(r, 2);
    let r3 = yaw_ray_n(r, 3);
    assert(yaw_ray_n(r, 0) == r);
    assert(r1 == yaw_ray(yaw_ray_n(r, 0)));
    assert(r1 == yaw_ray(r));
    assert(r2 == yaw_ray(r1));
    assert(r3 == yaw_ray(r2));
    assert(yaw_ray_n(r, 4) == yaw_ray(r3));
    assert(r1.origin.x == r.origin.z && r1.origin.y == r.origin.y
        && r1.origin.z == -r.origin.x);
    assert(r2.origin.x == -r.origin.x && r2.origin.y == r.origin.y
        && r2.origin.z == -r.origin.z);
    assert(r3.origin.x == -r.origin.z && r3.origin.y == r.origin.y
        && r3.origin.z == r.origin.x);
    assert(yaw_ray(r3).origin.x == r.origin.x && yaw_ray(r3).origin.y == r.origin.y
        && yaw_ray(r3).origin.z == r.origin.z);
    assert(r1.direction.x == r.direction.z && r1.direction.y == r.direction.y
        && r1.direction.z == -r.direction.x);
    assert(r2.direction.x == -r.direction.x && r2.direction.y == r.direction.y
        && r2.direction.z == -r.direction.z);
    assert(r3.direction.x == -r.direction.z && r3.direction.y == r.direction.y
        && r3.direction.z == r.direction.x);
    assert(yaw_ray(r3).direction.x == r.direction.x && yaw_ray(r3).direction.y == r.direction.y
        && yaw_ray(r3).direction.z == r.direction.z);
    assert(yaw_ray(r3).origin == r.origin);
    assert(yaw_ray(r3).direction == r.direction);
}

/// Rotating a node by some quarter turns and then by the turns that
/// complete the full circle reproduces the original node's intersections:
/// the doubly rotated node meets a ray at a parameter exactly when the
/// undecorated node does.
pub proof fn lemma_rotate_round_trip(outer: Hittable, r: Ray, t: Frac)
    requires
        outer is RotateY,
        (*outer->RotateY_0.object) is RotateY,
        outer->RotateY_0.turns + (*outer->RotateY_0.object)->RotateY_0.turns == 4,
        r.origin.bounded(ORIGIN_MAX as int),
        r.direction.bounded(COORD_MAX as int),
    ensures
        outer.hits_at(r, t)
            == (*(*outer->RotateY_0.object)->RotateY_0.object).hits_at(r, t),
{
    match outer {
        Hittable::RotateY(ro1) => {
            let k1 = ro1.turns as int;
            match &*ro1.object {
                Hittable::RotateY(ro2) => {
                    let k2 = ro2.turns as int;
                    let q1 = yaw_ray_n(r, k1);
                    assert(outer.hits_at(r, t) == (*ro1.object).hits_at(q1, t));
                    assert((*ro1.object).hits_at(q1, t)
                        == (*ro2.object).hits_at(yaw_ray_n(q1, k2), t));
                    lemma_yaw_ray_add(r, k2, k1);
                    assert(yaw_ray_n(q1, k2) == yaw_ray_n(r, 4));
                    lemma_yaw_four(r);
                }
                _ => {}
            }
        }
        _ => {}
    }
}

impl Translate {
    /// Wrap a placed object with a shift by `offset`.
    pub fn new(object: Hittable, offset: Vec3) -> (r: Translate)
        ensures
            *r.object == object,
            r.offset == offset,
    {
        Translate { object: Box::new(object), offset }
    }
}

impl RotateY {
    /// Wrap an object with a rotation about the Y axis by `turns` quarter
    /// turns, the rotations the integer grid admits exactly.
    pub fn new(object: Hittable, turns: u8) -> (r: RotateY)
        requires
            turns < 4,
        ensures
            *r.object == object,
            r.turns == turns,
    {
        RotateY { object: Box::new(object), turns }
    }
}

impl FlipFace {
    /// Wrap an object so its hits report the opposite face.
    pub fn new(object: Hittable) -> (r: FlipFace)
        ensures
            *r.object == object,
    {
        FlipFace { object: Box::new(object) }
    }
}

impl Hittable {
    /// A direction from `origin` toward a point of a light-usable node:
    /// a rectangle aims at a uniformly sampled point of its surface, an
    /// aggregate delegates to a uniformly chosen member, and any other
    /// node answers the fixed fallback direction.
    /// The support of `random`: `res` is a direction this node can hand
    /// out when sampled from `origin`. A rectangle aims at some point of
    /// its surface: the offset lands within the rectangle's extent on the
    /// spanned axes and exactly on its plane on the fixed axis. An
    /// aggregate aims wherever some member aims, or gives the fixed
    /// fallback when it is empty; every other node gives the fallback.
    pub open spec fn aims_at(self, origin: Vec3, res: Vec3) -> bool
        decreases self,
    {
        match self {
            Hittable::XZRect(rect) => rect.x0 - origin.x <= res.x <= rect.x1 - origin.x
                && res.y == rect.k - origin.y
                && rect.z0 - origin.z <= res.z <= rect.z1 - origin.z,
            Hittable::XYRect(rect) => rect.x0 - origin.x <= res.x <= rect.x1 - origin.x
                && rect.y0 - origin.y <= res.y <= rect.y1 - origin.y
                && res.z == rect.k - origin.z,
            Hittable::YZRect(rect) => res.x == rect.k - origin.x
                && rect.y0 - origin.y <= res.y <= rect.y1 - origin.y
                && rect.z0 - origin.z <= res.z <= rect.z1 - origin.z,
            Hittable::List(l) => if l.objects@.len() == 0 {
                res == (Vec3 { x: 1i64, y: 0i64, z: 0i64 })
            } else {
                exists |j: int| 0 <= j < l.objects@.len()
                    && (#[trigger] l.objects@[j]).aims_at(origin, res)
            },
            _ => res == (Vec3 { x: 1i64, y: 0i64, z: 0i64 }),
        }
    }

    pub fn random(&self, origin: &Vec3) -> (res: Vec3)
        requires
            self.wf(),
            origin.bounded(COORD_MAX as int),
        ensures
            self.aims_at(*origin, res),
        decreases *self,
    {
        match self {
            Hittable::XZRect(rect) => {
                let px = crate::util::random_int_range(rect.x0, rect.x1 + 1);
                let pz = crate::util::random_int_range(rect.z0, rect.z1 + 1);
                let res = Vec3 { x: px - origin.x, y: rect.k - origin.y, z: pz - origin.z };
                proof {
                    assert(self.aims_at(*origin, res));
                }
                res
            }
            Hittable::XYRect(rect) => {
                let px = crate::util::random_int_range(rect.x0, rect.x1 + 1);
                let py = crate::util::random_int_range(rect.y0, rect.y1 + 1);
                let res = Vec3 { x: px - origin.x, y: py - origin.y, z: rect.k - origin.z };
                proof {
                    assert(self.aims_at(*origin, res));
                }
                res
            }
            Hittable::YZRect(rect) => {
                let py = crate::util::random_int_range(rect.y0, rect.y1 + 1);
                let pz = crate::util::random_int_range(rect.z0, rect.z1 + 1);
                let res = Vec3 { x: rect.k - origin.x, y: py - origin.y, z: pz - origin.z };
                proof {
                    assert(self.aims_at(*origin, res));
                }
                res
            }
            Hittable::List(l) => {
                let n = l.objects.len();
                if n == 0 {
                    Vec3 { x: 1, y: 0, z: 0 }
                } else {
                    let i = crate::util::random_index(n);
                    proof {
                        assert(l.objects@[i as int].wf());
                        assert(decreases_to!(*self => self->List_0));
                        assert(decreases_to!(self->List_0 => self->List_0.objects));
                        assert(decreases_to!(self->List_0.objects => self->List_0.objects@));
                        assert(decreases_to!(self->List_0.objects@
                            => self->List_0.objects@[i as int]));
                    }
                    let res = l.objects[i].random(origin);
                    proof {
                        assert(l.objects@[i as int].aims_at(*origin, res));
                        assert(self.aims_at(*origin, res));
                    }
                    res
                }
            }
            _ => Vec3 { x: 1, y: 0, z: 0 },
        }
    }
}

} // verus!
