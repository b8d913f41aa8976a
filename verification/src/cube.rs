//! The axis-aligned box primitive: six rectangles in one aggregate.
//!
//! A cube delegates intersection and bounding to the linear aggregate of
//! its six faces, two per axis at the box's extreme coordinates.

use vstd::prelude::*;
use crate::aarect::{XYRect, XZRect, YZRect};
use crate::hittable::{Hittable, HittableList};
use crate::material::Material;
use crate::vec3::{Vec3, COORD_MAX};

verus! {

pub struct Cube {
    pub cube_min: Vec3,
    pub cube_max: Vec3,
    pub sides: HittableList,
}

impl Cube {
    /// The six faces of the box `[cube_min, cube_max]`, each carrying the
    /// same material.
    pub fn new(cube_min: Vec3, cube_max: Vec3, mat: Material) -> (res: Cube)
        requires
            cube_min.bounded(COORD_MAX as int),
            cube_max.bounded(COORD_MAX as int),
            cube_min.x < cube_max.x,
            cube_min.y < cube_max.y,
            cube_min.z < cube_max.z,
            mat.wf(),
        ensures
            res.cube_min == cube_min,
            res.cube_max == cube_max,
            res.sides.objects@.len() == 6,
            res.sides.objects@[0] == Hittable::XYRect(XYRect {
                x0: cube_min.x, x1: cube_max.x, y0: cube_min.y, y1: cube_max.y,
                k: cube_max.z, mat,
            }),
            res.sides.objects@[1] == Hittable::XYRect(XYRect {
                x0: cube_min.x, x1: cube_max.x, y0: cube_min.y, y1: cube_max.y,
                k: cube_min.z, mat,
            }),
            res.sides.objects@[2] == Hittable::XZRect(XZRect {
                x0: cube_min.x, x1: cube_max.x, z0: cube_min.z, z1: cube_max.z,
                k: cube_max.y, mat,
            }),
            res.sides.objects@[3] == Hittable::XZRect(XZRect {
                x0: cube_min.x, x1: cube_max.x, z0: cube_min.z, z1: cube_max.z,
                k: cube_min.y, mat,
            }),
            res.sides.objects@[4] == Hittable::YZRect(YZRect {
                y0: cube_min.y, y1: cube_max.y, z0: cube_min.z, z1: cube_max.z,
                k: cube_max.x, mat,
            }),
            res.sides.objects@[5] == Hittable::YZRect(YZRect {
                y0: cube_min.y, y1: cube_max.y, z0: cube_min.z, z1: cube_max.z,
                k: cube_min.x, mat,
            }),
            Hittable::List(HittableList { objects: res.sides.objects }).wf(),
            Hittable::List(HittableList { objects: res.sides.objects }).boxed(),
            Hittable::List(HittableList { objects: res.sides.objects }).bvh_free(),
            forall |b: int| Hittable::List(HittableList { objects: res.sides.objects })
                .depth_ok(b),
    {
        let mut sides = HittableList::new();
        sides.add(Hittable::XYRect(XYRect::new(mat, cube_min.x, cube_max.x, cube_min.y,
            cube_max.y, cube_max.z)));
        sides.add(Hittable::XYRect(XYRect::new(mat, cube_min.x, cube_max.x, cube_min.y,
            cube_max.y, cube_min.z)));
        sides.add(Hittable::XZRect(XZRect::new(mat, cube_min.x, cube_max.x, cube_min.z,
            cube_max.z, cube_max.y)));
        sides.add(Hittable::XZRect(XZRect::new(mat, cube_min.x, cube_max.x, cube_min.z,
            cube_max.z, cube_min.y)));
        sides.add(Hittable::YZRect(YZRect::new(mat, cube_min.y, cube_max.y, cube_min.z,
            cube_max.z, cube_max.x)));
        sides.add(Hittable::YZRect(YZRect::new(mat, cube_min.y, cube_max.y, cube_min.z,
            cube_max.z, cube_min.x)));
        let res = Cube { cube_min, cube_max, sides };
        proof {
            let node = Hittable::List(HittableList { objects: res.sides.objects });
            assert forall |i: int| 0 <= i < res.sides.objects@.len()
                implies (#[trigger] res.sides.objects@[i]).wf() by {}
            assert forall |i: int| 0 <= i < res.sides.objects@.len()
                implies (#[trigger] res.sides.objects@[i]).boxed() by {}
            assert forall |i: int| 0 <= i < res.sides.objects@.len()
                implies (#[trigger] res.sides.objects@[i]).bvh_free() by {}
            assert forall |b: int| #[trigger] node.depth_ok(b) by {
                assert forall |i: int| 0 <= i < res.sides.objects@.len()
                    implies (#[trigger] res.sides.objects@[i]).depth_ok(b) by {}
            }
        }
        res
    }

    /// The cube as a scene node: the aggregate of its six faces.
    pub fn into_node(self) -> (res: Hittable)
        ensures
            res == Hittable::List(HittableList { objects: self.sides.objects }),
    {
        Hittable::List(self.sides)
    }
}

} // verus!
