use ray_tracer::hittable::BVHNode;
use ray_tracer::cube::Cube;
use ray_tracer::aarect::{XZRect, YZRect};
use ray_tracer::hittable::{Hittable, HittableList};
use ray_tracer::material::{Material, SolidTexture};
use ray_tracer::num::Frac;
use ray_tracer::ray::Ray;
use ray_tracer::triangle::Triangle;
use ray_tracer::vec3::{FVec3, Vec3};

fn white() -> Material {
    Material::Lambertian {
        albedo: SolidTexture::new(FVec3 {
            x: Frac { n: 73, d: 100 },
            y: Frac { n: 73, d: 100 },
            z: Frac { n: 73, d: 100 },
        }),
    }
}

fn interval() -> (Frac, Frac) {
    (Frac { n: 1, d: 1000 }, Frac::upper_limit())
}

fn sample_scene() -> Vec<Hittable> {
    let mut objects: Vec<Hittable> = Vec::new();
    objects.push(Hittable::XZRect(XZRect::new(white(), -50, 50, -50, 50, 0)));
    objects.push(Hittable::XZRect(XZRect::new(white(), -50, 50, -50, 50, 100)));
    objects.push(Hittable::YZRect(YZRect::new(white(), 0, 100, -50, 50, -50)));
    objects.push(Hittable::YZRect(YZRect::new(white(), 0, 100, -50, 50, 50)));
    objects.push(Hittable::Tri(Triangle::new_flat(
        Vec3::new(-20, 10, -20),
        Vec3::new(20, 10, -20),
        Vec3::new(0, 60, -20),
        white(),
    )));
    let cube = Cube::new(Vec3::new(-10, 20, 10), Vec3::new(10, 40, 30), white());
    objects.push(cube.into_node());
    objects
}

fn sample_rays() -> Vec<Ray> {
    let mut rays = Vec::new();
    let origins = [
        Vec3::new(0, 50, 200),
        Vec3::new(30, 80, 150),
        Vec3::new(-40, 10, 120),
        Vec3::new(0, 99, 0),
        Vec3::new(5, 50, 25),
    ];
    let dirs = [
        Vec3::new(0, 0, -1),
        Vec3::new(-1, -1, -3),
        Vec3::new(1, 0, -2),
        Vec3::new(0, -1, 0),
        Vec3::new(3, 1, -1),
        Vec3::new(-2, -1, 1),
    ];
    for o in origins {
        for d in dirs {
            rays.push(Ray::new(o, d));
        }
    }
    rays
}

/// The hierarchy answers exactly as the flat list, ray for ray.
#[test]
fn bvh_matches_flat_list() {
    let objects = sample_scene();
    let list_node = Hittable::List(HittableList { objects: sample_scene() });
    let bvh = BVHNode::new(objects, Frac::from_i64(0), Frac::from_i64(1));
    let bvh_node = Hittable::Bvh(bvh);
    let (lo, hi) = interval();
    let mut hits = 0;
    for r in sample_rays() {
        let a = list_node.hit(&r, lo, hi);
        let b = bvh_node.hit(&r, lo, hi);
        assert_eq!(a.is_some(), b.is_some());
        if let (Some(ra), Some(rb)) = (a, b) {
            assert!(ra.t.eq_frac(&rb.t));
            hits += 1;
        }
    }
    assert!(hits > 0);
}

#[test]
fn bvh_from_list_matches_flat_list() {
    let list = HittableList { objects: sample_scene() };
    let list_node = Hittable::List(HittableList { objects: sample_scene() });
    let bvh = BVHNode::from_list(list, Frac::from_i64(0), Frac::from_i64(1));
    let bvh_node = Hittable::Bvh(bvh);
    let (lo, hi) = interval();
    for r in sample_rays() {
        let a = list_node.hit(&r, lo, hi);
        let b = bvh_node.hit(&r, lo, hi);
        assert_eq!(a.is_some(), b.is_some());
        if let (Some(ra), Some(rb)) = (a, b) {
            assert!(ra.t.eq_frac(&rb.t));
        }
    }
}

#[test]
fn bvh_single_object() {
    let mut objects: Vec<Hittable> = Vec::new();
    objects.push(Hittable::XZRect(XZRect::new(white(), -10, 10, -10, 10, 5)));
    let bvh = BVHNode::new(objects, Frac::from_i64(0), Frac::from_i64(1));
    let node = Hittable::Bvh(bvh);
    let (lo, hi) = interval();
    let r = Ray::new(Vec3::new(0, 25, 0), Vec3::new(0, -1, 0));
    let rec = node.hit(&r, lo, hi).expect("must hit");
    assert!(rec.t.eq_frac(&Frac { n: 20, d: 1 }));
    let miss = Ray::new(Vec3::new(50, 25, 0), Vec3::new(0, -1, 0));
    assert!(node.hit(&miss, lo, hi).is_none());
}

#[test]
fn bvh_two_objects_keeps_closest() {
    let mut objects: Vec<Hittable> = Vec::new();
    objects.push(Hittable::XZRect(XZRect::new(white(), -10, 10, -10, 10, 2)));
    objects.push(Hittable::XZRect(XZRect::new(white(), -10, 10, -10, 10, 9)));
    let bvh = BVHNode::new(objects, Frac::from_i64(0), Frac::from_i64(1));
    let node = Hittable::Bvh(bvh);
    let (lo, hi) = interval();
    let r = Ray::new(Vec3::new(0, 25, 0), Vec3::new(0, -1, 0));
    let rec = node.hit(&r, lo, hi).expect("must hit");
    assert!(rec.t.eq_frac(&Frac { n: 16, d: 1 }));
}

#[test]
fn cube_has_six_sides_and_answers_on_each_axis() {
    let cube = Cube::new(Vec3::new(-10, -10, -10), Vec3::new(10, 10, 10), white());
    assert_eq!(cube.sides.objects.len(), 6);
    let node = cube.into_node();
    let (lo, hi) = interval();
    let from_x = Ray::new(Vec3::new(40, 0, 0), Vec3::new(-1, 0, 0));
    let rec = node.hit(&from_x, lo, hi).expect("must hit");
    assert!(rec.t.eq_frac(&Frac { n: 30, d: 1 }));
    let from_y = Ray::new(Vec3::new(0, -40, 0), Vec3::new(0, 1, 0));
    let rec = node.hit(&from_y, lo, hi).expect("must hit");
    assert!(rec.t.eq_frac(&Frac { n: 30, d: 1 }));
    let from_z = Ray::new(Vec3::new(0, 0, 40), Vec3::new(0, 0, -1));
    let rec = node.hit(&from_z, lo, hi).expect("must hit");
    assert!(rec.t.eq_frac(&Frac { n: 30, d: 1 }));
}

#[test]
fn ray_through_cube_interior_hits_far_face_from_inside() {
    let cube = Cube::new(Vec3::new(-10, -10, -10), Vec3::new(10, 10, 10), white());
    let node = cube.into_node();
    let (lo, hi) = interval();
    let r = Ray::new(Vec3::new(0, 0, 0), Vec3::new(0, 0, -1));
    let rec = node.hit(&r, lo, hi).expect("must hit");
    assert!(rec.t.eq_frac(&Frac { n: 10, d: 1 }));
    // The face at the smaller Z carries a +Z outward normal, which points
    // into the box: a ray arriving from inside strikes its front.
    assert!(rec.front_face);
}

#[test]
fn hit_reports_the_struck_primitive_material() {
    let near_mat = Material::DiffuseLight {
        emit: SolidTexture::new(FVec3 {
            x: Frac { n: 15, d: 1 },
            y: Frac { n: 15, d: 1 },
            z: Frac { n: 15, d: 1 },
        }),
    };
    let mut list = HittableList::new();
    list.add(Hittable::XZRect(XZRect::new(white(), -10, 10, -10, 10, 2)));
    list.add(Hittable::XZRect(XZRect::new(near_mat, -10, 10, -10, 10, 9)));
    let node = Hittable::List(list);
    let (lo, hi) = interval();
    let r = Ray::new(Vec3::new(0, 25, 0), Vec3::new(0, -1, 0));
    let rec = node.hit(&r, lo, hi).expect("must hit");
    // The closer rectangle is the light: its emission comes back.
    let e = rec.mat.emitted(rec.front_face);
    assert!(e.x.eq_frac(&Frac { n: 15, d: 1 }));
}

#[test]
fn bvh_box_is_the_merge_and_contains_member_boxes() {
    let t0 = Frac::from_i64(0);
    let t1 = Frac::from_i64(1);
    let members = sample_scene();
    let mut member_boxes = Vec::new();
    for m in members.iter() {
        member_boxes.push(m.bounding_box(t0, t1).expect("boxed"));
    }
    let bvh = BVHNode::new(sample_scene(), t0, t1);
    let node = Hittable::Bvh(bvh);
    let bx = node.bounding_box(t0, t1).expect("boxed");
    for mb in member_boxes {
        assert!(bx.min().x <= mb.min().x && mb.max().x <= bx.max().x);
        assert!(bx.min().y <= mb.min().y && mb.max().y <= bx.max().y);
        assert!(bx.min().z <= mb.min().z && mb.max().z <= bx.max().z);
    }
    // And it equals the flat list's progressive merge here.
    let list = Hittable::List(HittableList { objects: sample_scene() });
    let lb = list.bounding_box(t0, t1).expect("boxed");
    assert_eq!(bx.min(), lb.min());
    assert_eq!(bx.max(), lb.max());
}
