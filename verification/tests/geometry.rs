use ray_tracer::aabb::AABB;
use ray_tracer::aarect::{XYRect, XZRect, YZRect};
use ray_tracer::hittable::{FlipFace, Hittable, HittableList, RotateY, Translate};
use ray_tracer::material::{Material, SolidTexture};
use ray_tracer::num::Frac;
use ray_tracer::ray::Ray;
use ray_tracer::triangle::Triangle;
use ray_tracer::vec3::{FVec3, Vec3};

fn gray() -> Material {
    Material::Lambertian {
        albedo: SolidTexture::new(FVec3 {
            x: Frac { n: 1, d: 2 },
            y: Frac { n: 1, d: 2 },
            z: Frac { n: 1, d: 2 },
        }),
    }
}

fn interval() -> (Frac, Frac) {
    (Frac::from_i64(0), Frac::upper_limit())
}

#[test]
fn surrounding_box_contains_both() {
    let a = AABB::new(&Vec3::new(-10, -10, -10), &Vec3::new(5, 5, 5));
    let b = AABB::new(&Vec3::new(0, 0, 0), &Vec3::new(20, 30, 40));
    let m = a.surrounding_box(&b);
    assert_eq!(m.min(), Vec3::new(-10, -10, -10));
    assert_eq!(m.max(), Vec3::new(20, 30, 40));
}

#[test]
fn surrounding_box_with_empty_sentinel_is_identity() {
    let sentinel = AABB::new_max();
    let b = AABB::new(&Vec3::new(-3, 1, 2), &Vec3::new(4, 5, 6));
    let m = sentinel.surrounding_box(&b);
    assert_eq!(m.min(), b.min());
    assert_eq!(m.max(), b.max());
}

#[test]
fn add_point_grows_box() {
    let mut b = AABB::new(&Vec3::new(0, 0, 0), &Vec3::new(1, 1, 1));
    b.add_point(&Vec3::new(-5, 2, 0));
    assert_eq!(b.min(), Vec3::new(-5, 0, 0));
    assert_eq!(b.max(), Vec3::new(1, 2, 1));
}

#[test]
fn slab_test_hits_from_inside_any_direction() {
    let b = AABB::new(&Vec3::new(-10, -10, -10), &Vec3::new(10, 10, 10));
    let origin = Vec3::new(1, 2, 3);
    let dirs = [
        Vec3::new(1, 0, 0),
        Vec3::new(-7, 3, 2),
        Vec3::new(0, 0, -1),
        Vec3::new(5, -5, 5),
    ];
    for d in dirs {
        let r = Ray::new(origin, d);
        let lo = Frac { n: -1, d: 1 };
        let hi = Frac { n: 1000, d: 1 };
        assert!(b.hit(&r, lo, hi));
    }
}

#[test]
fn slab_test_misses_box_behind_ray() {
    let b = AABB::new(&Vec3::new(10, 10, 10), &Vec3::new(20, 20, 20));
    let r = Ray::new(Vec3::new(0, 0, 0), Vec3::new(-1, -1, -1));
    let (lo, hi) = interval();
    assert!(!b.hit(&r, lo, hi));
}

#[test]
fn xz_rect_hit_reports_exact_distance_and_point() {
    // Plane y = 5, rect spanning [-10, 10] x [-10, 10]; ray straight down
    // from (0, 25, 0) at unit speed reaches it at t == 20.
    let rect = XZRect::new(gray(), -10, 10, -10, 10, 5);
    let r = Ray::new(Vec3::new(0, 25, 0), Vec3::new(0, -1, 0));
    let (lo, hi) = interval();
    let rec = rect.hit(&r, lo, hi).expect("must hit");
    assert!(rec.t.eq_frac(&Frac { n: 20, d: 1 }));
    assert!(rec.p.x.eq_frac(&Frac { n: 0, d: 1 }));
    assert!(rec.p.y.eq_frac(&Frac { n: 5, d: 1 }));
    assert!(rec.p.z.eq_frac(&Frac { n: 0, d: 1 }));
    // Ray arrives from above against the +Y outward normal: front face.
    assert!(rec.front_face);
}

#[test]
fn xz_rect_miss_outside_extent() {
    let rect = XZRect::new(gray(), -10, 10, -10, 10, 5);
    let r = Ray::new(Vec3::new(50, 25, 0), Vec3::new(0, -1, 0));
    let (lo, hi) = interval();
    assert!(rect.hit(&r, lo, hi).is_none());
}

#[test]
fn xz_rect_parallel_ray_misses() {
    let rect = XZRect::new(gray(), -10, 10, -10, 10, 5);
    let r = Ray::new(Vec3::new(0, 5, 0), Vec3::new(1, 0, 0));
    let (lo, hi) = interval();
    assert!(rect.hit(&r, lo, hi).is_none());
}

#[test]
fn xy_and_yz_rect_orientations() {
    let (lo, hi) = interval();
    let xy = XYRect::new(gray(), -10, 10, -10, 10, 7);
    let r = Ray::new(Vec3::new(0, 0, 30), Vec3::new(0, 0, -1));
    let rec = xy.hit(&r, lo, hi).expect("must hit");
    assert!(rec.t.eq_frac(&Frac { n: 23, d: 1 }));
    assert!(rec.front_face);

    let yz = YZRect::new(gray(), -10, 10, -10, 10, -4);
    let r2 = Ray::new(Vec3::new(-30, 0, 0), Vec3::new(2, 0, 0));
    let rec2 = yz.hit(&r2, lo, hi).expect("must hit");
    // 26 units at speed 2: t == 13.
    assert!(rec2.t.eq_frac(&Frac { n: 13, d: 1 }));
    assert!(!rec2.front_face);
}

#[test]
fn triangle_hit_center() {
    // Right triangle in the plane z = 0; the ray aims at (1, 1, 0), well
    // inside, from z = 10, and meets it at t == 10.
    let tri = Triangle::new_flat(
        Vec3::new(0, 0, 0),
        Vec3::new(4, 0, 0),
        Vec3::new(0, 4, 0),
        gray(),
    );
    let r = Ray::new(Vec3::new(1, 1, 10), Vec3::new(0, 0, -1));
    let (lo, hi) = interval();
    let rec = tri.hit(&r, lo, hi).expect("must hit");
    assert!(rec.t.eq_frac(&Frac { n: 10, d: 1 }));
    assert!(rec.p.x.eq_frac(&Frac { n: 1, d: 1 }));
    assert!(rec.p.y.eq_frac(&Frac { n: 1, d: 1 }));
    assert!(rec.p.z.eq_frac(&Frac { n: 0, d: 1 }));
    // Barycentric coordinates of (1, 1) in that triangle: u = v = 1/4.
    assert!(rec.u.eq_frac(&Frac { n: 1, d: 4 }));
    assert!(rec.v.eq_frac(&Frac { n: 1, d: 4 }));
}

#[test]
fn triangle_miss_outside() {
    let tri = Triangle::new_flat(
        Vec3::new(0, 0, 0),
        Vec3::new(4, 0, 0),
        Vec3::new(0, 4, 0),
        gray(),
    );
    let r = Ray::new(Vec3::new(3, 3, 10), Vec3::new(0, 0, -1));
    let (lo, hi) = interval();
    assert!(tri.hit(&r, lo, hi).is_none());
}

#[test]
fn translate_shifts_hit_point() {
    let rect = Hittable::XZRect(XZRect::new(gray(), -10, 10, -10, 10, 0));
    let moved = Hittable::Translate(Translate {
        object: Box::new(rect),
        offset: Vec3::new(0, 7, 0),
    });
    let r = Ray::new(Vec3::new(0, 20, 0), Vec3::new(0, -1, 0));
    let (lo, hi) = interval();
    let rec = moved.hit(&r, lo, hi).expect("must hit");
    // The plane moved from y = 0 to y = 7, so the crossing is at t == 13.
    assert!(rec.t.eq_frac(&Frac { n: 13, d: 1 }));
    assert!(rec.p.y.eq_frac(&Frac { n: 7, d: 1 }));
}

#[test]
fn flip_face_inverts_flag_only() {
    let rect = Hittable::XZRect(XZRect::new(gray(), -10, 10, -10, 10, 5));
    let flipped = Hittable::FlipFace(FlipFace { object: Box::new(rect) });
    let r = Ray::new(Vec3::new(0, 25, 0), Vec3::new(0, -1, 0));
    let (lo, hi) = interval();
    let rec = flipped.hit(&r, lo, hi).expect("must hit");
    assert!(!rec.front_face);
    assert!(rec.t.eq_frac(&Frac { n: 20, d: 1 }));
}

#[test]
fn rotate_quarter_turn_moves_plane() {
    // An XZ rectangle rotated a quarter turn about Y still spans the same
    // plane; rotating an XY rectangle moves it into the YZ plane.
    let rect = Hittable::XYRect(XYRect::new(gray(), -10, 10, -10, 10, 3));
    let rotated = Hittable::RotateY(RotateY {
        object: Box::new(rect),
        turns: 1,
    });
    // After one turn the rectangle that sat at z = 3 answers rays along X.
    let r = Ray::new(Vec3::new(-30, 0, 0), Vec3::new(1, 0, 0));
    let (lo, hi) = interval();
    let rec = rotated.hit(&r, lo, hi);
    assert!(rec.is_some());
}

#[test]
fn rotate_round_trip_reproduces_hits() {
    let rect = Hittable::XYRect(XYRect::new(gray(), -10, 10, -10, 10, 3));
    let once = Hittable::RotateY(RotateY {
        object: Box::new(rect),
        turns: 1,
    });
    let back = Hittable::RotateY(RotateY {
        object: Box::new(once),
        turns: 3,
    });
    let plain = Hittable::XYRect(XYRect::new(gray(), -10, 10, -10, 10, 3));
    let (lo, hi) = interval();
    let rays = [
        Ray::new(Vec3::new(0, 0, 30), Vec3::new(0, 0, -1)),
        Ray::new(Vec3::new(5, -2, 30), Vec3::new(0, 0, -1)),
        Ray::new(Vec3::new(2, 1, 20), Vec3::new(-1, 0, -2)),
        Ray::new(Vec3::new(30, 0, 0), Vec3::new(-1, 0, 0)),
    ];
    for r in rays {
        let a = back.hit(&r, lo, hi);
        let b = plain.hit(&r, lo, hi);
        assert_eq!(a.is_some(), b.is_some());
        if let (Some(ra), Some(rb)) = (a, b) {
            assert!(ra.t.eq_frac(&rb.t));
            assert!(ra.p.x.eq_frac(&rb.p.x));
            assert!(ra.p.y.eq_frac(&rb.p.y));
            assert!(ra.p.z.eq_frac(&rb.p.z));
        }
    }
}

#[test]
fn list_keeps_closest_hit() {
    let far = Hittable::XZRect(XZRect::new(gray(), -10, 10, -10, 10, 2));
    let near = Hittable::XZRect(XZRect::new(gray(), -10, 10, -10, 10, 9));
    let mut list = HittableList::new();
    list.add(far);
    list.add(near);
    let node = Hittable::List(list);
    let r = Ray::new(Vec3::new(0, 25, 0), Vec3::new(0, -1, 0));
    let (lo, hi) = interval();
    let rec = node.hit(&r, lo, hi).expect("must hit");
    // The plane at y = 9 is struck first: t == 16, not 23.
    assert!(rec.t.eq_frac(&Frac { n: 16, d: 1 }));
}

#[test]
fn empty_list_hits_nothing_and_has_no_box() {
    let node = Hittable::List(HittableList::new());
    let r = Ray::new(Vec3::new(0, 25, 0), Vec3::new(0, -1, 0));
    let (lo, hi) = interval();
    assert!(node.hit(&r, lo, hi).is_none());
    let t0 = Frac::from_i64(0);
    let t1 = Frac::from_i64(1);
    assert!(node.bounding_box(t0, t1).is_none());
}

#[test]
fn bounding_box_of_list_merges_children() {
    let a = Hittable::XZRect(XZRect::new(gray(), -10, 10, -20, 20, 2));
    let b = Hittable::XZRect(XZRect::new(gray(), -30, 5, -1, 1, 8));
    let mut list = HittableList::new();
    list.add(a);
    list.add(b);
    let node = Hittable::List(list);
    let bx = node
        .bounding_box(Frac::from_i64(0), Frac::from_i64(1))
        .expect("boxed");
    assert_eq!(bx.min(), Vec3::new(-30, 1, -20));
    assert_eq!(bx.max(), Vec3::new(10, 9, 20));
}

#[test]
fn reflect_is_exact_scaled_mirror() {
    // Reflecting (1, -1, 0) about the +Y normal gives (1, 1, 0), scaled by
    // the squared length of the normal (here 1).
    let v = Vec3::new(1, -1, 0);
    let n = Vec3::new(0, 1, 0);
    let r = ray_tracer::vec3::reflect(&v, &n);
    assert_eq!(r, Vec3::new(1, 1, 0));
    // A non-unit normal scales the whole direction by its squared length.
    let n2 = Vec3::new(0, 2, 0);
    let r2 = ray_tracer::vec3::reflect(&v, &n2);
    assert_eq!(r2, Vec3::new(4, 4, 0));
}

#[test]
fn light_sampling_aims_at_the_rectangle() {
    let rect = Hittable::XZRect(XZRect::new(gray(), -10, 10, -10, 10, 50));
    let origin = Vec3::new(0, 0, 0);
    for _ in 0..50 {
        let d = rect.random(&origin);
        assert_eq!(d.y, 50);
        assert!((-10..=10).contains(&d.x));
        assert!((-10..=10).contains(&d.z));
    }
}

#[test]
fn list_light_sampling_delegates_to_a_member() {
    let mut list = HittableList::new();
    list.add(Hittable::XZRect(XZRect::new(gray(), -10, 10, -10, 10, 50)));
    list.add(Hittable::XZRect(XZRect::new(gray(), -10, 10, -10, 10, 80)));
    let node = Hittable::List(list);
    let origin = Vec3::new(0, 0, 0);
    for _ in 0..50 {
        let d = node.random(&origin);
        assert!(d.y == 50 || d.y == 80);
    }
}

#[test]
fn rect_boundary_hit_is_inclusive() {
    // A ray aimed exactly at the rectangle's edge still hits: the extent
    // is closed.
    let rect = XZRect::new(gray(), -10, 10, -10, 10, 5);
    let r = Ray::new(Vec3::new(10, 25, -10), Vec3::new(0, -1, 0));
    let (lo, hi) = interval();
    let rec = rect.hit(&r, lo, hi).expect("edge counts");
    assert!(rec.t.eq_frac(&Frac { n: 20, d: 1 }));
}

#[test]
fn hit_respects_the_open_search_interval() {
    let rect = XZRect::new(gray(), -10, 10, -10, 10, 5);
    let r = Ray::new(Vec3::new(0, 25, 0), Vec3::new(0, -1, 0));
    // The crossing is at t == 20; a search interval ending there finds
    // nothing, since the interval is open.
    let lo = Frac { n: 0, d: 1 };
    let hi = Frac { n: 20, d: 1 };
    assert!(rect.hit(&r, lo, hi).is_none());
    // Widen the end by any amount and the crossing appears.
    let hi2 = Frac { n: 201, d: 10 };
    assert!(rect.hit(&r, lo, hi2).is_some());
}

#[test]
fn nested_translations_compose() {
    let rect = Hittable::XZRect(XZRect::new(gray(), -10, 10, -10, 10, 0));
    let once = Hittable::Translate(Translate::new(rect, Vec3::new(0, 3, 0)));
    let twice = Hittable::Translate(Translate::new(once, Vec3::new(0, 4, 0)));
    let r = Ray::new(Vec3::new(0, 20, 0), Vec3::new(0, -1, 0));
    let (lo, hi) = interval();
    let rec = twice.hit(&r, lo, hi).expect("must hit");
    assert!(rec.t.eq_frac(&Frac { n: 13, d: 1 }));
    assert!(rec.p.y.eq_frac(&Frac { n: 7, d: 1 }));
}

#[test]
fn two_half_turns_reproduce_hits() {
    let rect = Hittable::XYRect(XYRect::new(gray(), -10, 10, -10, 10, 3));
    let half = Hittable::RotateY(RotateY::new(rect, 2));
    let full = Hittable::RotateY(RotateY::new(half, 2));
    let plain = Hittable::XYRect(XYRect::new(gray(), -10, 10, -10, 10, 3));
    let (lo, hi) = interval();
    let r = Ray::new(Vec3::new(4, -1, 30), Vec3::new(0, 0, -1));
    let a = full.hit(&r, lo, hi).expect("must hit");
    let b = plain.hit(&r, lo, hi).expect("must hit");
    assert!(a.t.eq_frac(&b.t));
    assert!(a.p.x.eq_frac(&b.p.x));
    assert!(a.p.z.eq_frac(&b.p.z));
}

#[test]
fn ray_at_walks_the_ray_exactly() {
    let r = Ray::new(Vec3::new(1, 2, 3), Vec3::new(4, -5, 6));
    let p = r.at(Frac { n: 1, d: 2 });
    assert!(p.x.eq_frac(&Frac { n: 3, d: 1 }));
    assert!(p.y.eq_frac(&Frac { n: -1, d: 2 }));
    assert!(p.z.eq_frac(&Frac { n: 6, d: 1 }));
}

#[test]
fn smooth_triangle_interpolates_normals() {
    let tri = Triangle::new_smooth(
        Vec3::new(0, 0, 0),
        Vec3::new(4, 0, 0),
        Vec3::new(0, 4, 0),
        Vec3::new(0, 0, 1),
        Vec3::new(0, 0, 1),
        Vec3::new(0, 0, 1),
        gray(),
    );
    let r = Ray::new(Vec3::new(1, 1, 10), Vec3::new(0, 0, -1));
    let (lo, hi) = interval();
    let rec = tri.hit(&r, lo, hi).expect("must hit");
    // All three vertex normals agree, so the blend is that normal, which
    // faces the arriving ray.
    assert!(rec.front_face);
    assert!(rec.normal.z.eq_frac(&Frac { n: 1, d: 1 }));
}

#[test]
fn sentinel_identity_holds_for_shifted_boxes() {
    // A box shifted well past the primitive range still merges with the
    // sentinel to itself.
    let sentinel = AABB::new_max();
    let b = AABB::new(&Vec3::new(150_000, 200_000, -180_000), &Vec3::new(400_000, 600_000, -90_000));
    let m = sentinel.surrounding_box(&b);
    assert_eq!(m.min(), b.min());
    assert_eq!(m.max(), b.max());
    let m2 = b.surrounding_box(&sentinel);
    assert_eq!(m2.min(), b.min());
    assert_eq!(m2.max(), b.max());
}

#[test]
fn translated_box_is_the_child_box_shifted() {
    let rect = Hittable::XZRect(XZRect::new(gray(), -10, 10, -10, 10, 5));
    let moved = Hittable::Translate(Translate::new(rect, Vec3::new(100, 200, 300)));
    let bx = moved
        .bounding_box(Frac::from_i64(0), Frac::from_i64(1))
        .expect("boxed");
    assert_eq!(bx.min(), Vec3::new(90, 204, 290));
    assert_eq!(bx.max(), Vec3::new(110, 206, 310));
}

#[test]
fn fallback_sampling_direction_for_non_lights() {
    let tri = Hittable::Tri(Triangle::new_flat(
        Vec3::new(0, 0, 0),
        Vec3::new(4, 0, 0),
        Vec3::new(0, 4, 0),
        gray(),
    ));
    assert_eq!(tri.random(&Vec3::new(1, 2, 3)), Vec3::new(1, 0, 0));
    let empty = Hittable::List(HittableList::new());
    assert_eq!(empty.random(&Vec3::new(1, 2, 3)), Vec3::new(1, 0, 0));
}

#[test]
fn rotated_box_is_the_turned_child_box() {
    // A quarter turn about Y carries the box over x in [2, 6], z in
    // [-11, -9] to x in [9, 11], z in [2, 6].
    let rect = Hittable::XYRect(XYRect::new(gray(), 2, 6, -3, 4, -10));
    let rotated = Hittable::RotateY(RotateY::new(rect, 1));
    let bx = rotated
        .bounding_box(Frac::from_i64(0), Frac::from_i64(1))
        .expect("boxed");
    assert_eq!(bx.min(), Vec3::new(9, -3, 2));
    assert_eq!(bx.max(), Vec3::new(11, 4, 6));
}

#[test]
fn triangle_box_is_the_vertex_extrema() {
    let tri = Triangle::new_flat(
        Vec3::new(-3, 0, 7),
        Vec3::new(4, -2, 0),
        Vec3::new(0, 5, 1),
        gray(),
    );
    let bx = tri.bounding_box();
    assert_eq!(bx.min(), Vec3::new(-3, -2, 0));
    assert_eq!(bx.max(), Vec3::new(4, 5, 7));
}
