//! Building the bounding volume hierarchy.
//!
//! Construction picks an axis at random, orders the nodes by their boxes'
//! minimum coordinate on that axis, splits at the midpoint and recurses.
//! The ordering only affects traversal cost: the built hierarchy is proved
//! to meet exactly the same rays as the flat collection it was built from.

use vstd::prelude::*;
use vstd::seq_lib::lemma_multiset_commutative;
use crate::num::{Frac, frac_le, frac_lt};
use crate::aabb::AABB;
use crate::hittable::{Hittable, HittableList, BVHNode};
use crate::ray::Ray;
use crate::util::random_int_range;

verus! {

/// Every element is well formed, fits the depth budget, reports a box, and
/// keeps a hierarchy only at full origin headroom.
pub open spec fn buildable(s: Seq<Hittable>) -> bool {
    &&& forall |j: int| 0 <= j < s.len() ==> (#[trigger] s[j]).wf()
    &&& forall |j: int| 0 <= j < s.len() ==> (#[trigger] s[j]).depth_ok(5)
    &&& forall |j: int| 0 <= j < s.len() ==> (#[trigger] s[j]).boxed()
}

/// No element of the collection is itself a hierarchy node: the build
/// then keeps every element as a leaf.
pub open spec fn no_bvh_elements(s: Seq<Hittable>) -> bool {
    forall |j: int| 0 <= j < s.len() ==> !((#[trigger] s[j]) is Bvh)
}

/// The multiset of leaves of a built hierarchy: hierarchy nodes are
/// internal, an empty aggregate pads a one-element node and counts for
/// nothing, and every other node is a leaf.
pub open spec fn bvh_leaves(n: Hittable) -> vstd::multiset::Multiset<Hittable>
    decreases n,
{
    match n {
        Hittable::Bvh(b) => bvh_leaves(*b.left).add(bvh_leaves(*b.right)),
        Hittable::List(l) => if l.objects@.len() == 0 {
            vstd::multiset::Multiset::empty()
        } else {
            vstd::multiset::Multiset::empty().insert(n)
        },
        _ => vstd::multiset::Multiset::empty().insert(n),
    }
}

/// Box `inner` lies within box `outer`, componentwise.
pub open spec fn box_within(inner: AABB, outer: AABB) -> bool {
    &&& outer.min.x <= inner.min.x && inner.max.x <= outer.max.x
    &&& outer.min.y <= inner.min.y && inner.max.y <= outer.max.y
    &&& outer.min.z <= inner.min.z && inner.max.z <= outer.max.z
}

/// The box a collection member reports, for members that report one.
pub open spec fn member_box(x: Hittable) -> AABB {
    match x.box_model() {
        Option::Some(b) => b,
        Option::None => crate::hittable::empty_box(),
    }
}

/// The exact box a built node stores: the merge of its children's boxes,
/// with the empty sentinel standing in for a child without a box.
pub open spec fn children_box_merge(res: BVHNode) -> AABB {
    AABB::merge(
        match (*res.left).box_model() {
            Option::Some(lb) => lb,
            Option::None => crate::hittable::empty_box(),
        },
        match (*res.right).box_model() {
            Option::Some(rb) => rb,
            Option::None => crate::hittable::empty_box(),
        },
    )
}

/// Some node of the multiset is hit at `t`.
pub open spec fn multiset_hits_at(m: vstd::multiset::Multiset<Hittable>, r: Ray, t: Frac) -> bool {
    exists |x: Hittable| m.count(x) > 0 && #[trigger] x.hits_at(r, t)
}

/// A linear aggregate is hit exactly where one of its members is.
pub proof fn lemma_list_hits(node: Hittable, r: Ray, t: Frac)
    requires
        node is List,
    ensures
        node.hits_at(r, t) == (exists |j: int| 0 <= j < node->List_0.objects@.len()
            && (#[trigger] node->List_0.objects@[j]).hits_at(r, t)),
{
    match node {
        Hittable::List(l) => {
            if node.hits_at(r, t) {
                let j = choose |j: int| 0 <= j < l.objects@.len()
                    && (#[trigger] l.objects@[j]).hits_at(r, t);
                assert(node->List_0.objects@[j].hits_at(r, t));
            }
            if exists |j: int| 0 <= j < node->List_0.objects@.len()
                && (#[trigger] node->List_0.objects@[j]).hits_at(r, t) {
                let j = choose |j: int| 0 <= j < node->List_0.objects@.len()
                    && (#[trigger] node->List_0.objects@[j]).hits_at(r, t);
                assert(l.objects@[j].hits_at(r, t));
                assert(node.hits_at(r, t));
            }
        }
        _ => {}
    }
}

/// A sequence hits exactly where its multiset does.
pub proof fn lemma_seq_multiset_hits(s: Seq<Hittable>, r: Ray, t: Frac)
    ensures
        (exists |j: int| 0 <= j < s.len() && (#[trigger] s[j]).hits_at(r, t))
            <==> multiset_hits_at(s.to_multiset(), r, t),
{
    broadcast use vstd::seq_lib::group_to_multiset_ensures;

    if exists |j: int| 0 <= j < s.len() && (#[trigger] s[j]).hits_at(r, t) {
        let j = choose |j: int| 0 <= j < s.len() && (#[trigger] s[j]).hits_at(r, t);
        assert(s.contains(s[j]));
        assert(s.to_multiset().count(s[j]) > 0);
    }
    if multiset_hits_at(s.to_multiset(), r, t) {
        let x = choose |x: Hittable| s.to_multiset().count(x) > 0 && #[trigger] x.hits_at(r, t);
        assert(s.contains(x));
        let j = choose |j: int| 0 <= j < s.len() && s[j] == x;
        assert(s[j].hits_at(r, t));
    }
}

/// Multiset-equal collections agree on holding no hierarchy element.
proof fn lemma_no_bvh_permutation(a: Seq<Hittable>, b: Seq<Hittable>)
    requires
        a.to_multiset() == b.to_multiset(),
        no_bvh_elements(a),
    ensures
        no_bvh_elements(b),
{
    broadcast use vstd::seq_lib::group_to_multiset_ensures;

    assert forall |j: int| 0 <= j < b.len() implies !((#[trigger] b[j]) is Bvh) by {
        assert(b.contains(b[j]));
        assert(b.to_multiset().count(b[j]) > 0);
        assert(a.to_multiset().count(b[j]) > 0);
        assert(a.contains(b[j]));
        let i = choose |i: int| 0 <= i < a.len() && a[i] == b[j];
        assert(!(a[i] is Bvh));
    }
}

/// A node that reports a box and is not a hierarchy is one leaf.
proof fn lemma_single_leaf(a: Hittable)
    requires
        !(a is Bvh),
        a.boxed(),
    ensures
        bvh_leaves(a) =~= vstd::multiset::Multiset::empty().insert(a),
{
}

/// The coordinate, on the chosen axis, of the minimum corner of a node's
/// box, as the ordering key of hierarchy construction.
pub open spec fn axis_key_spec(o: Hittable, axis: int) -> int {
    match o.box_model() {
        Option::Some(b) => if axis == 0 {
            b.min.x as int
        } else if axis == 1 {
            b.min.y as int
        } else {
            b.min.z as int
        },
        Option::None => 0,
    }
}

/// The coordinate, on the chosen axis, of the minimum corner of a node's
/// bounding box: the key that orders nodes during hierarchy construction.
fn axis_key(o: &Hittable, axis: usize, time0: Frac, time1: Frac) -> (r: i64)
    requires
        o.wf(),
        o.depth_ok(5),
        o.boxed(),
        axis < 3,
    ensures
        -(crate::aabb::BOX_MAX as int) <= r <= crate::aabb::BOX_MAX as int,
        r == axis_key_spec(*o, axis as int),
{
    let bx = o.bounding_box(time0, time1);
    match bx {
        Some(b) => {
            if axis == 0 {
                b.min.x
            } else if axis == 1 {
                b.min.y
            } else {
                b.min.z
            }
        }
        None => 0,
    }
}

/// Whether `a` orders before `b`: its box's minimum coordinate on the
/// chosen axis is smaller.
pub fn box_compare(a: &Hittable, b: &Hittable, axis: usize, time0: Frac, time1: Frac) -> (r: bool)
    requires
        a.wf() && a.depth_ok(5) && a.boxed(),
        b.wf() && b.depth_ok(5) && b.boxed(),
        axis < 3,
    ensures
        r == (axis_key_spec(*a, axis as int) < axis_key_spec(*b, axis as int)),
{
    axis_key(a, axis, time0, time1) < axis_key(b, axis, time0, time1)
}

/// Order the nodes by their box minimum on the chosen axis. Selection by
/// repeated minimum extraction; the result holds exactly the same nodes.
fn sort_by_axis(objects: Vec<Hittable>, axis: usize, time0: Frac, time1: Frac)
    -> (res: Vec<Hittable>)
    requires
        buildable(objects@),
        axis < 3,
    ensures
        res@.to_multiset() == objects@.to_multiset(),
        res@.len() == objects@.len(),
        buildable(res@),
        forall |i: int, j: int| 0 <= i <= j < res@.len()
            ==> #[trigger] axis_key_spec(res@[i], axis as int)
                <= #[trigger] axis_key_spec(res@[j], axis as int),
{
    broadcast use vstd::seq_lib::group_to_multiset_ensures;

    let ghost orig = objects@;
    let mut rest = objects;
    let mut out: Vec<Hittable> = Vec::new();
    proof {
        assert(out@.to_multiset().add(rest@.to_multiset()) =~= orig.to_multiset());
    }
    while rest.len() > 0
        invariant
            axis < 3,
            buildable(rest@),
            buildable(out@),
            out@.to_multiset().add(rest@.to_multiset()) == orig.to_multiset(),
            out@.len() + rest@.len() == orig.len(),
            forall |i: int, j: int| 0 <= i <= j < out@.len()
                ==> #[trigger] axis_key_spec(out@[i], axis as int)
                    <= #[trigger] axis_key_spec(out@[j], axis as int),
            forall |i: int, j: int| 0 <= i < out@.len() && 0 <= j < rest@.len()
                ==> #[trigger] axis_key_spec(out@[i], axis as int)
                    <= #[trigger] axis_key_spec(rest@[j], axis as int),
        decreases rest@.len(),
    {
        let mut m: usize = 0;
        let mut j: usize = 1;
        let key_first = axis_key(&rest[0], axis, time0, time1);
        let mut best_key = key_first;
        while j < rest.len()
            invariant
                buildable(rest@),
                axis < 3,
                rest@.len() > 0,
                m < rest@.len(),
                j <= rest@.len(),
                best_key == axis_key_spec(rest@[m as int], axis as int),
                forall |jj: int| 0 <= jj < j
                    ==> best_key <= #[trigger] axis_key_spec(rest@[jj], axis as int),
            decreases rest@.len() - j,
        {
            let kj = axis_key(&rest[j], axis, time0, time1);
            if kj < best_key {
                best_key = kj;
                m = j;
            }
            j = j + 1;
        }
        let ghost rest_before = rest@;
        let ghost out_before = out@;
        let ghost picked = rest@[m as int];
        let x = rest.remove(m);
        out.push(x);
        proof {
            rest_before.to_multiset_ensures();
            out_before.to_multiset_ensures();
            assert(rest@ == rest_before.remove(m as int));
            assert(rest_before.remove(m as int).to_multiset()
                =~= rest_before.to_multiset().remove(picked));
            assert(out@ == out_before.push(picked));
            assert(out_before.push(picked).to_multiset()
                =~= out_before.to_multiset().insert(picked));
            assert(rest_before.contains(picked));
            assert(rest_before.to_multiset().count(picked) > 0);
            assert(out@.to_multiset().add(rest@.to_multiset()) =~= orig.to_multiset());
            assert forall |k: int| 0 <= k < rest@.len()
                implies (#[trigger] rest@[k]).wf() && rest@[k].depth_ok(5) && rest@[k].boxed() by {
                if k < m {
                    assert(rest@[k] == rest_before[k]);
                } else {
                    assert(rest@[k] == rest_before[k + 1]);
                }
            }
            assert forall |i: int, j: int| 0 <= i <= j < out@.len()
                implies #[trigger] axis_key_spec(out@[i], axis as int)
                    <= #[trigger] axis_key_spec(out@[j], axis as int) by {
                if j == out@.len() - 1 {
                    assert(out@[j] == picked);
                    if i < j {
                        assert(out@[i] == out_before[i]);
                    }
                } else {
                    assert(out@[i] == out_before[i] && out@[j] == out_before[j]);
                }
            }
            assert forall |i: int, j: int| 0 <= i < out@.len() && 0 <= j < rest@.len()
                implies #[trigger] axis_key_spec(out@[i], axis as int)
                    <= #[trigger] axis_key_spec(rest@[j], axis as int) by {
                let ghost prev_index: int = if j < m { j } else { j + 1 };
                assert(rest@[j] == rest_before[prev_index]);
                if i == out@.len() - 1 {
                    assert(out@[i] == picked);
                    assert(axis_key_spec(picked, axis as int)
                        <= axis_key_spec(rest_before[prev_index], axis as int));
                } else {
                    assert(out@[i] == out_before[i]);
                }
            }
        }
    }
    out
}

impl BVHNode {
    /// Build a hierarchy over a non-empty collection of nodes. The result
    /// meets a ray at a parameter exactly when some node of the collection
    /// does; only the cost of answering changes.
    pub fn new(objects: Vec<Hittable>, time0: Frac, time1: Frac) -> (res: BVHNode)
        requires
            objects@.len() >= 1,
            buildable(objects@),
        ensures
            Hittable::Bvh(res).wf(),
            Hittable::Bvh(res).depth_ok(5),
            // The stored box is exactly the merge of the children's boxes,
            // and so contains the box of every member of the collection.
            res.aabb_box == children_box_merge(res),
            forall |x: Hittable| objects@.to_multiset().count(x) > 0
                ==> box_within(#[trigger] member_box(x), res.aabb_box),
            // A one-element collection becomes that element beside an empty
            // aggregate.
            objects@.len() == 1 ==> *res.left == objects@[0] && *res.right is List
                && (*res.right)->List_0.objects@.len() == 0,
            // A two-element collection is ordered by the boxes' minimum
            // corner on the randomly drawn axis.
            objects@.len() == 2 ==> exists |ax: int| 0 <= ax < 3
                && #[trigger] axis_key_spec(*res.left, ax) <= axis_key_spec(*res.right, ax),
            // The leaves of the built hierarchy are exactly the input
            // collection, when no input is itself a hierarchy node.
            no_bvh_elements(objects@)
                ==> bvh_leaves(Hittable::Bvh(res)) == objects@.to_multiset(),
            forall |r: Ray, t: Frac| t.d > 0 ==> (#[trigger] Hittable::Bvh(res).hits_at(r, t)
                <==> multiset_hits_at(objects@.to_multiset(), r, t)),
        decreases objects@.len(),
    {
        broadcast use vstd::seq_lib::group_to_multiset_ensures;

        let ghost orig = objects@;
        let axis = random_int_range(0, 3) as usize;
        let mut objects = objects;
        let n = objects.len();
        let (left, right): (Hittable, Hittable) = if n == 1 {
            let a = match objects.pop() {
                Some(a) => a,
                None => {
                    proof {
                        assert(false);
                    }
                    unreached()
                }
            };
            let empty_right = Hittable::List(HittableList { objects: Vec::new() });
            proof {
                assert(orig =~= Seq::empty().push(a));
                assert(a.boxed());
                if no_bvh_elements(orig) {
                    assert(!(orig[0] is Bvh));
                    lemma_single_leaf(a);
                    assert(bvh_leaves(empty_right) =~= vstd::multiset::Multiset::empty());
                    assert(Seq::<Hittable>::empty().to_multiset()
                        =~= vstd::multiset::Multiset::empty());
                    assert(orig.to_multiset()
                        =~= Seq::<Hittable>::empty().to_multiset().insert(a));
                    assert(bvh_leaves(a).add(bvh_leaves(empty_right)) =~= orig.to_multiset());
                }
                assert forall |r: Ray, t: Frac| t.d > 0
                    implies ((a.hits_at(r, t) || empty_right.hits_at(r, t))
                        <==> #[trigger] multiset_hits_at(orig.to_multiset(), r, t)) by {
                    lemma_seq_multiset_hits(orig, r, t);
                    assert(!empty_right.hits_at(r, t));
                    if a.hits_at(r, t) {
                        assert(orig[0].hits_at(r, t));
                    }
                    if exists |j: int| 0 <= j < orig.len() && (#[trigger] orig[j]).hits_at(r, t) {
                        let j = choose |j: int| 0 <= j < orig.len()
                            && (#[trigger] orig[j]).hits_at(r, t);
                        assert(orig[j] == a);
                    }
                }
            }
            (a, empty_right)
        } else if n == 2 {
            let b = match objects.pop() {
                Some(b) => b,
                None => {
                    proof {
                        assert(false);
                    }
                    unreached()
                }
            };
            let a = match objects.pop() {
                Some(a) => a,
                None => {
                    proof {
                        assert(false);
                    }
                    unreached()
                }
            };
            proof {
                assert(orig =~= Seq::empty().push(a).push(b));
                assert(a.boxed() && b.boxed());
                if no_bvh_elements(orig) {
                    assert(!(orig[0] is Bvh) && !(orig[1] is Bvh));
                    lemma_single_leaf(a);
                    lemma_single_leaf(b);
                    assert(Seq::<Hittable>::empty().to_multiset()
                        =~= vstd::multiset::Multiset::empty());
                    assert(orig.to_multiset() =~= vstd::multiset::Multiset::empty().insert(
                        a).insert(b));
                    assert(bvh_leaves(a).add(bvh_leaves(b)) =~= orig.to_multiset());
                    assert(bvh_leaves(b).add(bvh_leaves(a)) =~= orig.to_multiset());
                }
                assert forall |r: Ray, t: Frac| t.d > 0
                    implies ((a.hits_at(r, t) || b.hits_at(r, t))
                        <==> #[trigger] multiset_hits_at(orig.to_multiset(), r, t)) by {
                    lemma_seq_multiset_hits(orig, r, t);
                    if a.hits_at(r, t) {
                        assert(orig[0].hits_at(r, t));
                    }
                    if b.hits_at(r, t) {
                        assert(orig[1].hits_at(r, t));
                    }
                    if exists |j: int| 0 <= j < orig.len() && (#[trigger] orig[j]).hits_at(r, t) {
                        let j = choose |j: int| 0 <= j < orig.len()
                            && (#[trigger] orig[j]).hits_at(r, t);
                        assert(orig[j] == a || orig[j] == b);
                    }
                }
            }
            let pair: (Hittable, Hittable) = if box_compare(&a, &b, axis, time0, time1) {
                (a, b)
            } else {
                (b, a)
            };
            proof {
                assert(0 <= (axis as int) && (axis as int) < 3);
                assert(axis_key_spec(pair.0, axis as int) <= axis_key_spec(pair.1, axis as int));
            }
            pair
        } else {
            let sorted = sort_by_axis(objects, axis, time0, time1);
            let mut left_vec = sorted;
            let ghost sorted_seq = left_vec@;
            let mid = left_vec.len() / 2;
            let right_vec = left_vec.split_off(mid);
            let ghost left_seq = left_vec@;
            let ghost right_seq = right_vec@;
            proof {
                assert(left_seq == sorted_seq.subrange(0, mid as int));
                assert(right_seq == sorted_seq.subrange(mid as int, sorted_seq.len() as int));
                assert(sorted_seq =~= left_seq + right_seq);
                lemma_multiset_commutative(left_seq, right_seq);
                assert((left_seq + right_seq).to_multiset()
                    =~= left_seq.to_multiset().add(right_seq.to_multiset()));
                assert(orig.to_multiset() == sorted_seq.to_multiset());
            }
            let left_node = BVHNode::new(left_vec, time0, time1);
            let right_node = BVHNode::new(right_vec, time0, time1);
            proof {
                assert forall |r: Ray, t: Frac| t.d > 0
                    implies ((Hittable::Bvh(left_node).hits_at(r, t)
                        || Hittable::Bvh(right_node).hits_at(r, t))
                        <==> #[trigger] multiset_hits_at(orig.to_multiset(), r, t)) by {
                    assert((left_seq + right_seq).to_multiset()
                        == left_seq.to_multiset().add(right_seq.to_multiset()));
                    if Hittable::Bvh(left_node).hits_at(r, t) {
                        let x = choose |x: Hittable| left_seq.to_multiset().count(x) > 0
                            && #[trigger] x.hits_at(r, t);
                        assert(orig.to_multiset().count(x) > 0);
                    }
                    if Hittable::Bvh(right_node).hits_at(r, t) {
                        let x = choose |x: Hittable| right_seq.to_multiset().count(x) > 0
                            && #[trigger] x.hits_at(r, t);
                        assert(orig.to_multiset().count(x) > 0);
                    }
                    if multiset_hits_at(orig.to_multiset(), r, t) {
                        let x = choose |x: Hittable| orig.to_multiset().count(x) > 0
                            && #[trigger] x.hits_at(r, t);
                        assert(left_seq.to_multiset().count(x) > 0
                            || right_seq.to_multiset().count(x) > 0);
                    }
                }
            }
            proof {
                if no_bvh_elements(orig) {
                    lemma_no_bvh_permutation(orig, sorted_seq);
                    assert(no_bvh_elements(left_seq));
                    assert(no_bvh_elements(right_seq));
                    assert(bvh_leaves(Hittable::Bvh(left_node)) == left_seq.to_multiset());
                    assert(bvh_leaves(Hittable::Bvh(right_node)) == right_seq.to_multiset());
                    assert(bvh_leaves(Hittable::Bvh(left_node)).add(
                        bvh_leaves(Hittable::Bvh(right_node))) =~= orig.to_multiset());
                }
            }
            (Hittable::Bvh(left_node), Hittable::Bvh(right_node))
        };
        let node = finish_node(left, right, time0, time1, Ghost(orig));
        proof {
            if no_bvh_elements(orig) {
                assert(bvh_leaves(Hittable::Bvh(node)) =~= orig.to_multiset());
            }
        }
        node
    }

    /// Build a hierarchy over the nodes of a linear aggregate.
    pub fn from_list(objects: HittableList, time0: Frac, time1: Frac) -> (res: BVHNode)
        requires
            objects.objects@.len() >= 1,
            buildable(objects.objects@),
        ensures
            Hittable::Bvh(res).wf(),
            Hittable::Bvh(res).depth_ok(5),
            forall |r: Ray, t: Frac| t.d > 0 ==> (#[trigger] Hittable::Bvh(res).hits_at(r, t)
                <==> Hittable::List(objects).hits_at(r, t)),
    {
        let ghost s = objects.objects@;
        let ghost glist = Hittable::List(objects);
        let res = BVHNode::new(objects.objects, time0, time1);
        proof {
            assert forall |r: Ray, t: Frac| t.d > 0
                implies (#[trigger] Hittable::Bvh(res).hits_at(r, t)
                    <==> Hittable::List(objects).hits_at(r, t)) by {
                lemma_seq_multiset_hits(s, r, t);
                assert(glist == Hittable::List(objects));
                lemma_list_hits(glist, r, t);
                assert(glist.hits_at(r, t)
                    == (exists |j: int| 0 <= j < s.len() && (#[trigger] s[j]).hits_at(r, t)));
            }
        }
        res
    }
}

/// Assemble a hierarchy node from two children: its box is the merge of
/// theirs, and it meets a ray exactly where one of them does.
fn finish_node(left: Hittable, right: Hittable, time0: Frac, time1: Frac,
    origin_set: Ghost<Seq<Hittable>>) -> (res: BVHNode)
    requires
        left.wf() && left.depth_ok(5),
        right.wf() && right.depth_ok(5),
        left.boxed(),
        !right.boxed() ==> forall |r: Ray, t: Frac| t.d > 0 ==> !(#[trigger] right.hits_at(r, t)),
        forall |r: Ray, t: Frac| t.d > 0 ==> ((left.hits_at(r, t) || right.hits_at(r, t))
            <==> #[trigger] multiset_hits_at(origin_set@.to_multiset(), r, t)),
    ensures
        Hittable::Bvh(res).wf(),
        Hittable::Bvh(res).depth_ok(5),
        *res.left == left,
        *res.right == right,
        res.aabb_box == children_box_merge(res),
        bvh_leaves(Hittable::Bvh(res)) == bvh_leaves(left).add(bvh_leaves(right)),
        forall |r: Ray, t: Frac| t.d > 0 ==> (#[trigger] Hittable::Bvh(res).hits_at(r, t)
            <==> multiset_hits_at(origin_set@.to_multiset(), r, t)),
{
    let box_left = match left.bounding_box(time0, time1) {
        Some(b) => b,
        None => {
            proof {
                assert(false);
            }
            unreached()
        }
    };
    let box_right = match right.bounding_box(time0, time1) {
        Some(b) => b,
        None => AABB::new_max(),
    };
    let aabb_box = box_left.surrounding_box(&box_right);
    let res = BVHNode {
        left: Box::new(left),
        right: Box::new(right),
        aabb_box,
    };
    proof {
        assert(Some(box_left) == left.box_model());
        assert(right.boxed() ==> Some(box_right) == right.box_model());
        assert(!right.boxed() ==> right.box_model() is None
            && box_right == crate::hittable::empty_box());
        assert(res.aabb_box == children_box_merge(res));
        assert(bvh_leaves(Hittable::Bvh(res)) == bvh_leaves(left).add(bvh_leaves(right)));
        assert forall |r: Ray, t: Frac|
            r.origin.bounded(crate::vec3::ORIGIN_MAX as int - 5 * crate::vec3::COORD_MAX as int)
            && r.direction.bounded(crate::vec3::COORD_MAX as int)
            && t.d > 0 && #[trigger] left.hits_at(r, t)
            implies aabb_box.contains_at(r, t) by {
            assert(box_left.contains_at(r, t));
            crate::hittable::lemma_merge_covers(box_left, box_right, r, t);
        }
        assert forall |r: Ray, t: Frac|
            r.origin.bounded(crate::vec3::ORIGIN_MAX as int - 5 * crate::vec3::COORD_MAX as int)
            && r.direction.bounded(crate::vec3::COORD_MAX as int)
            && t.d > 0 && #[trigger] right.hits_at(r, t)
            implies aabb_box.contains_at(r, t) by {
            assert(right.boxed());
            assert(box_right.contains_at(r, t));
            crate::hittable::lemma_merge_covers(box_left, box_right, r, t);
        }
    }
    res
}

/// The acceleration structure does not change results: when the same
/// scene, built once as a flat list and once as a hierarchy over the same
/// nodes, is asked for the closest hit over the same open interval, either
/// both miss or both report hits at the same parametric distance.
pub proof fn lemma_closest_hit_agree(a: Hittable, b: Hittable, r: Ray, t_min: Frac,
    t_max: Frac, ta: Frac, tb: Frac)
    requires
        forall |t: Frac| t.d > 0 ==> ((#[trigger] a.hits_at(r, t)) <==> b.hits_at(r, t)),
        ta.d > 0,
        tb.d > 0,
        frac_lt(t_min, ta) && frac_lt(ta, t_max),
        a.hits_at(r, ta),
        forall |t: Frac| t.d > 0 && frac_lt(t_min, t) && frac_lt(t, t_max)
            && #[trigger] a.hits_at(r, t) ==> frac_le(ta, t),
        frac_lt(t_min, tb) && frac_lt(tb, t_max),
        b.hits_at(r, tb),
        forall |t: Frac| t.d > 0 && frac_lt(t_min, t) && frac_lt(t, t_max)
            && #[trigger] b.hits_at(r, t) ==> frac_le(tb, t),
    ensures
        crate::num::frac_eq(ta, tb),
{
    assert(b.hits_at(r, ta));
    assert(frac_le(tb, ta));
    assert(a.hits_at(r, tb));
    assert(frac_le(ta, tb));
}

} // verus!
