//! Building the hierarchy with the surface-area heuristic.
//!
//! A set of objects is ordered along the longest axis of its box and cut
//! where the cost of the cut is least; the two parts are built in the same
//! way. The extent of a box and the cost of a cut need arithmetic and are
//! asked of the caller. Everything else, the order, the choice of the cut and
//! the shape of the tree, is decided here.

use vstd::prelude::*;
use crate::aabb::AABB;
use crate::base::{Axis, Vec3};
use crate::hit::bvh::{BVHNode, BVHNodeChild};
use crate::hit::{all_bounded, boxes_of, lemma_union_of_boxes, union_of_boxes, Entry, HittableList};
use crate::scalar::Scalar;

verus! {

/// The key by which an entry is ordered along `axis`: the rank of the
/// smallest corner of its box.
pub open spec fn key_of<P>(e: Entry<P>, axis: Axis) -> int {
    match e.bounds {
        Some(b) => b.minimum.along(axis).rank(),
        None => 0,
    }
}

/// Where `e` goes into `s`: behind the last entry whose key is not above its
/// own.
pub open spec fn insert_position<P>(s: Seq<Entry<P>>, e: Entry<P>, axis: Axis) -> int
    decreases s.len(),
{
    if s.len() == 0 || key_of(s.last(), axis) <= key_of(e, axis) {
        s.len() as int
    } else {
        insert_position(s.drop_last(), e, axis)
    }
}

/// The entries in the order of their keys, entries of equal keys in the
/// order in which they came.
pub open spec fn sorted_by<P>(s: Seq<Entry<P>>, axis: Axis) -> Seq<Entry<P>>
    decreases s.len(),
{
    if s.len() == 0 {
        s
    } else {
        let init = sorted_by(s.drop_last(), axis);
        init.insert(insert_position(init, s.last(), axis), s.last())
    }
}

/// No entry has a key above that of a later entry.
pub open spec fn ordered<P>(s: Seq<Entry<P>>, axis: Axis) -> bool {
    forall|i: int, j: int| 0 <= i < j < s.len() ==> key_of(#[trigger] s[i], axis) <= key_of(#[trigger] s[j], axis)
}

/// The entries of key `k`, in the order in which they stand in `s`.
pub open spec fn with_key<P>(s: Seq<Entry<P>>, axis: Axis, k: int) -> Seq<Entry<P>>
    decreases s.len(),
{
    if s.len() == 0 {
        s
    } else if key_of(s.last(), axis) == k {
        with_key(s.drop_last(), axis, k).push(s.last())
    } else {
        with_key(s.drop_last(), axis, k)
    }
}

/// The index of the least of the costs, the first of them among equals. A
/// cost takes the lead only when it is a number below the leading one.
pub open spec fn argmin(costs: Seq<Scalar>) -> int
    decreases costs.len(),
{
    if costs.len() <= 1 {
        0
    } else {
        let lead = argmin(costs.drop_last());
        if costs.last().lt_spec(costs[lead]) {
            costs.len() - 1
        } else {
            lead
        }
    }
}

/// The insert position lies in the sequence, everything from it on has a
/// key above that of the entry, and what stands before it has not.
pub proof fn lemma_insert_position<P>(s: Seq<Entry<P>>, e: Entry<P>, axis: Axis)
    ensures
        0 <= insert_position(s, e, axis) <= s.len(),
        forall|i: int| insert_position(s, e, axis) <= i < s.len() ==> key_of(#[trigger] s[i], axis) > key_of(e, axis),
        insert_position(s, e, axis) > 0 ==> key_of(s[insert_position(s, e, axis) - 1], axis) <= key_of(e, axis),
    decreases s.len(),
{
    if !(s.len() == 0 || key_of(s.last(), axis) <= key_of(e, axis)) {
        lemma_insert_position(s.drop_last(), e, axis);
        let p = insert_position(s, e, axis);
        assert forall|i: int| p <= i < s.len() implies key_of(#[trigger] s[i], axis) > key_of(e, axis) by {
            if i < s.len() - 1 {
                assert(s.drop_last()[i] == s[i]);
            }
        }
        if p > 0 {
            assert(s.drop_last()[p - 1] == s[p - 1]);
        }
    }
}

/// The insert position is the only place with these neighbours.
pub proof fn lemma_insert_position_found<P>(s: Seq<Entry<P>>, e: Entry<P>, axis: Axis, at: int)
    requires
        0 <= at <= s.len(),
        forall|i: int| at <= i < s.len() ==> key_of(#[trigger] s[i], axis) > key_of(e, axis),
        at > 0 ==> key_of(s[at - 1], axis) <= key_of(e, axis),
    ensures
        insert_position(s, e, axis) == at,
    decreases s.len(),
{
    if at < s.len() {
        assert(key_of(s[s.len() - 1], axis) > key_of(e, axis));
        assert forall|i: int| at <= i < s.drop_last().len() implies key_of(
            #[trigger] s.drop_last()[i],
            axis,
        ) > key_of(e, axis) by {
            assert(s.drop_last()[i] == s[i]);
        }
        if at > 0 {
            assert(s.drop_last()[at - 1] == s[at - 1]);
        }
        lemma_insert_position_found(s.drop_last(), e, axis, at);
    }
}

/// Sorting yields an ordered sequence of the same entries.
pub proof fn lemma_sorted_by<P>(s: Seq<Entry<P>>, axis: Axis)
    ensures
        sorted_by(s, axis).len() == s.len(),
        ordered(sorted_by(s, axis), axis),
        sorted_by(s, axis).to_multiset() == s.to_multiset(),
    decreases s.len(),
{
    broadcast use vstd::seq_lib::to_multiset_build, vstd::seq_lib::to_multiset_insert;

    if s.len() > 0 {
        let init = sorted_by(s.drop_last(), axis);
        let e = s.last();
        let p = insert_position(init, e, axis);
        lemma_sorted_by(s.drop_last(), axis);
        lemma_insert_position(init, e, axis);
        let out = init.insert(p, e);
        assert(s =~= s.drop_last().push(e));
        assert(out.to_multiset() == s.to_multiset());
        assert forall|i: int, j: int| 0 <= i < j < out.len() implies key_of(#[trigger] out[i], axis)
            <= key_of(#[trigger] out[j], axis) by {
            if j < p {
                assert(out[i] == init[i] && out[j] == init[j]);
            } else if j == p {
                assert(out[i] == init[i]);
                if i < p - 1 {
                    assert(key_of(init[i], axis) <= key_of(init[p - 1], axis));
                }
            } else if i < p {
                assert(out[i] == init[i] && out[j] == init[j - 1]);
                if i < j - 1 {
                    assert(key_of(init[i], axis) <= key_of(init[j - 1], axis));
                }
            } else if i == p {
                assert(out[j] == init[j - 1]);
            } else {
                assert(out[i] == init[i - 1] && out[j] == init[j - 1]);
            }
        }
    }
}

/// Sorting is stable: the entries of each key stand in the order in which
/// they came.
pub proof fn lemma_sorted_by_is_stable<P>(s: Seq<Entry<P>>, axis: Axis, k: int)
    ensures
        with_key(sorted_by(s, axis), axis, k) == with_key(s, axis, k),
    decreases s.len(),
{
    if s.len() > 0 {
        let init = sorted_by(s.drop_last(), axis);
        lemma_sorted_by_is_stable(s.drop_last(), axis, k);
        lemma_with_key_after_insert(init, s.last(), axis, k);
    }
}

/// Inserting an entry at its position appends it to the entries of its key
/// and leaves those of the other keys as they were.
proof fn lemma_with_key_after_insert<P>(s: Seq<Entry<P>>, e: Entry<P>, axis: Axis, k: int)
    ensures
        with_key(s.insert(insert_position(s, e, axis), e), axis, k) == if key_of(e, axis) == k {
            with_key(s, axis, k).push(e)
        } else {
            with_key(s, axis, k)
        },
    decreases s.len(),
{
    let p = insert_position(s, e, axis);
    let out = s.insert(p, e);
    if s.len() == 0 || key_of(s.last(), axis) <= key_of(e, axis) {
        assert(out =~= s.push(e));
        assert(out.drop_last() =~= s);
    } else {
        lemma_insert_position(s.drop_last(), e, axis);
        lemma_with_key_after_insert(s.drop_last(), e, axis, k);
        assert(out.drop_last() =~= s.drop_last().insert(p, e));
        assert(out.last() == s.last());
    }
}

/// On costs that are numbers the chosen index holds a least cost, and every
/// earlier cost is above it.
pub proof fn lemma_argmin(costs: Seq<Scalar>)
    requires
        costs.len() > 0,
        forall|i: int| 0 <= i < costs.len() ==> !(#[trigger] costs[i]).nan(),
    ensures
        0 <= argmin(costs) < costs.len(),
        forall|i: int| 0 <= i < costs.len() ==> costs[argmin(costs)].le_spec(#[trigger] costs[i]),
        forall|i: int| 0 <= i < argmin(costs) ==> costs[argmin(costs)].lt_spec(#[trigger] costs[i]),
    decreases costs.len(),
{
    if costs.len() > 1 {
        let init = costs.drop_last();
        assert forall|i: int| 0 <= i < init.len() implies !(#[trigger] init[i]).nan() by {
            assert(init[i] == costs[i]);
        }
        lemma_argmin(init);
        let lead = argmin(init);
        let best = argmin(costs);
        assert(init[lead] == costs[lead]);
        assert forall|i: int| 0 <= i < costs.len() implies costs[best].le_spec(#[trigger] costs[i]) by {
            if i < init.len() {
                assert(init[i] == costs[i]);
                assert(init[lead].le_spec(init[i]));
            }
        }
        assert forall|i: int| 0 <= i < best implies costs[best].lt_spec(#[trigger] costs[i]) by {
            assert(init[i] == costs[i]);
            if best == lead {
                assert(init[lead].lt_spec(init[i]));
            } else {
                assert(init[lead].le_spec(init[i]));
            }
        }
    }
}

/// Chooses where to cut: `costs[k]` is the cost of putting the first `k + 1`
/// objects on the left, and the result is the number of objects to put
/// there.
pub fn best_split(costs: &Vec<Scalar>) -> (split: usize)
    requires
        costs@.len() > 0,
    ensures
        split == argmin(costs@) + 1,
        1 <= split <= costs@.len(),
{
    let mut lead: usize = 0;
    let mut i: usize = 1;
    assert(costs@.subrange(0, 1).len() == 1);
    while i < costs.len()
        invariant
            1 <= i <= costs@.len(),
            lead < i,
            lead == argmin(costs@.subrange(0, i as int)),
        decreases costs@.len() - i,
    {
        proof {
            let upto = costs@.subrange(0, i + 1);
            assert(upto.drop_last() =~= costs@.subrange(0, i as int));
            assert(upto.last() == costs@[i as int]);
            assert(upto[lead as int] == costs@[lead as int]);
        }
        if costs[i].lt(costs[lead]) {
            lead = i;
        }
        i += 1;
    }
    assert(costs@.subrange(0, i as int) =~= costs@);
    lead + 1
}

fn key_at<P>(objects: &Vec<Entry<P>>, i: usize, axis: Axis) -> (key: i64)
    requires
        i < objects@.len(),
        objects@[i as int].bounds.is_some(),
    ensures
        key == key_of(objects@[i as int], axis),
{
    objects[i].bounds.unwrap().minimum.component(axis).rank_of()
}

/// Orders the entries along `axis`, keeping entries of equal keys in the
/// order in which they came.
pub fn sort_along<P>(objects: &mut Vec<Entry<P>>, axis: Axis)
    requires
        all_bounded(old(objects)@),
    ensures
        final(objects)@ == sorted_by(old(objects)@, axis),
{
    let n = objects.len();
    let mut i: usize = 0;
    assert(objects@.subrange(0, 0) =~= Seq::<Entry<P>>::empty());
    while i < n
        invariant
            i <= n,
            n == objects@.len(),
            n == old(objects)@.len(),
            all_bounded(old(objects)@),
            all_bounded(objects@),
            objects@.subrange(0, i as int) == sorted_by(old(objects)@.subrange(0, i as int), axis),
            objects@.subrange(i as int, n as int) == old(objects)@.subrange(i as int, n as int),
        decreases n - i,
    {
        let ghost before = objects@;
        let ghost head = before.subrange(0, i as int);
        let e = objects.remove(i);
        proof {
            assert forall|k: int| 0 <= k < objects@.len() implies (#[trigger] objects@[k]).bounds.is_some() by {
                if k < i {
                    assert(objects@[k] == before[k]);
                } else {
                    assert(objects@[k] == before[k + 1]);
                }
            }
            assert(e == before.subrange(i as int, n as int)[0]);
            assert(e == old(objects)@[i as int]);
            assert(objects@.subrange(0, i as int) =~= head);
            lemma_sorted_by(old(objects)@.subrange(0, i as int), axis);
        }
        let key = e.bounds.unwrap().minimum.component(axis).rank_of();
        let mut j: usize = i;
        while j > 0 && key_at(objects, j - 1, axis) > key
            invariant
                j <= i,
                i < n,
                n == objects@.len() + 1,
                key == key_of(e, axis),
                objects@.subrange(0, i as int) == head,
                head.len() == i,
                forall|k: int| 0 <= k < i ==> (#[trigger] objects@[k]).bounds.is_some(),
                forall|k: int| 0 <= k < i ==> #[trigger] objects@[k] == head[k],
                forall|k: int| j <= k < i ==> key_of(#[trigger] head[k], axis) > key,
            decreases j,
        {
            proof {
                assert(objects@[j - 1] == head[j - 1]);
            }
            j -= 1;
        }
        proof {
            if j > 0 {
                assert(objects@[j - 1] == head[j - 1]);
            }
            lemma_insert_position_found(head, e, axis, j as int);
        }
        let ghost removed = objects@;
        objects.insert(j, e);
        proof {
            assert forall|k: int| 0 <= k < objects@.len() implies (#[trigger] objects@[k]).bounds.is_some() by {
                if k < j {
                    assert(objects@[k] == removed[k]);
                } else if k > j {
                    assert(objects@[k] == removed[k - 1]);
                }
            }
            let upto = old(objects)@.subrange(0, i + 1);
            assert(upto.drop_last() =~= old(objects)@.subrange(0, i as int));
            assert(upto.last() == e);
            assert(objects@.subrange(0, i + 1) =~= head.insert(j as int, e));
            assert(objects@.subrange(i + 1, n as int) =~= old(objects)@.subrange(i + 1, n as int)) by {
                assert forall|k: int| 0 <= k < n - i - 1 implies objects@.subrange(i + 1, n as int)[k]
                    == #[trigger] old(objects)@.subrange(i + 1, n as int)[k] by {
                    assert(before.subrange(i as int, n as int)[k + 1] == old(objects)@.subrange(
                        i as int,
                        n as int,
                    )[k + 1]);
                }
            }
        }
        i += 1;
    }
    assert(objects@.subrange(0, n as int) =~= objects@);
    assert(old(objects)@.subrange(0, n as int) =~= old(objects)@);
}

impl<P> BVHNode<P> {
    /// The objects of the leaves with the boxes of the leaves, from left to
    /// right.
    pub open spec fn entries(self) -> Seq<Entry<P>>
        decreases self,
    {
        match self.child {
            BVHNodeChild::Trees(left, right) => left.entries() + right.entries(),
            BVHNodeChild::Element(p) => seq![Entry { item: p, bounds: Some(self.bounds) }],
        }
    }

    /// The box of every inner node encloses the boxes of its two children.
    pub open spec fn nested(self) -> bool
        decreases self,
    {
        match self.child {
            BVHNodeChild::Trees(left, right) => {
                &&& self.bounds.encloses(left.bounds)
                &&& self.bounds.encloses(right.bounds)
                &&& left.nested()
                &&& right.nested()
            },
            BVHNodeChild::Element(_) => true,
        }
    }

    /// The tree is what the surface-area heuristic builds over `objects`,
    /// given the answers of `extent` and `cost`.
    ///
    /// The box of the root is the box around the objects. One object makes a
    /// leaf. More objects are ordered along the longest axis of an extent
    /// that `extent` gave for the box; `cost` prices every cut of that order,
    /// and the two subtrees are built over the two sides of the first cut of
    /// least cost.
    pub open spec fn is_sah_tree<FE, FC>(self, objects: Seq<Entry<P>>, extent: FE, cost: FC) -> bool
        where
            FE: Fn(AABB) -> Vec3,
            FC: Fn(AABB, AABB, AABB, usize, usize) -> Scalar,
        decreases self,
    {
        &&& objects.len() >= 1
        &&& Some(self.bounds) == union_of_boxes(boxes_of(objects))
        &&& match self.child {
            BVHNodeChild::Element(p) => objects.len() == 1 && objects[0].item == p,
            BVHNodeChild::Trees(left, right) => {
                &&& objects.len() >= 2
                &&& exists|ext: Vec3, costs: Seq<Scalar>|
                    {
                        &&& #[trigger] priced(self.bounds, objects, ext, costs, extent, cost)
                        &&& left.is_sah_tree(
                            sorted_by(objects, AABB::longest_axis_spec(ext)).subrange(0, argmin(costs) + 1),
                            extent,
                            cost,
                        )
                        &&& right.is_sah_tree(
                            sorted_by(objects, AABB::longest_axis_spec(ext)).subrange(
                                argmin(costs) + 1,
                                objects.len() as int,
                            ),
                            extent,
                            cost,
                        )
                    }
            },
        }
    }

    /// Builds the hierarchy over the objects of a list.
    ///
    /// `extent` is asked for the extent of a box, largest corner minus
    /// smallest corner. `cost` is asked for the cost of a cut, given the box
    /// of the left part, the box of the right part, the box of both and the
    /// number of objects in each part.
    pub fn new_from_hittable_list<FE, FC>(list: HittableList<P>, extent: &FE, cost: &FC) -> (node: BVHNode<P>)
        where
            FE: Fn(AABB) -> Vec3,
            FC: Fn(AABB, AABB, AABB, usize, usize) -> Scalar,
        requires
            list.list@.len() > 0,
            list.bounded(),
            forall|b: AABB| call_requires(*extent, (b,)),
            forall|l: AABB, r: AABB, m: AABB, i: usize, j: usize| call_requires(*cost, (l, r, m, i, j)),
        ensures
            node.entries().to_multiset() == list.list@.to_multiset(),
            node.size() == 2 * list.list@.len() - 1,
            Some(node.bounds) == union_of_boxes(list.boxes()),
            all_well_formed(list.list@) ==> node.nested() && node.bounds.wf(),
            node.is_sah_tree(list.list@, *extent, *cost),
    {
        Self::build_using_sah(list.list, extent, cost)
    }

    /// Builds the hierarchy over a set of objects: their box is computed,
    /// they are ordered along its longest axis, every cut is priced, and the
    /// two sides of the cheapest cut are built in the same way.
    pub fn build_using_sah<FE, FC>(objects: Vec<Entry<P>>, extent: &FE, cost: &FC) -> (node: BVHNode<P>)
        where
            FE: Fn(AABB) -> Vec3,
            FC: Fn(AABB, AABB, AABB, usize, usize) -> Scalar,
        requires
            objects@.len() > 0,
            all_bounded(objects@),
            forall|b: AABB| call_requires(*extent, (b,)),
            forall|l: AABB, r: AABB, m: AABB, i: usize, j: usize| call_requires(*cost, (l, r, m, i, j)),
        ensures
            node.entries().to_multiset() == objects@.to_multiset(),
            node.size() == 2 * objects@.len() - 1,
            Some(node.bounds) == union_of_boxes(boxes_of(objects@)),
            all_well_formed(objects@) ==> node.nested() && node.bounds.wf(),
            node.is_sah_tree(objects@, *extent, *cost),
        decreases objects@.len(),
    {
        let mut objects = objects;
        let ghost given = objects@;
        let n = objects.len();
        let main_box = get_aabb_from_list(&objects, 0, n);
        proof {
            assert(given.subrange(0, n as int) =~= given);
        }
        if n == 1 {
            let e = objects.remove(0);
            proof {
                assert(boxes_of(given)[0] == e.bounds);
                assert(seq![Entry { item: e.item, bounds: Some(main_box) }] =~= given);
            }
            return BVHNode::leaf(e.item, main_box);
        }
        let ext = extent(main_box);
        let axis = AABB::longest_axis(&ext);
        sort_along(&mut objects, axis);
        let ghost sorted = objects@;
        proof {
            lemma_sorted_by(given, axis);
            lemma_same_entries(given, sorted);
        }
        let mut costs: Vec<Scalar> = Vec::new();
        let mut i: usize = 1;
        while i < n
            invariant
                1 <= i <= n,
                n == objects@.len(),
                objects@ == sorted,
                all_bounded(sorted),
                costs@.len() == i - 1,
                forall|l: AABB, r: AABB, m: AABB, i: usize, j: usize| call_requires(*cost, (l, r, m, i, j)),
                forall|k: int| 0 <= k < i - 1 ==> price_of_cut(main_box, sorted, k, #[trigger] costs@[k], *cost),
            decreases n - i,
        {
            let left_box = get_aabb_from_list(&objects, 0, i);
            let right_box = get_aabb_from_list(&objects, i, n);
            let price = cost(left_box, right_box, main_box, i, n - i);
            let ghost before = costs@;
            costs.push(price);
            proof {
                assert(price_of_cut(main_box, sorted, i - 1, price, *cost));
                assert forall|k: int| 0 <= k < i implies price_of_cut(
                    main_box,
                    sorted,
                    k,
                    #[trigger] costs@[k],
                    *cost,
                ) by {
                    if k < i - 1 {
                        assert(costs@[k] == before[k]);
                    }
                }
            }
            i += 1;
        }
        let ghost prices = costs@;
        proof {
            assert(priced(main_box, given, ext, prices, *extent, *cost));
        }
        let split = best_split(&costs);
        let right_objects = objects.split_off(split);
        let ghost left_part = objects@;
        let ghost right_part = right_objects@;
        proof {
            assert(sorted =~= left_part + right_part);
            vstd::seq_lib::lemma_multiset_commutative(left_part, right_part);
            assert forall|k: int| 0 <= k < left_part.len() implies (#[trigger] left_part[k]).bounds.is_some() by {
                assert(left_part[k] == sorted[k]);
            }
            assert forall|k: int| 0 <= k < right_part.len() implies (#[trigger] right_part[k]).bounds.is_some() by {
                assert(right_part[k] == sorted[split + k]);
            }
        }
        let left = Self::build_using_sah(objects, extent, cost);
        let right = Self::build_using_sah(right_objects, extent, cost);
        proof {
            vstd::seq_lib::lemma_multiset_commutative(left.entries(), right.entries());
            if all_well_formed(given) {
                lemma_parts_are_enclosed(given, sorted, left_part, main_box);
                lemma_parts_are_enclosed(given, sorted, right_part, main_box);
                lemma_union_of_boxes(boxes_of(given), main_box);
            }
        }
        let node = BVHNode::branch(left, right, main_box);
        proof {
            assert(left_part =~= sorted.subrange(0, argmin(prices) + 1));
            assert(right_part =~= sorted.subrange(argmin(prices) + 1, given.len() as int));
            assert(node.child == BVHNodeChild::Trees(Box::new(left), Box::new(right)));
            assert(node.is_sah_tree(given, *extent, *cost));
        }
        node
    }
}

/// `price` is an answer of `cost` for the cut of `sorted` behind position
/// `k`: for the box of the part up to and with `k`, the box of the part
/// behind it, the box of both, and the sizes of the two parts.
pub open spec fn price_of_cut<P, FC>(whole: AABB, sorted: Seq<Entry<P>>, k: int, price: Scalar, cost: FC) -> bool
    where FC: Fn(AABB, AABB, AABB, usize, usize) -> Scalar
{
    &&& 0 <= k < sorted.len() - 1
    &&& union_of_boxes(boxes_of(sorted.subrange(0, k + 1))).is_some()
    &&& union_of_boxes(boxes_of(sorted.subrange(k + 1, sorted.len() as int))).is_some()
    &&& call_ensures(
        cost,
        (
            union_of_boxes(boxes_of(sorted.subrange(0, k + 1))).unwrap(),
            union_of_boxes(boxes_of(sorted.subrange(k + 1, sorted.len() as int))).unwrap(),
            whole,
            (k + 1) as usize,
            (sorted.len() - k - 1) as usize,
        ),
        price,
    )
}

/// `ext` is an answer of `extent` for the box around the objects, and
/// `costs` are answers of `cost` for all cuts of the objects in their order
/// along the longest axis of `ext`.
pub open spec fn priced<P, FE, FC>(
    whole: AABB,
    objects: Seq<Entry<P>>,
    ext: Vec3,
    costs: Seq<Scalar>,
    extent: FE,
    cost: FC,
) -> bool
    where
        FE: Fn(AABB) -> Vec3,
        FC: Fn(AABB, AABB, AABB, usize, usize) -> Scalar,
{
    &&& call_ensures(extent, (whole,), ext)
    &&& costs.len() == objects.len() - 1
    &&& forall|k: int|
        0 <= k < costs.len() ==> price_of_cut(
            whole,
            sorted_by(objects, AABB::longest_axis_spec(ext)),
            k,
            #[trigger] costs[k],
            cost,
        )
}

/// Every entry has a well-formed box.
pub open spec fn all_well_formed<P>(entries: Seq<Entry<P>>) -> bool {
    forall|i: int| 0 <= i < entries.len() ==> (#[trigger] entries[i]).bounds.is_some() && entries[i].bounds.unwrap().wf()
}

/// Two sequences of the same entries are bounded together and well formed
/// together.
proof fn lemma_same_entries<P>(a: Seq<Entry<P>>, b: Seq<Entry<P>>)
    requires
        a.to_multiset() == b.to_multiset(),
    ensures
        all_bounded(a) ==> all_bounded(b),
        all_well_formed(a) ==> all_well_formed(b),
        forall|i: int| 0 <= i < b.len() ==> a.contains(#[trigger] b[i]),
{
    assert forall|i: int| 0 <= i < b.len() implies a.contains(#[trigger] b[i]) by {
        vstd::seq_lib::to_multiset_contains(b, b[i]);
        vstd::seq_lib::to_multiset_contains(a, b[i]);
        assert(b.contains(b[i]));
    }
    if all_bounded(a) {
        assert forall|i: int| 0 <= i < b.len() implies (#[trigger] b[i]).bounds.is_some() by {
            assert(a.contains(b[i]));
            let j = choose|j: int| 0 <= j < a.len() && a[j] == b[i];
            assert(a[j].bounds.is_some());
        }
    }
    if all_well_formed(a) {
        assert forall|i: int| 0 <= i < b.len() implies (#[trigger] b[i]).bounds.is_some()
            && b[i].bounds.unwrap().wf() by {
            assert(a.contains(b[i]));
            let j = choose|j: int| 0 <= j < a.len() && a[j] == b[i];
            assert(a[j].bounds.is_some());
        }
    }
}

/// The box around well-formed entries encloses the box around any part of
/// them, taken after any reordering.
proof fn lemma_parts_are_enclosed<P>(
    given: Seq<Entry<P>>,
    sorted: Seq<Entry<P>>,
    part: Seq<Entry<P>>,
    main_box: AABB,
)
    requires
        given.len() > 0,
        part.len() > 0,
        all_well_formed(given),
        given.to_multiset() == sorted.to_multiset(),
        forall|k: int| 0 <= k < part.len() ==> sorted.contains(#[trigger] part[k]),
        Some(main_box) == union_of_boxes(boxes_of(given)),
    ensures
        all_well_formed(part),
        union_of_boxes(boxes_of(part)).is_some(),
        main_box.encloses(union_of_boxes(boxes_of(part)).unwrap()),
{
    lemma_same_entries(given, sorted);
    lemma_union_of_boxes(boxes_of(given), main_box);
    assert forall|k: int| 0 <= k < part.len() implies (#[trigger] part[k]).bounds.is_some()
        && part[k].bounds.unwrap().wf() && main_box.encloses(part[k].bounds.unwrap()) by {
        assert(sorted.contains(part[k]));
        let j = choose|j: int| 0 <= j < sorted.len() && sorted[j] == part[k];
        assert(given.contains(sorted[j]));
        let g = choose|g: int| 0 <= g < given.len() && given[g] == sorted[j];
        assert(boxes_of(given)[g] == given[g].bounds);
        assert(given[g].bounds.is_some() && given[g].bounds.unwrap().wf());
    }
    assert forall|k: int| 0 <= k < boxes_of(part).len() implies (#[trigger] boxes_of(part)[k]).is_some()
        && boxes_of(part)[k].unwrap().wf() && main_box.encloses(boxes_of(part)[k].unwrap()) by {
        assert(boxes_of(part)[k] == part[k].bounds);
    }
    lemma_union_of_boxes(boxes_of(part), main_box);
}

/// The box around the entries from `lo` up to `hi`.
pub fn get_aabb_from_list<P>(list: &Vec<Entry<P>>, lo: usize, hi: usize) -> (b: AABB)
    requires
        lo < hi <= list@.len(),
        all_bounded(list@),
    ensures
        Some(b) == union_of_boxes(boxes_of(list@.subrange(lo as int, hi as int))),
{
    let ghost boxes = boxes_of(list@.subrange(lo as int, hi as int));
    let mut acc: AABB = list[lo].bounds.unwrap();
    let mut i: usize = lo + 1;
    proof {
        assert(boxes.subrange(0, 1).len() == 1);
        assert(boxes.subrange(0, 1)[0] == boxes[0]);
        assert(boxes[0] == list@[lo as int].bounds);
    }
    while i < hi
        invariant
            lo < i <= hi <= list@.len(),
            all_bounded(list@),
            boxes == boxes_of(list@.subrange(lo as int, hi as int)),
            Some(acc) == union_of_boxes(boxes.subrange(0, i - lo)),
        decreases hi - i,
    {
        proof {
            let upto = boxes.subrange(0, i - lo + 1);
            assert(upto.drop_last() =~= boxes.subrange(0, i - lo));
            assert(upto.last() == boxes[i - lo]);
            assert(boxes[i - lo] == list@[i as int].bounds);
        }
        let next = list[i].bounds.unwrap();
        acc = AABB::surrounding_box(&acc, &next);
        i += 1;
    }
    proof {
        assert(boxes.subrange(0, hi - lo) =~= boxes);
    }
    acc
}

} // verus!
