//! What the search through the flat layout finds.
//!
//! The search with a stack finds what the recursive search finds, and, when
//! the boxes are sound, what a plain scan of the leaves in stored order
//! finds.

use vstd::prelude::*;
use crate::hit::bvh::{hit_aux_spec, is_subtree, LinearBVHNode, LinearBVHNodeChild, SearchState};
use crate::hit::hit_record::HitRecord;
use crate::hit::Nearest;
use crate::scalar::Scalar;

verus! {

/// The number of nodes that the search tests in the subtree stored from
/// `index` up to `end`.
pub open spec fn visits<P, M>(
    list: Seq<LinearBVHNode<P>>,
    inside: spec_fn(int, Scalar) -> bool,
    probe: spec_fn(int, Scalar) -> Option<HitRecord<M>>,
    index: int,
    end: int,
    t_max: Scalar,
) -> nat
    decreases end - index,
{
    if !(0 <= index < end <= list.len()) || !inside(index, t_max) {
        1
    } else {
        match list[index].child {
            LinearBVHNodeChild::Element(_) => 1,
            LinearBVHNodeChild::RightTree(right) => {
                if index + 1 < right < end {
                    let hit_left = hit_aux_spec(list, inside, probe, index + 1, right as int, t_max);
                    let limit = match hit_left {
                        Some(a) => a.t,
                        None => t_max,
                    };
                    1 + visits(list, inside, probe, index + 1, right as int, t_max) + visits(
                        list,
                        inside,
                        probe,
                        right as int,
                        end,
                        limit,
                    )
                } else {
                    1
                }
            },
        }
    }
}

/// Rounds of the search add up.
pub proof fn lemma_steps_add<P, M>(
    s: SearchState<M>,
    a: nat,
    b: nat,
    list: Seq<LinearBVHNode<P>>,
    inside: spec_fn(int, Scalar) -> bool,
    probe: spec_fn(int, Scalar) -> Option<HitRecord<M>>,
)
    ensures
        s.steps(a + b, list, inside, probe) == s.steps(a, list, inside, probe).steps(
            b,
            list,
            inside,
            probe,
        ),
    decreases a,
{
    if a > 0 {
        lemma_steps_add(s.step(list, inside, probe), (a - 1) as nat, b, list, inside, probe);
    }
}

/// A search with an empty stack stays as it is.
pub proof fn lemma_steps_when_done<P, M>(
    s: SearchState<M>,
    n: nat,
    list: Seq<LinearBVHNode<P>>,
    inside: spec_fn(int, Scalar) -> bool,
    probe: spec_fn(int, Scalar) -> Option<HitRecord<M>>,
)
    requires
        s.stack.len() == 0,
    ensures
        s.steps(n, list, inside, probe) == s,
    decreases n,
{
    if n > 0 {
        lemma_steps_when_done(s, (n - 1) as nat, list, inside, probe);
    }
}

/// A search whose next node is the root of a subtree leaves that subtree
/// after as many rounds as it tests nodes there, with the rest of its stack
/// untouched and with the hit of the recursive search offered to it.
pub proof fn lemma_search_subtree<P, M>(
    list: Seq<LinearBVHNode<P>>,
    inside: spec_fn(int, Scalar) -> bool,
    probe: spec_fn(int, Scalar) -> Option<HitRecord<M>>,
    index: int,
    end: int,
    rest: Seq<usize>,
    nearest: Nearest<M>,
)
    requires
        is_subtree(list, index, end),
        list.len() <= usize::MAX,
    ensures
        1 <= visits(list, inside, probe, index, end, nearest.closest) <= end - index,
        (SearchState { stack: rest.push(index as usize), nearest }).steps(
            visits(list, inside, probe, index, end, nearest.closest),
            list,
            inside,
            probe,
        ) == (SearchState {
            stack: rest,
            nearest: nearest.offer_spec(hit_aux_spec(list, inside, probe, index, end, nearest.closest)),
        }),
    decreases end - index,
{
    let s0 = SearchState { stack: rest.push(index as usize), nearest };
    let s1 = s0.step(list, inside, probe);
    let k = visits(list, inside, probe, index, end, nearest.closest);
    assert(s0.stack.drop_last() =~= rest);
    assert(s0.stack.last() == index as usize);
    assert(s0.steps(1, list, inside, probe) == s1) by {
        assert(s1.steps(0, list, inside, probe) == s1);
    }
    if !inside(index, nearest.closest) {
    } else {
        match list[index].child {
            LinearBVHNodeChild::Element(_) => {},
            LinearBVHNodeChild::RightTree(right) => {
                let hit_left = hit_aux_spec(list, inside, probe, index + 1, right as int, nearest.closest);
                let after_left = nearest.offer_spec(hit_left);
                let k_left = visits(list, inside, probe, index + 1, right as int, nearest.closest);
                let k_right = visits(list, inside, probe, right as int, end, after_left.closest);
                assert(s1.stack =~= rest.push(right).push((index + 1) as usize));
                lemma_search_subtree(list, inside, probe, index + 1, right as int, rest.push(right), nearest);
                lemma_search_subtree(list, inside, probe, right as int, end, rest, after_left);
                let s2 = s1.steps(k_left, list, inside, probe);
                assert(s2 == SearchState { stack: rest.push(right), nearest: after_left });
                lemma_steps_add(s1, k_left, k_right, list, inside, probe);
                lemma_steps_add(s0, 1, k_left + k_right, list, inside, probe);
                assert(k == 1 + k_left + k_right);
            },
        }
    }
}

/// The search with a stack finds what the recursive search finds: started
/// at the root, it has emptied its stack after as many rounds as the tree
/// has nodes, and its best hit is then the hit of the recursive search.
pub proof fn lemma_search_finds_hit_aux<P, M>(
    list: Seq<LinearBVHNode<P>>,
    inside: spec_fn(int, Scalar) -> bool,
    probe: spec_fn(int, Scalar) -> Option<HitRecord<M>>,
    t_max: Scalar,
)
    requires
        is_subtree(list, 0, list.len() as int),
        list.len() <= usize::MAX,
    ensures
        (SearchState { stack: seq![0usize], nearest: Nearest::<M>::start(t_max) }).steps(
            list.len(),
            list,
            inside,
            probe,
        ) == (SearchState {
            stack: Seq::<usize>::empty(),
            nearest: Nearest::<M>::start(t_max).offer_spec(
                hit_aux_spec(list, inside, probe, 0, list.len() as int, t_max),
            ),
        }),
        Nearest::<M>::start(t_max).offer_spec(
            hit_aux_spec(list, inside, probe, 0, list.len() as int, t_max),
        ).best == hit_aux_spec(list, inside, probe, 0, list.len() as int, t_max),
{
    let start = Nearest::<M>::start(t_max);
    let s0 = SearchState { stack: seq![0usize], nearest: start };
    let k = visits(list, inside, probe, 0, list.len() as int, t_max);
    assert(Seq::<usize>::empty().push(0usize) =~= seq![0usize]);
    lemma_search_subtree(list, inside, probe, 0, list.len() as int, Seq::<usize>::empty(), start);
    let done = s0.steps(k, list, inside, probe);
    lemma_steps_add(s0, k, (list.len() - k) as nat, list, inside, probe);
    lemma_steps_when_done(done, (list.len() - k) as nat, list, inside, probe);
}

/// The search after the objects of the leaves from `index` up to `end` were
/// tested one after the other, without regard to any box.
pub open spec fn scan_leaves<P, M>(
    list: Seq<LinearBVHNode<P>>,
    probe: spec_fn(int, Scalar) -> Option<HitRecord<M>>,
    index: int,
    end: int,
    nearest: Nearest<M>,
) -> Nearest<M>
    decreases end - index,
{
    if index >= end {
        nearest
    } else {
        let before = scan_leaves(list, probe, index, end - 1, nearest);
        if 0 <= end - 1 < list.len() && list[end - 1].child is Element {
            before.offer_spec(probe(end - 1, before.closest))
        } else {
            before
        }
    }
}

/// A ray that misses the box of a node misses every object below that node.
pub open spec fn boxes_are_sound<P, M>(
    list: Seq<LinearBVHNode<P>>,
    inside: spec_fn(int, Scalar) -> bool,
    probe: spec_fn(int, Scalar) -> Option<HitRecord<M>>,
) -> bool {
    forall|index: int, end: int, leaf: int, limit: Scalar|
        #![trigger is_subtree(list, index, end), probe(leaf, limit)]
        is_subtree(list, index, end) && index <= leaf < end && !inside(index, limit) ==> probe(
            leaf,
            limit,
        ) is None
}

/// A scan of a range is a scan of its first part followed by a scan of its
/// second part.
pub proof fn lemma_scan_leaves_split<P, M>(
    list: Seq<LinearBVHNode<P>>,
    probe: spec_fn(int, Scalar) -> Option<HitRecord<M>>,
    index: int,
    mid: int,
    end: int,
    nearest: Nearest<M>,
)
    requires
        index <= mid <= end,
    ensures
        scan_leaves(list, probe, index, end, nearest) == scan_leaves(
            list,
            probe,
            mid,
            end,
            scan_leaves(list, probe, index, mid, nearest),
        ),
    decreases end - mid,
{
    if mid < end {
        lemma_scan_leaves_split(list, probe, index, mid, end - 1, nearest);
    }
}

/// A scan in which every object misses changes nothing.
proof fn lemma_scan_leaves_all_miss<P, M>(
    list: Seq<LinearBVHNode<P>>,
    probe: spec_fn(int, Scalar) -> Option<HitRecord<M>>,
    index: int,
    end: int,
    nearest: Nearest<M>,
)
    requires
        forall|leaf: int| index <= leaf < end ==> #[trigger] probe(leaf, nearest.closest) is None,
    ensures
        scan_leaves(list, probe, index, end, nearest) == nearest,
    decreases end - index,
{
    if index < end {
        lemma_scan_leaves_all_miss(list, probe, index, end - 1, nearest);
    }
}

/// With sound boxes the recursive search of a subtree finds what a scan of
/// the subtree's leaves finds: the same record, not only the same distance.
pub proof fn lemma_hit_aux_is_scan<P, M>(
    list: Seq<LinearBVHNode<P>>,
    inside: spec_fn(int, Scalar) -> bool,
    probe: spec_fn(int, Scalar) -> Option<HitRecord<M>>,
    index: int,
    end: int,
    nearest: Nearest<M>,
)
    requires
        is_subtree(list, index, end),
        boxes_are_sound(list, inside, probe),
    ensures
        nearest.offer_spec(hit_aux_spec(list, inside, probe, index, end, nearest.closest))
            == scan_leaves(list, probe, index, end, nearest),
    decreases end - index,
{
    if !inside(index, nearest.closest) {
        assert forall|leaf: int| index <= leaf < end implies #[trigger] probe(
            leaf,
            nearest.closest,
        ) is None by {
            assert(is_subtree(list, index, end));
        }
        lemma_scan_leaves_all_miss(list, probe, index, end, nearest);
    } else {
        assert(scan_leaves(list, probe, index, index, nearest) == nearest);
        match list[index].child {
            LinearBVHNodeChild::Element(_) => {},
            LinearBVHNodeChild::RightTree(right) => {
                let hit_left = hit_aux_spec(list, inside, probe, index + 1, right as int, nearest.closest);
                let after_left = nearest.offer_spec(hit_left);
                lemma_hit_aux_is_scan(list, inside, probe, index + 1, right as int, nearest);
                lemma_hit_aux_is_scan(list, inside, probe, right as int, end, after_left);
                assert(scan_leaves(list, probe, index, index + 1, nearest) == nearest);
                lemma_scan_leaves_split(list, probe, index, index + 1, right as int, nearest);
                lemma_scan_leaves_split(list, probe, index, right as int, end, nearest);
            },
        }
    }
}

/// The node index of each leaf from `index` up to `end`, in stored order.
pub open spec fn leaf_positions<P>(list: Seq<LinearBVHNode<P>>, index: int, end: int) -> Seq<int>
    decreases end - index,
{
    if index >= end {
        Seq::empty()
    } else if 0 <= end - 1 < list.len() && list[end - 1].child is Element {
        leaf_positions(list, index, end - 1).push(end - 1)
    } else {
        leaf_positions(list, index, end - 1)
    }
}

/// A scan of a list depends on the answers of the objects it tests only.
pub proof fn lemma_scan_agrees<M>(
    n: nat,
    first: spec_fn(int, Scalar) -> Option<HitRecord<M>>,
    second: spec_fn(int, Scalar) -> Option<HitRecord<M>>,
    t_max: Scalar,
)
    requires
        forall|k: int, limit: Scalar| 0 <= k < n ==> #[trigger] first(k, limit) == second(k, limit),
    ensures
        Nearest::scan(n, first, t_max) == Nearest::scan(n, second, t_max),
    decreases n,
{
    if n > 0 {
        lemma_scan_agrees((n - 1) as nat, first, second, t_max);
    }
}

/// A scan of the leaves of the flat layout is the scan of a list that holds
/// the objects of the leaves in stored order.
pub proof fn lemma_scan_leaves_is_list_scan<P, M>(
    list: Seq<LinearBVHNode<P>>,
    probe: spec_fn(int, Scalar) -> Option<HitRecord<M>>,
    end: int,
    t_max: Scalar,
)
    requires
        0 <= end <= list.len(),
    ensures
        scan_leaves(list, probe, 0, end, Nearest::<M>::start(t_max)) == Nearest::scan(
            leaf_positions(list, 0, end).len(),
            |k: int, limit: Scalar| probe(leaf_positions(list, 0, end)[k], limit),
            t_max,
        ),
    decreases end,
{
    if end > 0 {
        lemma_scan_leaves_is_list_scan(list, probe, end - 1, t_max);
        let shorter = leaf_positions(list, 0, end - 1);
        let longer = leaf_positions(list, 0, end);
        let by_shorter = |k: int, limit: Scalar| probe(shorter[k], limit);
        let by_longer = |k: int, limit: Scalar| probe(longer[k], limit);
        assert forall|k: int, limit: Scalar| 0 <= k < shorter.len() implies #[trigger] by_shorter(
            k,
            limit,
        ) == by_longer(k, limit) by {
            assert(shorter[k] == longer[k]);
        }
        lemma_scan_agrees(shorter.len(), by_shorter, by_longer, t_max);
    }
}

/// With sound boxes the search through the whole tree finds what a list
/// finds that holds the objects of the leaves in stored order.
pub proof fn lemma_tree_search_is_list_search<P, M>(
    list: Seq<LinearBVHNode<P>>,
    inside: spec_fn(int, Scalar) -> bool,
    probe: spec_fn(int, Scalar) -> Option<HitRecord<M>>,
    t_max: Scalar,
)
    requires
        is_subtree(list, 0, list.len() as int),
        boxes_are_sound(list, inside, probe),
    ensures
        hit_aux_spec(list, inside, probe, 0, list.len() as int, t_max) == Nearest::scan(
            leaf_positions(list, 0, list.len() as int).len(),
            |k: int, limit: Scalar| probe(leaf_positions(list, 0, list.len() as int)[k], limit),
            t_max,
        ).best,
{
    lemma_hit_aux_is_scan(list, inside, probe, 0, list.len() as int, Nearest::<M>::start(t_max));
    lemma_scan_leaves_is_list_scan(list, probe, list.len() as int, t_max);
}

/// The candidate is a hit that a ray travelling as far as `limit` reaches.
pub open spec fn within<M>(candidate: Option<HitRecord<M>>, limit: Scalar) -> bool {
    candidate is Some && candidate.unwrap().t.le_spec(limit)
}

/// The answers of objects each of which has at most one place where the ray
/// can hit it: object `k` answers with its candidate whenever the ray may
/// travel that far, and with nothing otherwise.
pub open spec fn answers<M>(candidates: Seq<Option<HitRecord<M>>>) -> spec_fn(int, Scalar) -> Option<
    HitRecord<M>,
> {
    |k: int, limit: Scalar|
        if 0 <= k < candidates.len() && within(candidates[k], limit) {
            candidates[k]
        } else {
            None
        }
}

/// The search has found, among the candidates numbered from `from` up to
/// `to` that `pick` lets through, one of the least parameter within
/// `t_max`, or nothing when there is none.
pub open spec fn is_nearest_of<M>(
    found: Nearest<M>,
    candidates: Seq<Option<HitRecord<M>>>,
    pick: spec_fn(int) -> bool,
    from: int,
    to: int,
    t_max: Scalar,
) -> bool {
    match found.best {
        None => {
            &&& found.closest == t_max
            &&& forall|k: int| from <= k < to && pick(k) ==> !within(#[trigger] candidates[k], t_max)
        },
        Some(h) => {
            &&& found.closest == h.t
            &&& h.t.le_spec(t_max)
            &&& exists|j: int| from <= j < to && pick(j) && #[trigger] candidates[j] == Some(h)
            &&& forall|k: int|
                from <= k < to && pick(k) && within(#[trigger] candidates[k], t_max) ==> h.t.le_spec(
                    candidates[k].unwrap().t,
                )
        },
    }
}

/// A list search over objects with one candidate each finds a hit of the
/// least parameter within `t_max`, and finds nothing only when no candidate
/// lies within `t_max`.
pub proof fn lemma_scan_finds_the_nearest<M>(candidates: Seq<Option<HitRecord<M>>>, n: nat, t_max: Scalar)
    requires
        n <= candidates.len(),
        !t_max.nan(),
    ensures
        is_nearest_of(
            Nearest::scan(n, answers(candidates), t_max),
            candidates,
            |k: int| true,
            0,
            n as int,
            t_max,
        ),
    decreases n,
{
    let pick = |k: int| true;
    if n > 0 {
        lemma_scan_finds_the_nearest(candidates, (n - 1) as nat, t_max);
        let before = Nearest::scan((n - 1) as nat, answers(candidates), t_max);
        let after = Nearest::scan(n, answers(candidates), t_max);
        let answer = answers(candidates)(n - 1, before.closest);
        assert(after == before.offer_spec(answer));
        lemma_offer_keeps_the_nearest(before, candidates, pick, 0, n - 1, t_max);
    }
}

/// Offering the answer of the next candidate to a search that holds the
/// nearest of the earlier ones leaves it holding the nearest of all.
proof fn lemma_offer_keeps_the_nearest<M>(
    before: Nearest<M>,
    candidates: Seq<Option<HitRecord<M>>>,
    pick: spec_fn(int) -> bool,
    from: int,
    last: int,
    t_max: Scalar,
)
    requires
        0 <= from <= last < candidates.len(),
        !t_max.nan(),
        is_nearest_of(before, candidates, pick, from, last, t_max),
    ensures
        pick(last) ==> is_nearest_of(
            before.offer_spec(answers(candidates)(last, before.closest)),
            candidates,
            pick,
            from,
            last + 1,
            t_max,
        ),
        !pick(last) ==> is_nearest_of(before, candidates, pick, from, last + 1, t_max),
{
    let answer = answers(candidates)(last, before.closest);
    let after = before.offer_spec(answer);
    if pick(last) {
        match before.best {
            None => {
                match answer {
                    Some(h) => {
                        assert(candidates[last] == Some(h));
                    },
                    None => {},
                }
            },
            Some(b) => {
                let j = choose|j: int| from <= j < last && pick(j) && #[trigger] candidates[j] == Some(b);
                match answer {
                    Some(h) => {
                        assert(candidates[last] == Some(h));
                        assert forall|k: int|
                            from <= k < last + 1 && pick(k) && within(
                                #[trigger] candidates[k],
                                t_max,
                            ) implies h.t.le_spec(candidates[k].unwrap().t) by {
                            if k < last {
                                assert(b.t.le_spec(candidates[k].unwrap().t));
                            }
                        }
                    },
                    None => {
                        assert(candidates[j] == Some(b));
                    },
                }
            },
        }
    } else {
        match before.best {
            None => {},
            Some(b) => {
                let j = choose|j: int| from <= j < last && pick(j) && #[trigger] candidates[j] == Some(b);
                assert(candidates[j] == Some(b));
            },
        }
    }
}

/// A scan of the leaves of a range, over objects with one candidate each,
/// finds a hit of the least parameter among the leaves.
pub proof fn lemma_scan_leaves_finds_the_nearest<P, M>(
    list: Seq<LinearBVHNode<P>>,
    candidates: Seq<Option<HitRecord<M>>>,
    end: int,
    t_max: Scalar,
)
    requires
        0 <= end <= list.len(),
        candidates.len() == list.len(),
        !t_max.nan(),
    ensures
        is_nearest_of(
            scan_leaves(list, answers(candidates), 0, end, Nearest::<M>::start(t_max)),
            candidates,
            |k: int| list[k].child is Element,
            0,
            end,
            t_max,
        ),
    decreases end,
{
    let pick = |k: int| list[k].child is Element;
    if end > 0 {
        lemma_scan_leaves_finds_the_nearest(list, candidates, end - 1, t_max);
        let before = scan_leaves(list, answers(candidates), 0, end - 1, Nearest::<M>::start(t_max));
        lemma_offer_keeps_the_nearest(before, candidates, pick, 0, end - 1, t_max);
    }
}

/// Some leaf of the tree has this candidate.
pub open spec fn is_candidate_of_a_leaf<P, M>(
    list: Seq<LinearBVHNode<P>>,
    in_tree: Seq<Option<HitRecord<M>>>,
    candidate: Option<HitRecord<M>>,
) -> bool {
    exists|j: int| 0 <= j < list.len() && list[j].child is Element && #[trigger] in_tree[j] == candidate
}

/// The search through a tree with sound boxes and a search through a list
/// find hits of the same distance when both hold the same objects, each
/// with one candidate: either both find nothing, or the parameters of their
/// hits are the same number.
pub proof fn lemma_tree_and_list_agree_on_distance<P, M>(
    list: Seq<LinearBVHNode<P>>,
    inside: spec_fn(int, Scalar) -> bool,
    in_tree: Seq<Option<HitRecord<M>>>,
    in_list: Seq<Option<HitRecord<M>>>,
    t_max: Scalar,
)
    requires
        is_subtree(list, 0, list.len() as int),
        in_tree.len() == list.len(),
        boxes_are_sound(list, inside, answers(in_tree)),
        !t_max.nan(),
        forall|j: int|
            0 <= j < list.len() && (#[trigger] list[j]).child is Element ==> in_list.contains(in_tree[j]),
        forall|k: int|
            0 <= k < in_list.len() ==> is_candidate_of_a_leaf(list, in_tree, #[trigger] in_list[k]),
    ensures
        ({
            let by_tree = hit_aux_spec(list, inside, answers(in_tree), 0, list.len() as int, t_max);
            let by_list = Nearest::scan(in_list.len(), answers(in_list), t_max).best;
            &&& by_tree is Some <==> by_list is Some
            &&& by_tree is Some ==> by_tree.unwrap().t.same_number(by_list.unwrap().t)
        }),
{
    let start = Nearest::<M>::start(t_max);
    let pick_leaf = |k: int| list[k].child is Element;
    let pick_all = |k: int| true;
    let by_tree = hit_aux_spec(list, inside, answers(in_tree), 0, list.len() as int, t_max);
    let tree_end = scan_leaves(list, answers(in_tree), 0, list.len() as int, start);
    let list_end = Nearest::scan(in_list.len(), answers(in_list), t_max);
    lemma_hit_aux_is_scan(list, inside, answers(in_tree), 0, list.len() as int, start);
    lemma_scan_leaves_finds_the_nearest(list, in_tree, list.len() as int, t_max);
    lemma_scan_finds_the_nearest(in_list, in_list.len(), t_max);
    assert(tree_end.best == by_tree);
    assert(is_nearest_of(tree_end, in_tree, pick_leaf, 0, list.len() as int, t_max));
    assert(is_nearest_of(list_end, in_list, pick_all, 0, in_list.len() as int, t_max));
    match (tree_end.best, list_end.best) {
        (Some(a), Some(b)) => {
            let ja = choose|j: int| 0 <= j < list.len() && pick_leaf(j) && #[trigger] in_tree[j] == Some(a);
            let kb = choose|k: int| 0 <= k < in_list.len() && pick_all(k) && #[trigger] in_list[k] == Some(b);
            assert(list[ja].child is Element);
            assert(in_list.contains(in_tree[ja]));
            let ka = choose|k: int| 0 <= k < in_list.len() && #[trigger] in_list[k] == in_tree[ja];
            assert(is_candidate_of_a_leaf(list, in_tree, in_list[kb]));
            let jb = choose|j: int|
                0 <= j < list.len() && list[j].child is Element && #[trigger] in_tree[j] == in_list[kb];
            assert(pick_all(ka) && within(in_list[ka], t_max));
            assert(pick_leaf(jb) && within(in_tree[jb], t_max));
            assert(b.t.le_spec(a.t));
            assert(a.t.le_spec(b.t));
        },
        (Some(a), None) => {
            let ja = choose|j: int| 0 <= j < list.len() && pick_leaf(j) && #[trigger] in_tree[j] == Some(a);
            assert(list[ja].child is Element);
            assert(in_list.contains(in_tree[ja]));
            let ka = choose|k: int| 0 <= k < in_list.len() && #[trigger] in_list[k] == in_tree[ja];
            assert(pick_all(ka) && within(in_list[ka], t_max));
        },
        (None, Some(b)) => {
            let kb = choose|k: int| 0 <= k < in_list.len() && pick_all(k) && #[trigger] in_list[k] == Some(b);
            assert(is_candidate_of_a_leaf(list, in_tree, in_list[kb]));
            let jb = choose|j: int|
                0 <= j < list.len() && list[j].child is Element && #[trigger] in_tree[j] == in_list[kb];
            assert(pick_leaf(jb) && within(in_tree[jb], t_max));
        },
        (None, None) => {},
    }
}

} // verus!
