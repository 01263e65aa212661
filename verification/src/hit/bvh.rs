//! The bounding-volume hierarchy: the tree, its flat layout and the search
//! through the flat layout.
//!
//! The flat layout stores the tree in depth-first pre-order. The left child
//! of an inner node follows it directly; the node records where its right
//! child begins. The search visits the nodes with an explicit stack and asks
//! its caller for the two tests that need arithmetic: whether the ray passes
//! through a node's box, and where it hits a leaf's object.

use vstd::prelude::*;
use crate::aabb::AABB;
use crate::hit::hit_record::HitRecord;
use crate::hit::Nearest;
use crate::scalar::Scalar;

verus! {

/// What hangs below a node of the tree.
pub enum BVHNodeChild<P> {
    Trees(Box<BVHNode<P>>, Box<BVHNode<P>>),
    Element(P),
}

/// A node of the tree: a box and what it encloses.
pub struct BVHNode<P> {
    pub child: BVHNodeChild<P>,
    pub bounds: AABB,
}

/// What a node of the flat layout refers to: the index at which its right
/// subtree begins, or the object of a leaf.
pub enum LinearBVHNodeChild<P> {
    RightTree(usize),
    Element(P),
}

/// A node of the flat layout.
pub struct LinearBVHNode<P> {
    pub bounds: AABB,
    pub child: LinearBVHNodeChild<P>,
}

/// The tree in its flat layout.
pub struct LinearBVHTree<P> {
    pub list: Vec<LinearBVHNode<P>>,
}

impl<P> BVHNode<P> {
    /// The number of nodes of the tree.
    pub open spec fn size(self) -> nat
        decreases self,
    {
        match self.child {
            BVHNodeChild::Trees(left, right) => 1 + left.size() + right.size(),
            BVHNodeChild::Element(_) => 1,
        }
    }

    /// The objects of the leaves, from left to right.
    pub open spec fn leaves(self) -> Seq<P>
        decreases self,
    {
        match self.child {
            BVHNodeChild::Trees(left, right) => left.leaves() + right.leaves(),
            BVHNodeChild::Element(p) => seq![p],
        }
    }

    /// The flat layout of the tree when its root is stored at index
    /// `offset`: the root, then the left subtree, then the right subtree.
    pub open spec fn linear(self, offset: int) -> Seq<LinearBVHNode<P>>
        decreases self,
    {
        match self.child {
            BVHNodeChild::Trees(left, right) => seq![
                LinearBVHNode {
                    bounds: self.bounds,
                    child: LinearBVHNodeChild::RightTree((offset + 1 + left.size()) as usize),
                },
            ] + left.linear(offset + 1) + right.linear(offset + 1 + left.size()),
            BVHNodeChild::Element(p) => seq![
                LinearBVHNode { bounds: self.bounds, child: LinearBVHNodeChild::Element(p) },
            ],
        }
    }

    /// A leaf around one object.
    pub fn leaf(item: P, bounds: AABB) -> (node: Self)
        ensures
            node.bounds == bounds,
            node.child == BVHNodeChild::Element(item),
    {
        BVHNode { child: BVHNodeChild::Element(item), bounds }
    }

    /// An inner node above two subtrees.
    pub fn branch(left: BVHNode<P>, right: BVHNode<P>, bounds: AABB) -> (node: Self)
        ensures
            node.bounds == bounds,
            node.child == BVHNodeChild::Trees(Box::new(left), Box::new(right)),
    {
        BVHNode { child: BVHNodeChild::Trees(Box::new(left), Box::new(right)), bounds }
    }
}

/// In `list` the nodes from `index` up to `end` are exactly one subtree in
/// pre-order, with its root at `index`.
pub open spec fn is_subtree<P>(list: Seq<LinearBVHNode<P>>, index: int, end: int) -> bool
    decreases end - index,
{
    &&& 0 <= index < end <= list.len()
    &&& match list[index].child {
        LinearBVHNodeChild::Element(_) => end == index + 1,
        LinearBVHNodeChild::RightTree(right) => {
            &&& index + 1 < right < end
            &&& is_subtree(list, index + 1, right as int)
            &&& is_subtree(list, right as int, end)
        },
    }
}

/// The objects of the leaves among the nodes from `index` up to `end`, in
/// index order.
pub open spec fn leaves_between<P>(list: Seq<LinearBVHNode<P>>, index: int, end: int) -> Seq<P>
    decreases end - index,
{
    if index >= end || end > list.len() || index < 0 {
        Seq::empty()
    } else {
        match list[end - 1].child {
            LinearBVHNodeChild::Element(p) => leaves_between(list, index, end - 1).push(p),
            LinearBVHNodeChild::RightTree(_) => leaves_between(list, index, end - 1),
        }
    }
}

/// What the recursive search returns for the subtree stored from `index` up
/// to `end`, for a ray that may travel as far as `t_max`.
///
/// `inside(i, limit)` says whether the ray passes through the box of node
/// `i` before `limit`, and `probe(i, limit)` is the hit that the object of
/// leaf `i` reports before `limit`. A node whose box is missed yields
/// nothing. An inner node searches its left subtree, then its right subtree
/// up to the hit found on the left, and prefers what the right subtree
/// found.
pub open spec fn hit_aux_spec<P, M>(
    list: Seq<LinearBVHNode<P>>,
    inside: spec_fn(int, Scalar) -> bool,
    probe: spec_fn(int, Scalar) -> Option<HitRecord<M>>,
    index: int,
    end: int,
    t_max: Scalar,
) -> Option<HitRecord<M>>
    decreases end - index,
{
    if !(0 <= index < end <= list.len()) || !inside(index, t_max) {
        None
    } else {
        match list[index].child {
            LinearBVHNodeChild::Element(_) => probe(index, t_max),
            LinearBVHNodeChild::RightTree(right) => {
                if index + 1 < right < end {
                    let hit_left = hit_aux_spec(list, inside, probe, index + 1, right as int, t_max);
                    let limit = match hit_left {
                        Some(a) => a.t,
                        None => t_max,
                    };
                    let hit_right = hit_aux_spec(list, inside, probe, right as int, end, limit);
                    match hit_right {
                        Some(_) => hit_right,
                        None => hit_left,
                    }
                } else {
                    None
                }
            },
        }
    }
}

/// The state of a search through the flat layout: the nodes still to be
/// visited, the next one last, and the nearest hit so far.
pub struct Traversal<M> {
    pub stack: Vec<usize>,
    pub nearest: Nearest<M>,
}

/// A search state as a value of specifications.
pub struct SearchState<M> {
    pub stack: Seq<usize>,
    pub nearest: Nearest<M>,
}

impl<M> SearchState<M> {
    /// The state after the node on top of the stack was taken off and, when
    /// the ray passes through its box (`through`), entered: the two children
    /// of an inner node are put on the stack, the left one on top.
    pub open spec fn enter<P>(self, list: Seq<LinearBVHNode<P>>, through: bool) -> SearchState<M> {
        if self.stack.len() == 0 {
            self
        } else {
            let index = self.stack.last();
            let rest = self.stack.drop_last();
            if !through || index >= list.len() {
                SearchState { stack: rest, nearest: self.nearest }
            } else {
                match list[index as int].child {
                    LinearBVHNodeChild::Element(_) => SearchState { stack: rest, nearest: self.nearest },
                    LinearBVHNodeChild::RightTree(right) => SearchState {
                        stack: rest.push(right).push((index + 1) as usize),
                        nearest: self.nearest,
                    },
                }
            }
        }
    }

    /// Whether entering the node on top of the stack reaches a leaf, whose
    /// object is to be tested next.
    pub open spec fn reaches_leaf<P>(self, list: Seq<LinearBVHNode<P>>, through: bool) -> bool {
        &&& self.stack.len() > 0
        &&& through
        &&& self.stack.last() < list.len()
        &&& list[self.stack.last() as int].child is Element
    }

    /// One round of the search: the node on top of the stack is tested and
    /// entered, and a leaf's object is tested and its answer taken.
    pub open spec fn step<P>(
        self,
        list: Seq<LinearBVHNode<P>>,
        inside: spec_fn(int, Scalar) -> bool,
        probe: spec_fn(int, Scalar) -> Option<HitRecord<M>>,
    ) -> SearchState<M> {
        if self.stack.len() == 0 {
            self
        } else {
            let index = self.stack.last() as int;
            let through = inside(index, self.nearest.closest);
            let entered = self.enter(list, through);
            if self.reaches_leaf(list, through) {
                SearchState {
                    stack: entered.stack,
                    nearest: entered.nearest.offer_spec(probe(index, self.nearest.closest)),
                }
            } else {
                entered
            }
        }
    }

    /// The state after `n` rounds.
    pub open spec fn steps<P>(
        self,
        n: nat,
        list: Seq<LinearBVHNode<P>>,
        inside: spec_fn(int, Scalar) -> bool,
        probe: spec_fn(int, Scalar) -> Option<HitRecord<M>>,
    ) -> SearchState<M>
        decreases n,
    {
        if n == 0 {
            self
        } else {
            self.step(list, inside, probe).steps((n - 1) as nat, list, inside, probe)
        }
    }
}

impl<M> Traversal<M> {
    pub open spec fn state(self) -> SearchState<M> {
        SearchState { stack: self.stack@, nearest: self.nearest }
    }

    /// The node to test next; nothing when the search is over.
    pub fn current(&self) -> (index: Option<usize>)
        ensures
            index == if self.stack@.len() == 0 {
                None
            } else {
                Some(self.stack@.last())
            },
    {
        if self.stack.len() == 0 {
            None
        } else {
            Some(self.stack[self.stack.len() - 1])
        }
    }

    /// The limit that the next test must respect.
    pub fn closest(&self) -> (t: Scalar)
        ensures
            t == self.nearest.closest,
    {
        self.nearest.closest
    }

    /// Takes the answer of the object of the leaf that was just entered.
    pub fn offer(&mut self, hit: Option<HitRecord<M>>)
        ensures
            final(self).stack@ == old(self).stack@,
            final(self).nearest == old(self).nearest.offer_spec(hit),
    {
        self.nearest.offer(hit);
    }

    /// The nearest hit that the search found.
    pub fn finish(self) -> (hit: Option<HitRecord<M>>)
        ensures
            hit == self.nearest.best,
    {
        self.nearest.finish()
    }
}

impl<P> LinearBVHTree<P> {
    /// The list holds exactly one tree.
    pub open spec fn wf(self) -> bool {
        is_subtree(self.list@, 0, self.list@.len() as int)
    }

    /// The stack of a search refers to nodes of this tree only.
    pub open spec fn admits<M>(self, search: Traversal<M>) -> bool {
        forall|k: int| 0 <= k < search.stack@.len() ==> #[trigger] search.stack@[k] < self.list@.len()
    }

    /// Lays a tree out flat.
    pub fn new_from_bvhnode(node: BVHNode<P>) -> (tree: LinearBVHTree<P>)
        ensures
            tree.list@ == node.linear(0),
            tree.list@.len() == node.size(),
            tree.wf(),
            leaves_between(tree.list@, 0, tree.list@.len() as int) == node.leaves(),
    {
        let mut tree = LinearBVHTree { list: Vec::new() };
        tree.flatten_bvhtree(node);
        let count = tree.list.len();
        proof {
            assert(count == tree.list@.len());
            lemma_linear_len(node, 0);
            assert(tree.list@ =~= node.linear(0));
            assert(tree.list@.subrange(0, node.size() as int) =~= tree.list@);
            lemma_linear_is_subtree(node, tree.list@, 0);
            lemma_linear_keeps_leaves(node, tree.list@, 0);
        }
        tree
    }

    fn flatten_bvhtree(&mut self, node: BVHNode<P>) -> (myoffset: usize)
        ensures
            final(self).list@ == old(self).list@ + node.linear(old(self).list@.len() as int),
            myoffset == old(self).list@.len(),
        decreases node,
    {
        let myoffset = self.list.len();
        let ghost before = self.list@;
        proof {
            lemma_linear_len(node, myoffset as int);
        }
        let BVHNode { child, bounds } = node;
        match child {
            BVHNodeChild::Trees(left, right) => {
                proof {
                    lemma_linear_len(*left, myoffset + 1);
                    lemma_linear_len(*right, myoffset + 1 + left.size());
                }
                self.list.push(LinearBVHNode { bounds, child: LinearBVHNodeChild::RightTree(0) });
                self.flatten_bvhtree(*left);
                let right_index = self.flatten_bvhtree(*right);
                self.list[myoffset] = LinearBVHNode {
                    bounds,
                    child: LinearBVHNodeChild::RightTree(right_index),
                };
                proof {
                    assert(self.list@ =~= before + node.linear(myoffset as int));
                }
            },
            BVHNodeChild::Element(a) => {
                self.list.push(LinearBVHNode { bounds, child: LinearBVHNodeChild::Element(a) });
                proof {
                    assert(self.list@ =~= before + node.linear(myoffset as int));
                }
            },
        }
        myoffset
    }

    /// The number of nodes.
    pub fn len(&self) -> (n: usize)
        ensures
            n == self.list@.len(),
    {
        self.list.len()
    }

    /// The box of the node at `index`.
    pub fn bounds_at(&self, index: usize) -> (b: AABB)
        requires
            index < self.list@.len(),
        ensures
            b == self.list@[index as int].bounds,
    {
        self.list[index].bounds
    }

    /// The box around everything in the tree: the box of the root.
    pub fn bounding_box(&self) -> (b: Option<AABB>)
        requires
            self.wf(),
        ensures
            b == Some(self.list@[0].bounds),
    {
        Some(self.list[0].bounds)
    }

    /// Starts a search at the root for a ray that may travel as far as
    /// `t_max`.
    pub fn begin<M>(&self, t_max: Scalar) -> (search: Traversal<M>)
        requires
            self.wf(),
        ensures
            search.stack@ == seq![0usize],
            search.nearest == Nearest::<M>::start(t_max),
            self.admits(search),
    {
        let mut stack: Vec<usize> = Vec::new();
        stack.push(0);
        Traversal { stack, nearest: Nearest::new(t_max) }
    }

    /// Takes the current node off the stack and, when the ray passes through
    /// its box (`through`), enters it. Entering a leaf hands out its object:
    /// the caller tests it against the ray and offers the answer to the
    /// search. Entering an inner node puts its children on the stack.
    pub fn enter<'a, M>(&'a self, search: &mut Traversal<M>, through: bool) -> (object: Option<&'a P>)
        requires
            self.wf(),
            self.admits(*old(search)),
            old(search).stack@.len() > 0,
        ensures
            final(search).state() == old(search).state().enter(self.list@, through),
            self.admits(*final(search)),
            object.is_some() == old(search).state().reaches_leaf(self.list@, through),
            object.is_some() ==> self.list@[old(search).stack@.last() as int].child
                == LinearBVHNodeChild::Element(*object.unwrap()),
    {
        let index = search.stack[search.stack.len() - 1];
        let ghost rest = search.stack@.drop_last();
        search.stack.pop();
        assert(search.stack@ =~= rest);
        if !through {
            return None;
        }
        match &self.list[index].child {
            LinearBVHNodeChild::Element(p) => Some(p),
            LinearBVHNodeChild::RightTree(right) => {
                proof {
                    lemma_children_in_range(self.list@, 0, self.list@.len() as int, index as int);
                }
                search.stack.push(*right);
                search.stack.push(index + 1);
                None
            },
        }
    }
}

/// The flat layout of a tree has one node for each node of the tree.
pub proof fn lemma_linear_len<P>(node: BVHNode<P>, offset: int)
    ensures
        node.linear(offset).len() == node.size(),
    decreases node,
{
    match node.child {
        BVHNodeChild::Trees(left, right) => {
            lemma_linear_len(*left, offset + 1);
            lemma_linear_len(*right, offset + 1 + left.size());
        },
        BVHNodeChild::Element(_) => {},
    }
}

/// A list that holds the flat layout of an inner node holds the layouts of
/// its two subtrees behind the root.
proof fn lemma_linear_parts<P>(node: BVHNode<P>, list: Seq<LinearBVHNode<P>>, offset: int)
    requires
        0 <= offset,
        offset + node.size() <= list.len(),
        list.subrange(offset, offset + node.size()) == node.linear(offset),
        node.child is Trees,
    ensures
        list.subrange(offset + 1, offset + 1 + node.child->Trees_0.size()) == node.child->Trees_0.linear(
            offset + 1,
        ),
        list.subrange(
            offset + 1 + node.child->Trees_0.size(),
            offset + node.size(),
        ) == node.child->Trees_1.linear(offset + 1 + node.child->Trees_0.size()),
{
    let flat = node.linear(offset);
    let left = node.child->Trees_0;
    let right = node.child->Trees_1;
    let mid = offset + 1 + left.size();
    lemma_linear_len(node, offset);
    lemma_linear_len(*left, offset + 1);
    lemma_linear_len(*right, mid);
    let a = list.subrange(offset + 1, mid);
    let b = list.subrange(mid, offset + node.size());
    assert forall|j: int| 0 <= j < left.size() implies #[trigger] a[j] == left.linear(offset + 1)[j] by {
        assert(list[offset + 1 + j] == list.subrange(offset, offset + node.size())[1 + j]);
        assert(flat[1 + j] == left.linear(offset + 1)[j]);
    }
    assert forall|j: int| 0 <= j < right.size() implies #[trigger] b[j] == right.linear(mid)[j] by {
        assert(list[mid + j] == list.subrange(offset, offset + node.size())[1 + left.size() + j]);
        assert(flat[1 + left.size() + j] == right.linear(mid)[j]);
    }
    assert(a =~= left.linear(offset + 1));
    assert(b =~= right.linear(mid));
}

/// A list that holds the flat layout of a tree at `offset` holds a subtree
/// there.
pub proof fn lemma_linear_is_subtree<P>(node: BVHNode<P>, list: Seq<LinearBVHNode<P>>, offset: int)
    requires
        0 <= offset,
        offset + node.size() <= list.len(),
        list.len() <= usize::MAX,
        list.subrange(offset, offset + node.size()) == node.linear(offset),
    ensures
        is_subtree(list, offset, offset + node.size()),
    decreases node,
{
    let flat = node.linear(offset);
    lemma_linear_len(node, offset);
    assert(list[offset] == list.subrange(offset, offset + node.size())[0]);
    match node.child {
        BVHNodeChild::Trees(left, right) => {
            let mid = offset + 1 + left.size();
            lemma_linear_len(*left, offset + 1);
            lemma_linear_len(*right, mid);
            lemma_linear_parts(node, list, offset);
            lemma_linear_is_subtree(*left, list, offset + 1);
            lemma_linear_is_subtree(*right, list, mid);
        },
        BVHNodeChild::Element(_) => {},
    }
}

/// In a subtree every inner node has its right child after its left child
/// and inside the subtree.
pub proof fn lemma_children_in_range<P>(list: Seq<LinearBVHNode<P>>, index: int, end: int, at: int)
    requires
        is_subtree(list, index, end),
        index <= at < end,
    ensures
        match list[at].child {
            LinearBVHNodeChild::Element(_) => true,
            LinearBVHNodeChild::RightTree(right) => at + 1 < right < end,
        },
    decreases end - index,
{
    if at != index {
        match list[index].child {
            LinearBVHNodeChild::Element(_) => {},
            LinearBVHNodeChild::RightTree(right) => {
                if at < right {
                    lemma_children_in_range(list, index + 1, right as int, at);
                } else {
                    lemma_children_in_range(list, right as int, end, at);
                }
            },
        }
    }
}

/// The leaves of the flat layout of a tree are the leaves of the tree.
pub proof fn lemma_linear_keeps_leaves<P>(node: BVHNode<P>, list: Seq<LinearBVHNode<P>>, offset: int)
    requires
        0 <= offset,
        offset + node.size() <= list.len(),
        list.subrange(offset, offset + node.size()) == node.linear(offset),
    ensures
        leaves_between(list, offset, offset + node.size()) == node.leaves(),
    decreases node,
{
    let flat = node.linear(offset);
    lemma_linear_len(node, offset);
    assert(list[offset] == list.subrange(offset, offset + node.size())[0]);
    match node.child {
        BVHNodeChild::Trees(left, right) => {
            let mid = offset + 1 + left.size();
            lemma_linear_len(*left, offset + 1);
            lemma_linear_len(*right, mid);
            lemma_linear_parts(node, list, offset);
            lemma_linear_keeps_leaves(*left, list, offset + 1);
            lemma_linear_keeps_leaves(*right, list, mid);
            lemma_leaves_between_split(list, offset + 1, mid, mid + right.size());
            lemma_leaves_between_split(list, offset, offset + 1, mid + right.size());
            assert(leaves_between(list, offset, offset) =~= Seq::<P>::empty());
            assert(leaves_between(list, offset, offset + 1) =~= Seq::<P>::empty());
            assert(Seq::<P>::empty() + (left.leaves() + right.leaves()) =~= left.leaves()
                + right.leaves());
        },
        BVHNodeChild::Element(p) => {
            assert(leaves_between(list, offset, offset) =~= Seq::<P>::empty());
            assert(leaves_between(list, offset, offset + 1) =~= seq![p]);
        },
    }
}

/// The leaves of a range are those of its first part followed by those of
/// its second part.
pub proof fn lemma_leaves_between_split<P>(list: Seq<LinearBVHNode<P>>, index: int, mid: int, end: int)
    requires
        0 <= index <= mid <= end <= list.len(),
    ensures
        leaves_between(list, index, end) == leaves_between(list, index, mid) + leaves_between(
            list,
            mid,
            end,
        ),
    decreases end - mid,
{
    if mid == end {
        assert(leaves_between(list, mid, end) =~= Seq::<P>::empty());
        assert(leaves_between(list, index, mid) + Seq::<P>::empty() =~= leaves_between(
            list,
            index,
            mid,
        ));
    } else {
        lemma_leaves_between_split(list, index, mid, end - 1);
        match list[end - 1].child {
            LinearBVHNodeChild::Element(p) => {
                assert(leaves_between(list, index, mid) + leaves_between(list, mid, end - 1).push(p)
                    =~= (leaves_between(list, index, mid) + leaves_between(list, mid, end - 1)).push(
                    p,
                ));
            },
            LinearBVHNodeChild::RightTree(_) => {},
        }
    }
}

} // verus!
