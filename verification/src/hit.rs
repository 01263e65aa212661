//! Collections of hittable things and the search for the nearest hit.

pub mod bvh;
pub mod constant_medium;
pub mod hit_record;
pub mod rectangle;
pub mod sah;
pub mod search;
pub mod sphere;
pub mod transform;

use vstd::prelude::*;
use crate::aabb::AABB;
use crate::hit::hit_record::HitRecord;
use crate::scalar::Scalar;

verus! {

/// The nearest hit found so far and the parameter that a nearer one must
/// not exceed.
#[derive(Clone, Copy, Debug)]
pub struct Nearest<M> {
    pub closest: Scalar,
    pub best: Option<HitRecord<M>>,
}

impl<M> Nearest<M> {
    /// The search before anything was tested.
    pub open spec fn start(t_max: Scalar) -> Nearest<M> {
        Nearest { closest: t_max, best: None }
    }

    /// The search after one more object answered `hit`: a hit replaces the
    /// best one and tightens the limit to its parameter, a miss changes
    /// nothing.
    pub open spec fn offer_spec(self, hit: Option<HitRecord<M>>) -> Nearest<M> {
        match hit {
            Some(h) => Nearest { closest: h.t, best: Some(h) },
            None => self,
        }
    }

    /// The search after the first `n` objects of a list were tested in
    /// order, where `probe(i, limit)` is what object `i` answers to a ray
    /// that may travel as far as `limit`.
    pub open spec fn scan(
        n: nat,
        probe: spec_fn(int, Scalar) -> Option<HitRecord<M>>,
        t_max: Scalar,
    ) -> Nearest<M>
        decreases n,
    {
        if n == 0 {
            Self::start(t_max)
        } else {
            let before = Self::scan((n - 1) as nat, probe, t_max);
            before.offer_spec(probe(n - 1, before.closest))
        }
    }

    pub fn new(t_max: Scalar) -> (s: Self)
        ensures
            s == Self::start(t_max),
    {
        Nearest { closest: t_max, best: None }
    }

    /// The limit to hand to the next object.
    pub fn closest(&self) -> (t: Scalar)
        ensures
            t == self.closest,
    {
        self.closest
    }

    /// Takes the answer of the next object.
    pub fn offer(&mut self, hit: Option<HitRecord<M>>)
        ensures
            *final(self) == old(self).offer_spec(hit),
    {
        match hit {
            Some(h) => {
                self.closest = h.t;
                self.best = Some(h);
            },
            None => {},
        }
    }

    /// The nearest hit, if any object was hit.
    pub fn finish(self) -> (hit: Option<HitRecord<M>>)
        ensures
            hit == self.best,
    {
        self.best
    }
}

/// An object of a list together with its bounding box, if it has one.
pub struct Entry<P> {
    pub item: P,
    pub bounds: Option<AABB>,
}

/// A list of hittable objects, searched one after the other.
pub struct HittableList<P> {
    pub list: Vec<Entry<P>>,
}

/// The boxes of a list united from the left; nothing when the list is empty
/// or an object has no box.
pub open spec fn union_of_boxes(boxes: Seq<Option<AABB>>) -> Option<AABB>
    decreases boxes.len(),
{
    if boxes.len() == 0 {
        None
    } else if boxes.len() == 1 {
        boxes[0]
    } else {
        match (union_of_boxes(boxes.drop_last()), boxes.last()) {
            (Some(a), Some(b)) => Some(AABB::union_spec(a, b)),
            _ => None,
        }
    }
}

/// The bounding boxes of a sequence of entries, in order.
pub open spec fn boxes_of<P>(entries: Seq<Entry<P>>) -> Seq<Option<AABB>> {
    Seq::new(entries.len(), |i: int| entries[i].bounds)
}

/// Every entry has a bounding box.
pub open spec fn all_bounded<P>(entries: Seq<Entry<P>>) -> bool {
    forall|i: int| 0 <= i < entries.len() ==> (#[trigger] entries[i]).bounds.is_some()
}

impl<P> HittableList<P> {
    /// The bounding boxes of the objects, in list order.
    pub open spec fn boxes(self) -> Seq<Option<AABB>> {
        boxes_of(self.list@)
    }

    /// The objects, in list order.
    pub open spec fn items(self) -> Seq<P> {
        Seq::new(self.list@.len(), |i: int| self.list@[i].item)
    }

    /// Every object has a bounding box.
    pub open spec fn bounded(self) -> bool {
        all_bounded(self.list@)
    }

    pub fn new() -> (l: Self)
        ensures
            l.list@.len() == 0,
    {
        HittableList { list: Vec::new() }
    }

    /// Appends an object and the bounding box it reports.
    pub fn add(&mut self, item: P, bounds: Option<AABB>)
        ensures
            final(self).list@ == old(self).list@.push(Entry { item, bounds }),
    {
        self.list.push(Entry { item, bounds });
    }

    pub fn len(&self) -> (n: usize)
        ensures
            n == self.list@.len(),
    {
        self.list.len()
    }

    /// The object at position `i`.
    pub fn get(&self, i: usize) -> (item: &P)
        requires
            i < self.list@.len(),
        ensures
            *item == self.list@[i as int].item,
    {
        &self.list[i].item
    }

    /// Whether every object has a bounding box.
    pub fn is_bounded(&self) -> (b: bool)
        ensures
            b == self.bounded(),
    {
        let mut i: usize = 0;
        while i < self.list.len()
            invariant
                i <= self.list@.len(),
                forall|j: int| 0 <= j < i ==> (#[trigger] self.list@[j]).bounds.is_some(),
            decreases self.list@.len() - i,
        {
            if self.list[i].bounds.is_none() {
                return false;
            }
            i += 1;
        }
        true
    }

    /// The box around all objects; nothing when the list is empty or an
    /// object has no box.
    pub fn bounding_box(&self) -> (b: Option<AABB>)
        ensures
            b == union_of_boxes(self.boxes()),
    {
        if self.list.len() == 0 {
            return None;
        }
        let mut acc: Option<AABB> = self.list[0].bounds;
        let mut i: usize = 1;
        proof {
            assert(self.boxes().subrange(0, 1).len() == 1);
            assert(self.boxes().subrange(0, 1)[0] == self.boxes()[0]);
        }
        while i < self.list.len()
            invariant
                1 <= i <= self.list@.len(),
                acc == union_of_boxes(self.boxes().subrange(0, i as int)),
            decreases self.list@.len() - i,
        {
            let ghost prefix = self.boxes().subrange(0, i + 1);
            proof {
                assert(prefix.drop_last() =~= self.boxes().subrange(0, i as int));
                assert(prefix.last() == self.boxes()[i as int]);
            }
            acc = match (acc, self.list[i].bounds) {
                (Some(a), Some(b)) => Some(AABB::surrounding_box(&a, &b)),
                _ => None,
            };
            i += 1;
        }
        proof {
            assert(self.boxes().subrange(0, i as int) =~= self.boxes());
        }
        acc
    }
}

/// When every object has a well-formed box, the list has a box, and that box
/// is well formed, encloses the box of every object and is enclosed by every
/// box that does so.
pub proof fn lemma_union_of_boxes(boxes: Seq<Option<AABB>>, other: AABB)
    requires
        boxes.len() > 0,
        forall|i: int| 0 <= i < boxes.len() ==> (#[trigger] boxes[i]).is_some() && boxes[i].unwrap().wf(),
    ensures
        union_of_boxes(boxes).is_some(),
        union_of_boxes(boxes).unwrap().wf(),
        forall|i: int| 0 <= i < boxes.len() ==> union_of_boxes(boxes).unwrap().encloses(
            (#[trigger] boxes[i]).unwrap(),
        ),
        (forall|i: int| 0 <= i < boxes.len() ==> other.encloses((#[trigger] boxes[i]).unwrap()))
            ==> other.encloses(union_of_boxes(boxes).unwrap()),
    decreases boxes.len(),
{
    if boxes.len() > 1 {
        let init = boxes.drop_last();
        lemma_union_of_boxes(init, other);
        let a = union_of_boxes(init).unwrap();
        let b = boxes.last().unwrap();
        crate::aabb::lemma_union_is_tightest(a, b, other);
        let u = AABB::union_spec(a, b);
        assert forall|i: int| 0 <= i < boxes.len() implies u.encloses((#[trigger] boxes[i]).unwrap()) by {
            if i < boxes.len() - 1 {
                assert(init[i] == boxes[i]);
                crate::aabb::lemma_encloses_order(u, a, boxes[i].unwrap());
            }
        }
        if forall|i: int| 0 <= i < boxes.len() ==> other.encloses((#[trigger] boxes[i]).unwrap()) {
            assert forall|i: int| 0 <= i < init.len() implies other.encloses((#[trigger] init[i]).unwrap()) by {
                assert(init[i] == boxes[i]);
            }
        }
    } else {
        crate::aabb::lemma_encloses_order(boxes[0].unwrap(), boxes[0].unwrap(), boxes[0].unwrap());
    }
}

} // verus!
