//! Moved and turned objects.
//!
//! The wrappers keep the object and the quantities of its transform. They
//! turn the hit that the object reports in its own space into the hit in
//! world space, and find the world box of a turned object from the turned
//! corners of its box.

use vstd::prelude::*;
use itertools::Itertools;
use crate::aabb::AABB;
use crate::base::{Axis, Point3, Vec3};
use crate::hit::hit_record::HitRecord;
use crate::scalar::Scalar;

verus! {

/// An object moved by `offset`.
pub struct Translate<H> {
    pub obj: H,
    pub offset: Vec3,
}

/// An object turned about the y axis.
pub struct RotateY<H> {
    pub obj: H,
    pub sin_theta: Scalar,
    pub cos_theta: Scalar,
    pub bbox: Option<AABB>,
}

impl<H> Translate<H> {
    pub fn new(obj: H, offset: Vec3) -> (t: Self)
        ensures
            t.obj == obj,
            t.offset == offset,
    {
        Translate { obj, offset }
    }

    /// The hit in world space of a hit that the object reports for the moved
    /// ray: the same hit with its point moved to `moved_p`, the hit point
    /// plus the offset. Parameter, surface coordinates, normal, face and
    /// material stay as they are.
    pub fn record<M>(hit: HitRecord<M>, moved_p: Point3) -> (rec: HitRecord<M>)
        ensures
            rec == (HitRecord { p: moved_p, ..hit }),
    {
        HitRecord { p: moved_p, ..hit }
    }

    /// The box of the moved object: `moved` is the box of the object with
    /// both corners moved by the offset, and there is none when the object
    /// has none.
    pub fn bounding_box(inner: Option<AABB>, moved: AABB) -> (b: Option<AABB>)
        ensures
            b == if inner.is_some() {
                Some(moved)
            } else {
                None
            },
    {
        match inner {
            Some(_) => Some(moved),
            None => None,
        }
    }
}

impl<H> RotateY<H> {
    /// An object turned by the angle whose sine and cosine are given.
    ///
    /// `inner` is the box of the object and `turn` turns a point by the
    /// angle. The box of the turned object is the box around the eight
    /// turned corners of `inner`; an object without a box has none when
    /// turned.
    pub fn new<F: Fn(Vec3) -> Vec3>(
        obj: H,
        sin_theta: Scalar,
        cos_theta: Scalar,
        inner: Option<AABB>,
        turn: &F,
    ) -> (r: Self)
        requires
            forall|p: Vec3| call_requires(*turn, (p,)),
        ensures
            r.obj == obj,
            r.sin_theta == sin_theta,
            r.cos_theta == cos_theta,
            r.bbox.is_none() <==> inner.is_none(),
            inner matches Some(b) ==> exists|turned: Seq<Vec3>|
                {
                    &&& turned.len() == 8
                    &&& forall|k: int| 0 <= k < 8 ==> call_ensures(*turn, (b.corner(k),), #[trigger] turned[k])
                    &&& is_box_around(r.bbox.unwrap(), turned)
                },
    {
        let bbox = match inner {
            Some(b) => {
                let corners = b.corners();
                let mut turned: Vec<Vec3> = Vec::new();
                let mut k: usize = 0;
                while k < 8
                    invariant
                        k <= 8,
                        corners@.len() == 8,
                        turned@.len() == k,
                        forall|p: Vec3| call_requires(*turn, (p,)),
                        forall|j: int| 0 <= j < 8 ==> #[trigger] corners@[j] == b.corner(j),
                        forall|j: int| 0 <= j < k ==> call_ensures(*turn, (b.corner(j),), #[trigger] turned@[j]),
                    decreases 8 - k,
                {
                    let p = turn(corners[k]);
                    let ghost before = turned@;
                    turned.push(p);
                    proof {
                        assert forall|j: int| 0 <= j < k + 1 implies call_ensures(
                            *turn,
                            (b.corner(j),),
                            #[trigger] turned@[j],
                        ) by {
                            if j < k {
                                assert(turned@[j] == before[j]);
                            }
                        }
                    }
                    k += 1;
                }
                AABB::around(&turned)
            },
            None => None,
        };
        RotateY { obj, sin_theta, cos_theta, bbox }
    }

    /// The hit in world space of a hit that the object reports for the
    /// turned ray: the same hit with its point and its normal turned back.
    /// Parameter, surface coordinates, face and material stay as they are.
    pub fn record<M>(hit: HitRecord<M>, turned_p: Point3, turned_normal: Vec3) -> (rec: HitRecord<M>)
        ensures
            rec == (HitRecord { p: turned_p, normal: turned_normal, ..hit }),
    {
        HitRecord { p: turned_p, normal: turned_normal, ..hit }
    }

    pub fn bounding_box(&self) -> (b: Option<AABB>)
        ensures
            b == self.bbox,
    {
        self.bbox
    }
}

/// The first of a pair when `digit` is zero, else the second.
pub open spec fn pick(pair: (u64, u64), digit: int) -> u64 {
    if digit == 0 {
        pair.0
    } else {
        pair.1
    }
}

/// Calls `Itertools::multi_cartesian_product` on the three pairs, each as a
/// list of two. The product has eight triples; the last pair changes fastest
/// and the first slowest.
#[verifier::external_body]
fn product_of_pairs(x: (u64, u64), y: (u64, u64), z: (u64, u64)) -> (out: Vec<Vec<u64>>)
    ensures
        out@.len() == 8,
        forall|k: int|
            0 <= k < 8 ==> (#[trigger] out@[k])@ == seq![
                pick(x, k / 4),
                pick(y, (k / 2) % 2),
                pick(z, k % 2),
            ],
{
    vec![vec![x.0, x.1], vec![y.0, y.1], vec![z.0, z.1]].into_iter().multi_cartesian_product().collect()
}

/// Calls `Itertools::minmax` on the values. There is a result exactly when
/// there is a value; its first part is a value that none is below and its
/// second part a value that none is above.
#[verifier::external_body]
fn minmax_of(values: Vec<i64>) -> (out: Option<(i64, i64)>)
    ensures
        out.is_none() <==> values@.len() == 0,
        out matches Some((lo, hi)) ==> {
            &&& values@.contains(lo)
            &&& values@.contains(hi)
            &&& forall|i: int| 0 <= i < values@.len() ==> lo <= #[trigger] values@[i] <= hi
        },
{
    values.into_iter().minmax().into_option()
}

/// Along `axis` the box reaches exactly from the least to the greatest
/// coordinate of the points.
pub open spec fn spans_along(bx: AABB, points: Seq<Vec3>, axis: Axis) -> bool {
    &&& forall|i: int|
        0 <= i < points.len() ==> bx.minimum.along(axis).rank() <= (#[trigger] points[i]).along(axis).rank()
            <= bx.maximum.along(axis).rank()
    &&& exists|i: int| 0 <= i < points.len() && #[trigger] points[i].along(axis).rank() == bx.minimum.along(axis).rank()
    &&& exists|i: int| 0 <= i < points.len() && #[trigger] points[i].along(axis).rank() == bx.maximum.along(axis).rank()
}

/// The box is the tightest around the points: along every axis it reaches
/// from the least to the greatest coordinate, and it is well formed when no
/// coordinate is a NaN.
pub open spec fn is_box_around(bx: AABB, points: Seq<Vec3>) -> bool {
    &&& spans_along(bx, points, Axis::X)
    &&& spans_along(bx, points, Axis::Y)
    &&& spans_along(bx, points, Axis::Z)
    &&& (forall|i: int| 0 <= i < points.len() ==> !(#[trigger] points[i]).has_nan()) ==> bx.wf()
}

impl AABB {
    /// Corner number `k` of the box: the largest coordinate along x when `k`
    /// is four or more, along y when its remainder by four is two or more,
    /// along z when it is odd, and the smallest coordinate otherwise.
    pub open spec fn corner(self, k: int) -> Vec3 {
        Vec3 {
            x: if k / 4 == 0 {
                self.minimum.x
            } else {
                self.maximum.x
            },
            y: if (k / 2) % 2 == 0 {
                self.minimum.y
            } else {
                self.maximum.y
            },
            z: if k % 2 == 0 {
                self.minimum.z
            } else {
                self.maximum.z
            },
        }
    }

    /// The eight corners of the box.
    pub fn corners(&self) -> (out: Vec<Vec3>)
        ensures
            out@.len() == 8,
            forall|k: int| 0 <= k < 8 ==> #[trigger] out@[k] == self.corner(k),
    {
        let triples = product_of_pairs(
            (self.minimum.x.to_bits(), self.maximum.x.to_bits()),
            (self.minimum.y.to_bits(), self.maximum.y.to_bits()),
            (self.minimum.z.to_bits(), self.maximum.z.to_bits()),
        );
        let mut out: Vec<Vec3> = Vec::new();
        let mut k: usize = 0;
        while k < 8
            invariant
                k <= 8,
                triples@.len() == 8,
                out@.len() == k,
                forall|j: int|
                    0 <= j < 8 ==> (#[trigger] triples@[j])@ == seq![
                        pick((self.minimum.x.bits, self.maximum.x.bits), j / 4),
                        pick((self.minimum.y.bits, self.maximum.y.bits), (j / 2) % 2),
                        pick((self.minimum.z.bits, self.maximum.z.bits), j % 2),
                    ],
                forall|j: int| 0 <= j < k ==> #[trigger] out@[j] == self.corner(j),
            decreases 8 - k,
        {
            let triple = &triples[k];
            assert(triple@.len() == 3);
            out.push(
                Vec3::new(
                    Scalar::from_bits(triple[0]),
                    Scalar::from_bits(triple[1]),
                    Scalar::from_bits(triple[2]),
                ),
            );
            k += 1;
        }
        out
    }

    /// The box around the points: along each axis it reaches from the least
    /// to the greatest coordinate. There is none around no points.
    pub fn around(points: &Vec<Vec3>) -> (b: Option<AABB>)
        ensures
            b.is_none() <==> points@.len() == 0,
            b matches Some(bx) ==> is_box_around(bx, points@),
    {
        let mut xs: Vec<i64> = Vec::new();
        let mut ys: Vec<i64> = Vec::new();
        let mut zs: Vec<i64> = Vec::new();
        let mut i: usize = 0;
        while i < points.len()
            invariant
                i <= points@.len(),
                xs@.len() == i,
                ys@.len() == i,
                zs@.len() == i,
                forall|j: int| 0 <= j < i ==> #[trigger] xs@[j] == points@[j].x.rank(),
                forall|j: int| 0 <= j < i ==> #[trigger] ys@[j] == points@[j].y.rank(),
                forall|j: int| 0 <= j < i ==> #[trigger] zs@[j] == points@[j].z.rank(),
            decreases points@.len() - i,
        {
            xs.push(points[i].x.rank_of());
            ys.push(points[i].y.rank_of());
            zs.push(points[i].z.rank_of());
            i += 1;
        }
        let ghost gx = xs@;
        let ghost gy = ys@;
        let ghost gz = zs@;
        match (minmax_of(xs), minmax_of(ys), minmax_of(zs)) {
            (Some((x0, x1)), Some((y0, y1)), Some((z0, z1))) => {
                let bx = AABB::new(
                    Vec3::new(Scalar::from_rank(x0), Scalar::from_rank(y0), Scalar::from_rank(z0)),
                    Vec3::new(Scalar::from_rank(x1), Scalar::from_rank(y1), Scalar::from_rank(z1)),
                );
                proof {
                    let ix0 = choose|j: int| 0 <= j < gx.len() && gx[j] == x0;
                    let ix1 = choose|j: int| 0 <= j < gx.len() && gx[j] == x1;
                    let iy0 = choose|j: int| 0 <= j < gy.len() && gy[j] == y0;
                    let iy1 = choose|j: int| 0 <= j < gy.len() && gy[j] == y1;
                    let iz0 = choose|j: int| 0 <= j < gz.len() && gz[j] == z0;
                    let iz1 = choose|j: int| 0 <= j < gz.len() && gz[j] == z1;
                    assert(points@[ix0].along(Axis::X).rank() == bx.minimum.along(Axis::X).rank());
                    assert(points@[ix1].along(Axis::X).rank() == bx.maximum.along(Axis::X).rank());
                    assert(points@[iy0].along(Axis::Y).rank() == bx.minimum.along(Axis::Y).rank());
                    assert(points@[iy1].along(Axis::Y).rank() == bx.maximum.along(Axis::Y).rank());
                    assert(points@[iz0].along(Axis::Z).rank() == bx.minimum.along(Axis::Z).rank());
                    assert(points@[iz1].along(Axis::Z).rank() == bx.maximum.along(Axis::Z).rank());
                    assert forall|j: int| 0 <= j < points@.len() implies bx.minimum.along(Axis::X).rank() <= (
                    #[trigger] points@[j]).along(Axis::X).rank() <= bx.maximum.along(Axis::X).rank() by {
                        assert(gx[j] == points@[j].x.rank());
                    }
                    assert forall|j: int| 0 <= j < points@.len() implies bx.minimum.along(Axis::Y).rank() <= (
                    #[trigger] points@[j]).along(Axis::Y).rank() <= bx.maximum.along(Axis::Y).rank() by {
                        assert(gy[j] == points@[j].y.rank());
                    }
                    assert forall|j: int| 0 <= j < points@.len() implies bx.minimum.along(Axis::Z).rank() <= (
                    #[trigger] points@[j]).along(Axis::Z).rank() <= bx.maximum.along(Axis::Z).rank() by {
                        assert(gz[j] == points@[j].z.rank());
                    }
                    assert(spans_along(bx, points@, Axis::X));
                    assert(spans_along(bx, points@, Axis::Y));
                    assert(spans_along(bx, points@, Axis::Z));
                    if forall|i: int| 0 <= i < points@.len() ==> !(#[trigger] points@[i]).has_nan() {
                        assert(!points@[ix0].has_nan() && !points@[ix1].has_nan());
                        assert(!points@[iy0].has_nan() && !points@[iy1].has_nan());
                        assert(!points@[iz0].has_nan() && !points@[iz1].has_nan());
                        assert(bx.wf());
                    }
                }
                Some(bx)
            },
            _ => None,
        }
    }
}

} // verus!
