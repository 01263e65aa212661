//! Axis-aligned rectangles and the cuboid made of six of them.

use vstd::prelude::*;
use crate::aabb::AABB;
use crate::base::{Point3, Vec3};
use crate::hit::hit_record::HitRecord;
use crate::hit::HittableList;
use crate::scalar::{Scalar, ONE_BITS};

verus! {

/// How far the box of a rectangle reaches to either side of its plane: the
/// bit pattern of one thousandth.
pub const PAD_BITS: u64 = 0x3f50_624d_d2f1_a9fc;

/// The padding of a rectangle's box.
pub fn pad() -> (s: Scalar)
    ensures
        s.bits == PAD_BITS,
{
    Scalar::from_bits(PAD_BITS)
}

/// Where a ray meets the plane of a rectangle, as its caller computed it.
#[derive(Clone, Copy, Debug, PartialEq, Eq, Structural)]
pub struct PlaneHit {
    /// The ray parameter at the plane.
    pub t: Scalar,
    /// The first in-plane coordinate of the meeting point.
    pub a: Scalar,
    /// The second in-plane coordinate of the meeting point.
    pub b: Scalar,
    /// The first surface coordinate of the meeting point.
    pub u: Scalar,
    /// The second surface coordinate of the meeting point.
    pub v: Scalar,
    /// The meeting point.
    pub p: Point3,
    /// The dot product of the ray's direction with the outward normal.
    pub facing: Scalar,
}

/// The meeting point counts as a hit: its parameter is not outside
/// `[t_min, t_max]` and it is not outside `[a0, a1]` by `[b0, b1]`.
pub open spec fn accepts(
    hit: PlaneHit,
    a0: Scalar,
    a1: Scalar,
    b0: Scalar,
    b1: Scalar,
    t_min: Scalar,
    t_max: Scalar,
) -> bool {
    &&& !(hit.t.lt_spec(t_min) || t_max.lt_spec(hit.t))
    &&& !(hit.a.lt_spec(a0) || a1.lt_spec(hit.a) || hit.b.lt_spec(b0) || b1.lt_spec(hit.b))
}

fn test_plane_hit(
    hit: &PlaneHit,
    a0: Scalar,
    a1: Scalar,
    b0: Scalar,
    b1: Scalar,
    t_min: Scalar,
    t_max: Scalar,
) -> (ok: bool)
    ensures
        ok == accepts(*hit, a0, a1, b0, b1, t_min, t_max),
{
    if hit.t.lt(t_min) || t_max.lt(hit.t) {
        return false;
    }
    if hit.a.lt(a0) || a1.lt(hit.a) || hit.b.lt(b0) || b1.lt(hit.b) {
        return false;
    }
    true
}

/// The unit vector along x.
pub open spec fn unit_x() -> Vec3 {
    Vec3 { x: Scalar { bits: ONE_BITS }, y: Scalar { bits: 0 }, z: Scalar { bits: 0 } }
}

/// The unit vector along y.
pub open spec fn unit_y() -> Vec3 {
    Vec3 { x: Scalar { bits: 0 }, y: Scalar { bits: ONE_BITS }, z: Scalar { bits: 0 } }
}

/// The unit vector along z.
pub open spec fn unit_z() -> Vec3 {
    Vec3 { x: Scalar { bits: 0 }, y: Scalar { bits: 0 }, z: Scalar { bits: ONE_BITS } }
}

/// A rectangle in the plane `z = k`.
#[derive(Clone, Copy, Debug)]
pub struct XYRect<M> {
    pub x0: Scalar,
    pub x1: Scalar,
    pub y0: Scalar,
    pub y1: Scalar,
    pub k: Scalar,
    pub mp: M,
}

/// A rectangle in the plane `y = k`.
#[derive(Clone, Copy, Debug)]
pub struct XZRect<M> {
    pub x0: Scalar,
    pub x1: Scalar,
    pub z0: Scalar,
    pub z1: Scalar,
    pub k: Scalar,
    pub mp: M,
}

/// A rectangle in the plane `x = k`.
#[derive(Clone, Copy, Debug)]
pub struct YZRect<M> {
    pub y0: Scalar,
    pub y1: Scalar,
    pub z0: Scalar,
    pub z1: Scalar,
    pub k: Scalar,
    pub mp: M,
}

impl<M: Copy> XYRect<M> {
    pub fn new(x0: Scalar, x1: Scalar, y0: Scalar, y1: Scalar, k: Scalar, mp: M) -> (r: Self)
        ensures
            r == (XYRect { x0, x1, y0, y1, k, mp }),
    {
        XYRect { x0, x1, y0, y1, k, mp }
    }

    /// The hit on this rectangle, if the meeting point `hit` of a ray with
    /// the plane `z = k` lies in the rectangle and within `[t_min, t_max]`.
    /// In `hit`, `a` is the x and `b` the y coordinate.
    pub fn hit(&self, hit: &PlaneHit, t_min: Scalar, t_max: Scalar) -> (rec: Option<HitRecord<M>>)
        ensures
            rec == if accepts(*hit, self.x0, self.x1, self.y0, self.y1, t_min, t_max) {
                Some(HitRecord::made(hit.t, hit.u, hit.v, hit.p, self.mp, hit.facing, unit_z()))
            } else {
                None
            },
    {
        if !test_plane_hit(hit, self.x0, self.x1, self.y0, self.y1, t_min, t_max) {
            return None;
        }
        let normal = Vec3::new(Scalar::zero(), Scalar::zero(), Scalar::one());
        Some(HitRecord::new(hit.t, hit.u, hit.v, hit.p, self.mp, hit.facing, &normal))
    }

    /// The box of the rectangle, which reaches from `low` to `high` across
    /// its plane: a little below and a little above `k`.
    pub fn bounding_box(&self, low: Scalar, high: Scalar) -> (b: Option<AABB>)
        ensures
            b == Some(
                AABB {
                    minimum: Vec3 { x: self.x0, y: self.y0, z: low },
                    maximum: Vec3 { x: self.x1, y: self.y1, z: high },
                },
            ),
            self.x0.le_spec(self.x1) && self.y0.le_spec(self.y1) && low.le_spec(high) ==> b.unwrap().wf(),
    {
        Some(AABB::new(Vec3::new(self.x0, self.y0, low), Vec3::new(self.x1, self.y1, high)))
    }
}

impl<M: Copy> XZRect<M> {
    pub fn new(x0: Scalar, x1: Scalar, z0: Scalar, z1: Scalar, k: Scalar, mp: M) -> (r: Self)
        ensures
            r == (XZRect { x0, x1, z0, z1, k, mp }),
    {
        XZRect { x0, x1, z0, z1, k, mp }
    }

    /// The hit on this rectangle, if the meeting point `hit` of a ray with
    /// the plane `y = k` lies in the rectangle and within `[t_min, t_max]`.
    /// In `hit`, `a` is the x and `b` the z coordinate.
    pub fn hit(&self, hit: &PlaneHit, t_min: Scalar, t_max: Scalar) -> (rec: Option<HitRecord<M>>)
        ensures
            rec == if accepts(*hit, self.x0, self.x1, self.z0, self.z1, t_min, t_max) {
                Some(HitRecord::made(hit.t, hit.u, hit.v, hit.p, self.mp, hit.facing, unit_y()))
            } else {
                None
            },
    {
        if !test_plane_hit(hit, self.x0, self.x1, self.z0, self.z1, t_min, t_max) {
            return None;
        }
        let normal = Vec3::new(Scalar::zero(), Scalar::one(), Scalar::zero());
        Some(HitRecord::new(hit.t, hit.u, hit.v, hit.p, self.mp, hit.facing, &normal))
    }

    /// The box of the rectangle, which reaches from `low` to `high` across
    /// its plane: a little below and a little above `k`.
    pub fn bounding_box(&self, low: Scalar, high: Scalar) -> (b: Option<AABB>)
        ensures
            b == Some(
                AABB {
                    minimum: Vec3 { x: self.x0, y: low, z: self.z0 },
                    maximum: Vec3 { x: self.x1, y: high, z: self.z1 },
                },
            ),
            self.x0.le_spec(self.x1) && self.z0.le_spec(self.z1) && low.le_spec(high) ==> b.unwrap().wf(),
    {
        Some(AABB::new(Vec3::new(self.x0, low, self.z0), Vec3::new(self.x1, high, self.z1)))
    }
}

impl<M: Copy> YZRect<M> {
    pub fn new(y0: Scalar, y1: Scalar, z0: Scalar, z1: Scalar, k: Scalar, mp: M) -> (r: Self)
        ensures
            r == (YZRect { y0, y1, z0, z1, k, mp }),
    {
        YZRect { y0, y1, z0, z1, k, mp }
    }

    /// The hit on this rectangle, if the meeting point `hit` of a ray with
    /// the plane `x = k` lies in the rectangle and within `[t_min, t_max]`.
    /// In `hit`, `a` is the y and `b` the z coordinate.
    pub fn hit(&self, hit: &PlaneHit, t_min: Scalar, t_max: Scalar) -> (rec: Option<HitRecord<M>>)
        ensures
            rec == if accepts(*hit, self.y0, self.y1, self.z0, self.z1, t_min, t_max) {
                Some(HitRecord::made(hit.t, hit.u, hit.v, hit.p, self.mp, hit.facing, unit_x()))
            } else {
                None
            },
    {
        if !test_plane_hit(hit, self.y0, self.y1, self.z0, self.z1, t_min, t_max) {
            return None;
        }
        let normal = Vec3::new(Scalar::one(), Scalar::zero(), Scalar::zero());
        Some(HitRecord::new(hit.t, hit.u, hit.v, hit.p, self.mp, hit.facing, &normal))
    }

    /// The box of the rectangle, which reaches from `low` to `high` across
    /// its plane: a little below and a little above `k`.
    pub fn bounding_box(&self, low: Scalar, high: Scalar) -> (b: Option<AABB>)
        ensures
            b == Some(
                AABB {
                    minimum: Vec3 { x: low, y: self.y0, z: self.z0 },
                    maximum: Vec3 { x: high, y: self.y1, z: self.z1 },
                },
            ),
            self.y0.le_spec(self.y1) && self.z0.le_spec(self.z1) && low.le_spec(high) ==> b.unwrap().wf(),
    {
        Some(AABB::new(Vec3::new(low, self.y0, self.z0), Vec3::new(high, self.y1, self.z1)))
    }
}

/// One face of a cuboid.
#[derive(Clone, Copy, Debug)]
pub enum Side<M> {
    XY(XYRect<M>),
    XZ(XZRect<M>),
    YZ(YZRect<M>),
}

/// A box with faces parallel to the axes.
pub struct Cuboid<M> {
    pub box_min: Point3,
    pub box_max: Point3,
    pub sides: HittableList<Side<M>>,
}

impl<M: Copy> Cuboid<M> {
    /// The six faces of the cuboid between two corners: back and front,
    /// top and bottom, right and left.
    pub open spec fn faces(lo: Point3, hi: Point3, material: M) -> Seq<Side<M>> {
        seq![
            Side::XY(XYRect { x0: lo.x, x1: hi.x, y0: lo.y, y1: hi.y, k: hi.z, mp: material }),
            Side::XY(XYRect { x0: lo.x, x1: hi.x, y0: lo.y, y1: hi.y, k: lo.z, mp: material }),
            Side::XZ(XZRect { x0: lo.x, x1: hi.x, z0: lo.z, z1: hi.z, k: hi.y, mp: material }),
            Side::XZ(XZRect { x0: lo.x, x1: hi.x, z0: lo.z, z1: hi.z, k: lo.y, mp: material }),
            Side::YZ(YZRect { y0: lo.y, y1: hi.y, z0: lo.z, z1: hi.z, k: hi.x, mp: material }),
            Side::YZ(YZRect { y0: lo.y, y1: hi.y, z0: lo.z, z1: hi.z, k: lo.x, mp: material }),
        ]
    }

    /// The cuboid between two corners, all of whose faces have one
    /// material. The faces are listed without boxes of their own: the box of
    /// the cuboid stands for all of them.
    pub fn new(box_min: Point3, box_max: Point3, material: M) -> (c: Self)
        ensures
            c.box_min == box_min,
            c.box_max == box_max,
            c.sides.items() == Self::faces(box_min, box_max, material),
            forall|i: int| 0 <= i < 6 ==> (#[trigger] c.sides.list@[i]).bounds.is_none(),
    {
        let mut sides: HittableList<Side<M>> = HittableList::new();
        sides.add(
            Side::XY(XYRect::new(box_min.x, box_max.x, box_min.y, box_max.y, box_max.z, material)),
            None,
        );
        sides.add(
            Side::XY(XYRect::new(box_min.x, box_max.x, box_min.y, box_max.y, box_min.z, material)),
            None,
        );
        sides.add(
            Side::XZ(XZRect::new(box_min.x, box_max.x, box_min.z, box_max.z, box_max.y, material)),
            None,
        );
        sides.add(
            Side::XZ(XZRect::new(box_min.x, box_max.x, box_min.z, box_max.z, box_min.y, material)),
            None,
        );
        sides.add(
            Side::YZ(YZRect::new(box_min.y, box_max.y, box_min.z, box_max.z, box_max.x, material)),
            None,
        );
        sides.add(
            Side::YZ(YZRect::new(box_min.y, box_max.y, box_min.z, box_max.z, box_min.x, material)),
            None,
        );
        assert(sides.items() =~= Self::faces(box_min, box_max, material));
        Cuboid { sides, box_min, box_max }
    }

    /// The box of the cuboid: the box between its two corners.
    pub fn bounding_box(&self) -> (b: Option<AABB>)
        ensures
            b == Some(AABB { minimum: self.box_min, maximum: self.box_max }),
            self.box_min.x.le_spec(self.box_max.x) && self.box_min.y.le_spec(self.box_max.y)
                && self.box_min.z.le_spec(self.box_max.z) ==> b.unwrap().wf(),
    {
        Some(AABB::new(self.box_min, self.box_max))
    }
}

/// A meeting point that counts as a hit has a parameter between `t_min` and
/// `t_max` and lies between the edges of the rectangle.
pub proof fn lemma_accepted_hit_is_in_range(
    hit: PlaneHit,
    a0: Scalar,
    a1: Scalar,
    b0: Scalar,
    b1: Scalar,
    t_min: Scalar,
    t_max: Scalar,
)
    requires
        accepts(hit, a0, a1, b0, b1, t_min, t_max),
        !hit.t.nan() && !hit.a.nan() && !hit.b.nan(),
        !t_min.nan() && !t_max.nan(),
        !a0.nan() && !a1.nan() && !b0.nan() && !b1.nan(),
    ensures
        t_min.le_spec(hit.t) && hit.t.le_spec(t_max),
        a0.le_spec(hit.a) && hit.a.le_spec(a1),
        b0.le_spec(hit.b) && hit.b.le_spec(b1),
{
}

} // verus!
