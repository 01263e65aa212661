//! The record of one intersection of a ray with a surface.

use vstd::prelude::*;
use crate::base::{Point3, Vec3};
use crate::scalar::Scalar;

verus! {

/// Where and how a ray met a surface.
///
/// `normal` is the surface normal turned against the incoming ray, and
/// `front_face` tells whether the outward normal already pointed that way.
/// `material` is whatever handle the caller uses to find the surface's
/// material again.
#[derive(Clone, Copy, Debug)]
pub struct HitRecord<M> {
    pub t: Scalar,
    pub u: Scalar,
    pub v: Scalar,
    pub p: Point3,
    pub normal: Vec3,
    pub material: M,
    pub front_face: bool,
}

impl<M> HitRecord<M> {
    /// The ray meets the front of the surface: the dot product of its
    /// direction with the outward normal is below zero.
    pub open spec fn front_spec(facing: Scalar) -> bool {
        facing.lt_spec(Scalar { bits: 0 })
    }

    /// The dot product of the ray's direction with the stored normal: the
    /// product with the outward normal, negated along with the normal when
    /// the ray meets the back of the surface.
    pub open spec fn stored_facing(facing: Scalar) -> Scalar {
        if Self::front_spec(facing) {
            facing
        } else {
            facing.neg_spec()
        }
    }

    /// The record of a hit whose outward normal makes the dot product
    /// `facing` with the ray's direction.
    pub open spec fn made(
        t: Scalar,
        u: Scalar,
        v: Scalar,
        point: Point3,
        material: M,
        facing: Scalar,
        outward_normal: Vec3,
    ) -> HitRecord<M> {
        HitRecord {
            t,
            u,
            v,
            p: point,
            normal: if Self::front_spec(facing) {
                outward_normal
            } else {
                outward_normal.neg_spec()
            },
            material,
            front_face: Self::front_spec(facing),
        }
    }

    /// Builds the record of a hit at parameter `t`, surface coordinates
    /// `(u, v)` and position `point`. `facing` is the dot product of the ray's
    /// direction with `outward_normal`; the record stores the normal that
    /// opposes the ray.
    pub fn new(
        t: Scalar,
        u: Scalar,
        v: Scalar,
        point: Point3,
        material: M,
        facing: Scalar,
        outward_normal: &Vec3,
    ) -> (rec: Self)
        ensures
            rec == Self::made(t, u, v, point, material, facing, *outward_normal),
    {
        let front_face = facing.lt(Scalar::zero());
        HitRecord {
            t,
            u,
            v,
            p: point,
            normal: if front_face {
                *outward_normal
            } else {
                outward_normal.neg()
            },
            material,
            front_face,
        }
    }
}

/// The stored normal never points along the ray: its dot product with the
/// ray's direction is not above zero, and it is below zero exactly when the
/// ray does not graze the surface.
pub proof fn lemma_normal_opposes_ray<M>(facing: Scalar)
    requires
        !facing.nan(),
    ensures
        HitRecord::<M>::stored_facing(facing).le_spec(Scalar { bits: 0 }),
        HitRecord::<M>::stored_facing(facing).lt_spec(Scalar { bits: 0 }) <==> facing.rank() != 0,
{
}

} // verus!
