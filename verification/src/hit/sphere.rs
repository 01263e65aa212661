//! Spheres.

use vstd::prelude::*;
use crate::base::{Point3, Vec3};
use crate::hit::hit_record::HitRecord;
use crate::scalar::Scalar;

verus! {

/// A sphere around `center`.
#[derive(Clone, Copy, Debug)]
pub struct Sphere<M> {
    pub center: Point3,
    pub radius: Scalar,
    pub material: M,
}

/// The solutions of the quadratic equation for the parameters at which a
/// ray meets a sphere, as the caller computed them: the discriminant and the
/// two roots, which are numbers only when the discriminant is not below
/// zero.
#[derive(Clone, Copy, Debug, PartialEq, Eq, Structural)]
pub struct Roots {
    pub discriminant: Scalar,
    pub near: Scalar,
    pub far: Scalar,
}

/// The parameter is a number strictly between `t_min` and `t_max`.
pub open spec fn in_range(t: Scalar, t_min: Scalar, t_max: Scalar) -> bool {
    t_min.lt_spec(t) && t.lt_spec(t_max)
}

/// The root at which the ray hits the sphere: none when the discriminant is
/// below zero; else the nearer root when it is in range; else the farther
/// root when that is in range.
pub open spec fn select_root_spec(roots: Roots, t_min: Scalar, t_max: Scalar) -> Option<Scalar> {
    if roots.discriminant.lt_spec(Scalar { bits: 0 }) {
        None
    } else if in_range(roots.near, t_min, t_max) {
        Some(roots.near)
    } else if in_range(roots.far, t_min, t_max) {
        Some(roots.far)
    } else {
        None
    }
}

impl<M: Copy> Sphere<M> {
    pub fn new(center: Point3, radius: Scalar, material: M) -> (s: Self)
        ensures
            s.center == center,
            s.radius == radius,
            s.material == material,
    {
        Sphere { center, radius, material }
    }

    /// Chooses the root at which a ray hits the sphere strictly within
    /// `(t_min, t_max)`.
    pub fn select_root(roots: &Roots, t_min: Scalar, t_max: Scalar) -> (root: Option<Scalar>)
        ensures
            root == select_root_spec(*roots, t_min, t_max),
    {
        if roots.discriminant.lt(Scalar::zero()) {
            return None;
        }
        let mut root = roots.near;
        if !(t_min.lt(root) && root.lt(t_max)) {
            root = roots.far;
            if !(t_min.lt(root) && root.lt(t_max)) {
                return None;
            }
        }
        Some(root)
    }

    /// The record of a hit on this sphere at parameter `t`, surface
    /// coordinates `(u, v)` and position `p`, where the outward normal makes
    /// the dot product `facing` with the ray's direction.
    pub fn record(
        &self,
        t: Scalar,
        u: Scalar,
        v: Scalar,
        p: Point3,
        facing: Scalar,
        outward_normal: &Vec3,
    ) -> (rec: HitRecord<M>)
        ensures
            rec == HitRecord::made(t, u, v, p, self.material, facing, *outward_normal),
    {
        HitRecord::new(t, u, v, p, self.material, facing, outward_normal)
    }
}

/// The chosen root is a number strictly between `t_min` and `t_max`; it is
/// the nearer root whenever that one is in range, and nothing is chosen only
/// when the discriminant is below zero or neither root is in range.
pub proof fn lemma_selected_root(roots: Roots, t_min: Scalar, t_max: Scalar)
    ensures
        select_root_spec(roots, t_min, t_max) matches Some(t) ==> t_min.lt_spec(t) && t.lt_spec(t_max)
            && !t.nan() && (t == roots.near || t == roots.far),
        in_range(roots.near, t_min, t_max) && !roots.discriminant.lt_spec(Scalar { bits: 0 })
            ==> select_root_spec(roots, t_min, t_max) == Some(roots.near),
        select_root_spec(roots, t_min, t_max) is None <==> roots.discriminant.lt_spec(Scalar { bits: 0 })
            || (!in_range(roots.near, t_min, t_max) && !in_range(roots.far, t_min, t_max)),
{
}

} // verus!
