//! The material of a participating medium.

use vstd::prelude::*;
use crate::base::{Color, Point3, Vec3};
use crate::hit::hit_record::HitRecord;
use crate::materials::textures::{SolidColor, Texture};
use crate::materials::black;
use crate::ray::Ray;
use crate::scalar::Scalar;

verus! {

/// A medium that scatters equally in all directions.
pub struct Isotropic<T: Texture> {
    pub albedo: T,
}

impl<T: Texture> Isotropic<T> {
    pub fn new(albedo: T) -> (m: Self)
        ensures
            m.albedo == albedo,
    {
        Isotropic { albedo }
    }

    /// The surface emits no light: black, wherever it is asked.
    pub fn emitted(&self, u: Scalar, v: Scalar, p: &Point3) -> (c: Color)
        ensures
            c.x.bits == 0 && c.y.bits == 0 && c.z.bits == 0,
    {
        black()
    }

    /// Scatters a ray at `rec` into `direction`, a random point of the unit
    /// sphere. The ray always goes on; it is tinted by the texture at the
    /// hit.
    pub fn scatter<M>(&self, rec: &HitRecord<M>, direction: Vec3) -> (out: Option<(Color, Ray)>)
        ensures
            out == Some(
                (self.albedo.value_spec(rec.u, rec.v, rec.p), Ray { origin: rec.p, direction }),
            ),
    {
        Some((self.albedo.value(rec.u, rec.v, &rec.p), Ray::new(rec.p, direction)))
    }
}

impl Isotropic<SolidColor> {
    pub fn from_color(color: Color) -> (m: Self)
        ensures
            m.albedo.color_value == color,
    {
        Isotropic::new(SolidColor::new(color))
    }
}

} // verus!
