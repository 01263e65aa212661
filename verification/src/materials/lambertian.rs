//! The diffuse material.

use vstd::prelude::*;
use crate::base::{Color, Point3, Vec3};
use crate::hit::hit_record::HitRecord;
use crate::materials::textures::{SolidColor, Texture};
use crate::materials::{black, within_unit};
use crate::scalar::Scalar;
use crate::ray::Ray;

verus! {

/// A perfectly diffuse surface, tinted by a texture.
pub struct Lambertian<T: Texture> {
    pub albedo: T,
}

impl<T: Texture> Lambertian<T> {
    /// The direction in which a ray leaves: the candidate, unless it is
    /// near zero, in which case the ray leaves along the normal.
    pub open spec fn direction_spec(normal: Vec3, candidate: Vec3) -> Vec3 {
        if candidate.near_zero_spec() {
            normal
        } else {
            candidate
        }
    }

    pub fn new(albedo: T) -> (m: Self)
        ensures
            m.albedo == albedo,
    {
        Lambertian { albedo }
    }

    /// The surface emits no light: black, wherever it is asked.
    pub fn emitted(&self, u: Scalar, v: Scalar, p: &Point3) -> (c: Color)
        ensures
            c.x.bits == 0 && c.y.bits == 0 && c.z.bits == 0,
    {
        black()
    }

    /// Scatters a ray at `rec`. `candidate` is the surface normal plus a
    /// random unit vector. The ray always goes on; it is tinted by the
    /// texture at the hit.
    pub fn scatter<M>(&self, rec: &HitRecord<M>, candidate: Vec3) -> (out: Option<(Color, Ray)>)
        ensures
            out == Some(
                (
                    self.albedo.value_spec(rec.u, rec.v, rec.p),
                    Ray { origin: rec.p, direction: Self::direction_spec(rec.normal, candidate) },
                ),
            ),
    {
        let attenuation = self.albedo.value(rec.u, rec.v, &rec.p);
        if candidate.is_near_zero() {
            Some((attenuation, Ray::new(rec.p, rec.normal)))
        } else {
            Some((attenuation, Ray::new(rec.p, candidate)))
        }
    }
}

impl Lambertian<SolidColor> {
    pub fn from_color(color: Color) -> (m: Self)
        ensures
            m.albedo.color_value == color,
    {
        Lambertian::new(SolidColor::new(color))
    }
}

/// A diffuse surface of one colour tints by that colour, so the tint stays
/// within the unit range when the colour does.
pub proof fn lemma_solid_tint_is_the_color(m: Lambertian<SolidColor>, u: crate::scalar::Scalar, v: crate::scalar::Scalar, p: Vec3)
    ensures
        m.albedo.value_spec(u, v, p) == m.albedo.color_value,
        within_unit(m.albedo.color_value) ==> within_unit(m.albedo.value_spec(u, v, p)),
{
}

} // verus!
