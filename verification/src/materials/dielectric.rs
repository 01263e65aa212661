//! The transparent material.

use vstd::prelude::*;
use crate::base::{Color, Point3, Vec3};
use crate::hit::hit_record::HitRecord;
use crate::materials::black;
use crate::ray::Ray;
use crate::scalar::{Scalar, ONE_BITS};

verus! {

/// Glass and the like, with index of refraction `ir`.
#[derive(Clone, Copy, Debug, PartialEq, Eq, Structural)]
pub struct Dielectric {
    pub ir: Scalar,
}

/// The chance of reflection at the surface of a dielectric.
#[derive(Clone, Copy, Debug, PartialEq, Eq, Structural)]
pub struct Chance {
    /// The share of the light that the surface reflects at this angle.
    pub reflectance: Scalar,
    /// A uniform random draw from the unit interval.
    pub draw: Scalar,
}

/// What a ray does at the surface of a dielectric, as its caller computed
/// it.
#[derive(Clone, Copy, Debug, PartialEq, Eq, Structural)]
pub struct Incidence {
    /// The ratio of the refraction indices times the sine of the angle of
    /// incidence. Above one there is no refracted ray.
    pub ratio_sin: Scalar,
    /// The direction of the reflected ray.
    pub reflected: Vec3,
    /// The direction of the refracted ray.
    pub refracted: Vec3,
    /// The chance of reflection. It matters only for a ray that can be
    /// refracted, so no draw need be made for any other.
    pub chance: Option<Chance>,
}

impl Dielectric {
    /// There is no refracted ray: total internal reflection.
    pub open spec fn total_reflection(ratio_sin: Scalar) -> bool {
        (Scalar { bits: ONE_BITS }).lt_spec(ratio_sin)
    }

    /// The ray is reflected: it cannot be refracted, or the draw fell below
    /// the reflectance.
    pub open spec fn reflects(i: Incidence) -> bool {
        Self::total_reflection(i.ratio_sin) || (i.chance matches Some(c) && c.draw.lt_spec(c.reflectance))
    }

    /// Whether a ray with this ratio times sine cannot be refracted. Only
    /// when it can is a draw needed to decide between the two rays.
    pub fn cannot_refract(ratio_sin: Scalar) -> (b: bool)
        ensures
            b == Self::total_reflection(ratio_sin),
    {
        Scalar::one().lt(ratio_sin)
    }

    pub fn new(ir: Scalar) -> (m: Dielectric)
        ensures
            m.ir == ir,
    {
        Dielectric { ir }
    }

    /// The ratio of the refraction indices for a ray that meets the front of
    /// the surface (`inverse`, one over the index) or its back (the index).
    pub fn refraction_ratio(&self, front_face: bool, inverse: Scalar) -> (ratio: Scalar)
        ensures
            ratio == if front_face {
                inverse
            } else {
                self.ir
            },
    {
        if front_face {
            inverse
        } else {
            self.ir
        }
    }

    /// The surface emits no light: black, wherever it is asked.
    pub fn emitted(&self, u: Scalar, v: Scalar, p: &Point3) -> (c: Color)
        ensures
            c.x.bits == 0 && c.y.bits == 0 && c.z.bits == 0,
    {
        black()
    }

    /// Scatters a ray at `rec`. The ray always goes on, untinted: reflected
    /// under total internal reflection or when the draw fell below the
    /// reflectance, refracted otherwise.
    pub fn scatter<M>(&self, rec: &HitRecord<M>, incidence: &Incidence) -> (out: Option<(Color, Ray)>)
        ensures
            out == Some(
                (
                    Color {
                        x: Scalar { bits: ONE_BITS },
                        y: Scalar { bits: ONE_BITS },
                        z: Scalar { bits: ONE_BITS },
                    },
                    Ray {
                        origin: rec.p,
                        direction: if Self::reflects(*incidence) {
                            incidence.reflected
                        } else {
                            incidence.refracted
                        },
                    },
                ),
            ),
    {
        let drawn = match incidence.chance {
            Some(c) => c.draw.lt(c.reflectance),
            None => false,
        };
        let direction = if Self::cannot_refract(incidence.ratio_sin) || drawn {
            incidence.reflected
        } else {
            incidence.refracted
        };
        Some((Color { x: Scalar::one(), y: Scalar::one(), z: Scalar::one() }, Ray::new(rec.p, direction)))
    }
}

} // verus!
