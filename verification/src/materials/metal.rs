//! The reflecting material.

use vstd::prelude::*;
use crate::base::{Color, Point3, Vec3};
use crate::hit::hit_record::HitRecord;
use crate::materials::{black, within_unit};
use crate::ray::Ray;
use crate::scalar::{Scalar, ONE_BITS};

verus! {

/// A mirror of a given colour, blurred by `fuzz`.
#[derive(Clone, Copy, Debug, PartialEq, Eq, Structural)]
pub struct Metal {
    pub albedo: Color,
    pub fuzz: Scalar,
}

impl Metal {
    /// The fuzz that a mirror keeps of the one it is given: the given one
    /// when that is a number below one, and one otherwise.
    pub open spec fn fuzz_spec(fuzz: Scalar) -> Scalar {
        if fuzz.lt_spec(Scalar { bits: ONE_BITS }) {
            fuzz
        } else {
            Scalar { bits: ONE_BITS }
        }
    }

    pub fn new(albedo: Color, fuzz: Scalar) -> (m: Metal)
        ensures
            m.albedo == albedo,
            m.fuzz == Self::fuzz_spec(fuzz),
            !m.fuzz.nan(),
            m.fuzz.le_spec(Scalar { bits: ONE_BITS }),
    {
        Metal {
            albedo,
            fuzz: if fuzz.lt(Scalar::one()) {
                fuzz
            } else {
                Scalar::one()
            },
        }
    }

    /// The surface emits no light: black, wherever it is asked.
    pub fn emitted(&self, u: Scalar, v: Scalar, p: &Point3) -> (c: Color)
        ensures
            c.x.bits == 0 && c.y.bits == 0 && c.z.bits == 0,
    {
        black()
    }

    /// Scatters a ray at `rec`. `direction` is the mirrored direction plus
    /// the fuzz times a random point of the unit sphere, and `facing` its dot
    /// product with the normal at the hit. The ray is absorbed exactly when
    /// it points into the surface, when `facing` is below zero; otherwise it
    /// goes on, tinted by the mirror's colour.
    pub fn scatter<M>(&self, rec: &HitRecord<M>, direction: Vec3, facing: Scalar) -> (out: Option<
        (Color, Ray),
    >)
        ensures
            facing.lt_spec(Scalar { bits: 0 }) ==> out.is_none(),
            !facing.lt_spec(Scalar { bits: 0 }) ==> out == Some(
                (self.albedo, Ray { origin: rec.p, direction }),
            ),
    {
        if facing.lt(Scalar::zero()) {
            None
        } else {
            Some((self.albedo, Ray::new(rec.p, direction)))
        }
    }
}

/// A mirror tints by its colour, so the tint stays within the unit range
/// when the colour does.
pub proof fn lemma_mirror_tint_is_the_color<M>(
    m: Metal,
    rec: HitRecord<M>,
    direction: Vec3,
    facing: Scalar,
    out: Option<(Color, Ray)>,
)
    requires
        !facing.lt_spec(Scalar { bits: 0 }),
        out == Some((m.albedo, Ray { origin: rec.p, direction })),
        within_unit(m.albedo),
    ensures
        within_unit(out.unwrap().0),
{
}

} // verus!
