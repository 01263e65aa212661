//! Media of constant density.

use vstd::prelude::*;
use crate::base::{Color, Point3, Vec3};
use crate::hit::hit_record::HitRecord;
use crate::hit::rectangle::unit_x;
use crate::materials::isotropic::Isotropic;
use crate::materials::textures::{SolidColor, Texture};
use crate::scalar::Scalar;

verus! {

/// How far behind the point where a ray enters the boundary the search for
/// the point where it leaves begins: the bit pattern of one ten-thousandth.
pub const EXIT_GAP_BITS: u64 = 0x3f1a_36e2_eb1c_432d;

/// The gap between entering the boundary and looking for the way out.
pub fn exit_gap() -> (s: Scalar)
    ensures
        s.bits == EXIT_GAP_BITS,
{
    Scalar::from_bits(EXIT_GAP_BITS)
}

/// A medium of constant density inside a boundary.
pub struct ConstantMedium<H, T: Texture> {
    pub boundary: H,
    pub phase_function: Isotropic<T>,
    pub neg_inv_density: Scalar,
}

/// The part of a ray inside the boundary: the ray enters at `enter` and
/// leaves at `exit`.
#[derive(Clone, Copy, Debug, PartialEq, Eq, Structural)]
pub struct Segment {
    pub enter: Scalar,
    pub exit: Scalar,
}

/// The segment cut down to `[t_min, t_max]` and to the part in front of the
/// ray's origin; nothing when no part of it is left.
pub open spec fn clip_spec(segment: Segment, t_min: Scalar, t_max: Scalar) -> Option<Segment> {
    let enter = if segment.enter.lt_spec(t_min) {
        t_min
    } else {
        segment.enter
    };
    let exit = if t_max.lt_spec(segment.exit) {
        t_max
    } else {
        segment.exit
    };
    if exit.le_spec(enter) {
        None
    } else {
        Some(
            Segment {
                enter: if enter.lt_spec(Scalar { bits: 0 }) {
                    Scalar { bits: 0 }
                } else {
                    enter
                },
                exit,
            },
        )
    }
}

impl<H, T: Texture> ConstantMedium<H, T> {
    /// A medium inside `boundary`. `neg_inv_density` is minus one over the
    /// density.
    pub fn new(boundary: H, neg_inv_density: Scalar, texture: T) -> (m: Self)
        ensures
            m.boundary == boundary,
            m.neg_inv_density == neg_inv_density,
            m.phase_function.albedo == texture,
    {
        ConstantMedium { boundary, neg_inv_density, phase_function: Isotropic::new(texture) }
    }

    /// Cuts the part of the ray inside the boundary down to
    /// `[t_min, t_max]`.
    pub fn clip(segment: &Segment, t_min: Scalar, t_max: Scalar) -> (out: Option<Segment>)
        ensures
            out == clip_spec(*segment, t_min, t_max),
    {
        let mut enter = segment.enter;
        let mut exit = segment.exit;
        if enter.lt(t_min) {
            enter = t_min;
        }
        if t_max.lt(exit) {
            exit = t_max;
        }
        if exit.le(enter) {
            return None;
        }
        if enter.lt(Scalar::zero()) {
            enter = Scalar::zero();
        }
        Some(Segment { enter, exit })
    }

    /// The scattering event of a ray in the medium. `hit_distance` is the
    /// distance after which the ray is scattered, drawn at random, and
    /// `distance_inside` the length of its way through the medium. A ray that
    /// is scattered only beyond that way passes through. Otherwise it is
    /// scattered at parameter `t` and position `p`; the record names the
    /// phase function as the material, and its normal is arbitrary.
    pub fn hit<'a>(&'a self, hit_distance: Scalar, distance_inside: Scalar, t: Scalar, p: Point3) -> (rec:
        Option<HitRecord<&'a Isotropic<T>>>)
        ensures
            distance_inside.lt_spec(hit_distance) ==> rec.is_none(),
            !distance_inside.lt_spec(hit_distance) ==> rec == Some(
                HitRecord {
                    t,
                    u: Scalar { bits: 0 },
                    v: Scalar { bits: 0 },
                    p,
                    normal: unit_x(),
                    material: &self.phase_function,
                    front_face: true,
                },
            ),
    {
        if distance_inside.lt(hit_distance) {
            return None;
        }
        Some(
            HitRecord {
                t,
                u: Scalar::zero(),
                v: Scalar::zero(),
                p,
                normal: Vec3::new(Scalar::one(), Scalar::zero(), Scalar::zero()),
                material: &self.phase_function,
                front_face: true,
            },
        )
    }
}

impl<H> ConstantMedium<H, SolidColor> {
    /// A medium of one colour inside `boundary`. `neg_inv_density` is minus
    /// one over the density.
    pub fn new_from_color(boundary: H, neg_inv_density: Scalar, color: Color) -> (m: Self)
        ensures
            m.boundary == boundary,
            m.neg_inv_density == neg_inv_density,
            m.phase_function.albedo.color_value == color,
    {
        ConstantMedium { boundary, neg_inv_density, phase_function: Isotropic::from_color(color) }
    }
}

/// What is left of a segment ends no later than the segment and than
/// `t_max`, ends after the segment and `t_min` begin, and begins no earlier
/// than the ray: at zero, or at `t_min` or later.
pub proof fn lemma_clipped_segment(segment: Segment, t_min: Scalar, t_max: Scalar)
    requires
        !segment.enter.nan() && !segment.exit.nan(),
        !t_min.nan() && !t_max.nan(),
    ensures
        clip_spec(segment, t_min, t_max) matches Some(s) ==> {
            &&& s.exit.le_spec(t_max) && s.exit.le_spec(segment.exit)
            &&& segment.enter.lt_spec(s.exit) && t_min.lt_spec(s.exit)
            &&& (Scalar { bits: 0 }).le_spec(s.enter)
            &&& t_min.le_spec(s.enter) || s.enter.bits == 0
        },
{
}

} // verus!
