//! Surface and volume materials.
//!
//! Each material decides, from quantities that its caller has computed,
//! whether and where a ray goes on and how it is tinted.

pub mod dielectric;
pub mod diffuse_light;
pub mod isotropic;
pub mod lambertian;
pub mod metal;
pub mod textures;

use vstd::prelude::*;
use crate::base::Color;
use crate::scalar::Scalar;

verus! {

/// The colour that a material without light of its own emits.
pub fn black() -> (c: Color)
    ensures
        c.x.bits == 0,
        c.y.bits == 0,
        c.z.bits == 0,
{
    Color { x: Scalar::zero(), y: Scalar::zero(), z: Scalar::zero() }
}

/// No component of the colour is a NaN, below zero or above one.
pub open spec fn within_unit(c: Color) -> bool {
    let zero = Scalar { bits: 0 };
    let one = Scalar { bits: crate::scalar::ONE_BITS };
    &&& zero.le_spec(c.x) && c.x.le_spec(one)
    &&& zero.le_spec(c.y) && c.y.le_spec(one)
    &&& zero.le_spec(c.z) && c.z.le_spec(one)
}

} // verus!
