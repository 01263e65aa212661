//! Vectors of three scalars and the names of their axes.

use vstd::prelude::*;
use crate::scalar::Scalar;

verus! {

/// The magnitude below which a component counts as zero: the bit pattern of
/// ten to the power of minus eight.
pub const NEAR_ZERO_BITS: u64 = 0x3e45_798e_e230_8c3a;

/// One of the three coordinate axes.
#[derive(Clone, Copy, Debug, PartialEq, Eq, Structural)]
pub enum Axis {
    X,
    Y,
    Z,
}

/// An ordered triple of scalars.
#[derive(Clone, Copy, Debug, PartialEq, Eq, Structural)]
pub struct Vec3 {
    pub x: Scalar,
    pub y: Scalar,
    pub z: Scalar,
}

/// A position in space.
pub type Point3 = Vec3;

/// A colour: red, green and blue in `x`, `y` and `z`.
pub type Color = Vec3;

impl Vec3 {
    /// The component along `axis`.
    pub open spec fn along(self, axis: Axis) -> Scalar {
        match axis {
            Axis::X => self.x,
            Axis::Y => self.y,
            Axis::Z => self.z,
        }
    }

    /// The component with the given number; every number above one names `z`.
    pub open spec fn axis_spec(self, axis: u32) -> Scalar {
        if axis == 0 {
            self.x
        } else if axis == 1 {
            self.y
        } else {
            self.z
        }
    }

    /// Whether any component is a NaN.
    pub open spec fn has_nan(self) -> bool {
        self.x.nan() || self.y.nan() || self.z.nan()
    }

    /// The vector with every sign flipped.
    pub open spec fn neg_spec(self) -> Vec3 {
        Vec3 { x: self.x.neg_spec(), y: self.y.neg_spec(), z: self.z.neg_spec() }
    }

    /// Every component is a number of magnitude below `NEAR_ZERO_BITS`.
    pub open spec fn near_zero_spec(self) -> bool {
        let s = Scalar { bits: NEAR_ZERO_BITS };
        self.x.abs_spec().lt_spec(s) && self.y.abs_spec().lt_spec(s) && self.z.abs_spec().lt_spec(s)
    }

    pub fn new(x: Scalar, y: Scalar, z: Scalar) -> (v: Vec3)
        ensures
            v == (Vec3 { x, y, z }),
    {
        Vec3 { x, y, z }
    }

    pub fn component(&self, axis: Axis) -> (s: Scalar)
        ensures
            s == self.along(axis),
    {
        match axis {
            Axis::X => self.x,
            Axis::Y => self.y,
            Axis::Z => self.z,
        }
    }

    pub fn get_axis(&self, axis: u32) -> (s: Scalar)
        ensures
            s == self.axis_spec(axis),
    {
        match axis {
            0 => self.x,
            1 => self.y,
            _ => self.z,
        }
    }

    pub fn neg(&self) -> (v: Vec3)
        ensures
            v == self.neg_spec(),
    {
        Vec3 { x: self.x.neg(), y: self.y.neg(), z: self.z.neg() }
    }

    pub fn is_near_zero(&self) -> (b: bool)
        ensures
            b == self.near_zero_spec(),
    {
        let s = Scalar::from_bits(NEAR_ZERO_BITS);
        self.x.abs().lt(s) && self.y.abs().lt(s) && self.z.abs().lt(s)
    }
}

} // verus!
