//! Textures: colours as functions of surface coordinates and position.

use vstd::prelude::*;
use crate::base::{Color, Point3};
use crate::scalar::Scalar;

verus! {

/// A colour for every point of a surface.
pub trait Texture {
    /// The colour at surface coordinates `(u, v)` and position `p`.
    spec fn value_spec(&self, u: Scalar, v: Scalar, p: Point3) -> Color;

    fn value(&self, u: Scalar, v: Scalar, p: &Point3) -> (c: Color)
        ensures
            c == self.value_spec(u, v, *p),
    ;
}

/// The same colour everywhere.
#[derive(Clone, Copy, Debug, PartialEq, Eq, Structural)]
pub struct SolidColor {
    pub color_value: Color,
}

impl SolidColor {
    pub fn new(color: Color) -> (s: SolidColor)
        ensures
            s.color_value == color,
    {
        SolidColor { color_value: color }
    }
}

impl Texture for SolidColor {
    open spec fn value_spec(&self, u: Scalar, v: Scalar, p: Point3) -> Color {
        self.color_value
    }

    fn value(&self, u: Scalar, v: Scalar, p: &Point3) -> (c: Color) {
        self.color_value
    }
}

} // verus!
