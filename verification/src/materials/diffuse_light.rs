//! The light-emitting material.

use vstd::prelude::*;
use crate::base::{Color, Point3};
use crate::materials::textures::{SolidColor, Texture};
use crate::ray::Ray;
use crate::scalar::Scalar;

verus! {

/// A surface that emits light and scatters none.
pub struct DiffuseLight<T: Texture> {
    pub emit: T,
}

impl<T: Texture> DiffuseLight<T> {
    pub fn new(emit: T) -> (m: Self)
        ensures
            m.emit == emit,
    {
        DiffuseLight { emit }
    }

    /// A light absorbs every ray that reaches it.
    pub fn scatter(&self) -> (out: Option<(Color, Ray)>)
        ensures
            out.is_none(),
    {
        None
    }

    /// The light emitted at surface coordinates `(u, v)` and position `p`.
    pub fn emitted(&self, u: Scalar, v: Scalar, p: &Point3) -> (c: Color)
        ensures
            c == self.emit.value_spec(u, v, *p),
    {
        self.emit.value(u, v, p)
    }
}

impl DiffuseLight<SolidColor> {
    pub fn from_color(color: Color) -> (m: Self)
        ensures
            m.emit.color_value == color,
    {
        DiffuseLight::new(SolidColor::new(color))
    }
}

} // verus!
