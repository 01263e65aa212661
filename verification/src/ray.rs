//! Rays: a starting point and a direction of travel.

use vstd::prelude::*;
use crate::base::{Point3, Vec3};

verus! {

/// The half line `origin + t * direction`. The direction need not have unit
/// length and may have zero components.
#[derive(Clone, Copy, Debug, PartialEq, Eq, Structural)]
pub struct Ray {
    pub origin: Point3,
    pub direction: Vec3,
}

impl Ray {
    pub fn new(origin: Point3, direction: Vec3) -> (r: Ray)
        ensures
            r.origin == origin,
            r.direction == direction,
    {
        Ray { origin, direction }
    }
}

} // verus!
