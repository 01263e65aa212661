//! Axis-aligned bounding boxes.
//!
//! A box is a pair of corners. The module unites boxes, names the longest
//! axis of an extent and decides the slab test from the parameters at which a
//! ray crosses the three pairs of planes.

use vstd::prelude::*;
use crate::base::{Axis, Point3, Vec3};
use crate::scalar::Scalar;

verus! {

/// A box given by its smallest and its largest corner.
#[derive(Clone, Copy, Debug, PartialEq, Eq, Structural)]
pub struct AABB {
    pub minimum: Point3,
    pub maximum: Point3,
}

/// Where a ray meets the two planes that bound a box along one axis.
///
/// `t0` is the ray parameter at the plane through the smallest corner and
/// `t1` the one at the plane through the largest corner; `inv_d` is the
/// reciprocal of the ray's direction along the axis, an infinity when the ray
/// runs parallel to the planes.
#[derive(Clone, Copy, Debug, PartialEq, Eq, Structural)]
pub struct Crossing {
    pub inv_d: Scalar,
    pub t0: Scalar,
    pub t1: Scalar,
}

/// An interval of ray parameters.
#[derive(Clone, Copy, Debug, PartialEq, Eq, Structural)]
pub struct Span {
    pub t_min: Scalar,
    pub t_max: Scalar,
}

impl Crossing {
    /// The parameter at which the ray enters the slab.
    pub open spec fn entry(self) -> Scalar {
        if self.inv_d.lt_spec(Scalar { bits: 0 }) {
            self.t1
        } else {
            self.t0
        }
    }

    /// The parameter at which the ray leaves the slab.
    pub open spec fn exit(self) -> Scalar {
        if self.inv_d.lt_spec(Scalar { bits: 0 }) {
            self.t0
        } else {
            self.t1
        }
    }
}

impl Span {
    /// The span cut down to the part that lies inside the slab.
    pub open spec fn narrow(self, c: Crossing) -> Span {
        Span {
            t_min: if self.t_min.lt_spec(c.entry()) {
                c.entry()
            } else {
                self.t_min
            },
            t_max: if c.exit().lt_spec(self.t_max) {
                c.exit()
            } else {
                self.t_max
            },
        }
    }

    /// The span has collapsed: its end is a number not above its start.
    pub open spec fn inverted(self) -> bool {
        self.t_max.le_spec(self.t_min)
    }
}

impl AABB {
    /// The corners are numbers and no coordinate of the smallest corner lies
    /// above that of the largest.
    pub open spec fn wf(self) -> bool {
        &&& self.minimum.x.le_spec(self.maximum.x)
        &&& self.minimum.y.le_spec(self.maximum.y)
        &&& self.minimum.z.le_spec(self.maximum.z)
    }

    /// Every point of `inner` is a point of `self`.
    pub open spec fn encloses(self, inner: AABB) -> bool {
        &&& self.minimum.x.le_spec(inner.minimum.x)
        &&& self.minimum.y.le_spec(inner.minimum.y)
        &&& self.minimum.z.le_spec(inner.minimum.z)
        &&& inner.maximum.x.le_spec(self.maximum.x)
        &&& inner.maximum.y.le_spec(self.maximum.y)
        &&& inner.maximum.z.le_spec(self.maximum.z)
    }

    /// The box whose corners are the componentwise minimum of the smallest
    /// corners and the componentwise maximum of the largest.
    pub open spec fn union_spec(a: AABB, b: AABB) -> AABB {
        AABB {
            minimum: Vec3 {
                x: a.minimum.x.min_spec(b.minimum.x),
                y: a.minimum.y.min_spec(b.minimum.y),
                z: a.minimum.z.min_spec(b.minimum.z),
            },
            maximum: Vec3 {
                x: a.maximum.x.max_spec(b.maximum.x),
                y: a.maximum.y.max_spec(b.maximum.y),
                z: a.maximum.z.max_spec(b.maximum.z),
            },
        }
    }

    /// The slab test: the span is narrowed by the crossings of the x, y and z
    /// slabs in turn, and the ray misses as soon as the span inverts.
    pub open spec fn hit_spec(x: Crossing, y: Crossing, z: Crossing, span: Span) -> bool {
        let sx = span.narrow(x);
        let sy = sx.narrow(y);
        let sz = sy.narrow(z);
        !sx.inverted() && !sy.inverted() && !sz.inverted()
    }

    /// The axis of the largest absolute extent; of equal extents the earlier
    /// axis wins.
    pub open spec fn longest_axis_spec(extent: Vec3) -> Axis {
        let dx = extent.x.abs_spec();
        let dy = extent.y.abs_spec();
        let dz = extent.z.abs_spec();
        if dy.le_spec(dx) && dz.le_spec(dx) {
            Axis::X
        } else if dz.le_spec(dy) {
            Axis::Y
        } else {
            Axis::Z
        }
    }

    /// The box between two corners, taken as they are. It is well formed
    /// exactly when the corners are numbers in order; `checked` refuses
    /// corners that are not.
    pub fn new(minimum: Point3, maximum: Point3) -> (b: AABB)
        ensures
            b.minimum == minimum,
            b.maximum == maximum,
            b.wf() <==> minimum.x.le_spec(maximum.x) && minimum.y.le_spec(maximum.y) && minimum.z.le_spec(
                maximum.z,
            ),
    {
        AABB { minimum, maximum }
    }

    /// The box between two corners, if they are numbers in order: no
    /// coordinate of `minimum` above that of `maximum`.
    pub fn checked(minimum: Point3, maximum: Point3) -> (b: Option<AABB>)
        ensures
            b.is_some() <==> (AABB { minimum, maximum }).wf(),
            b matches Some(bx) ==> bx.minimum == minimum && bx.maximum == maximum && bx.wf(),
    {
        if minimum.x.le(maximum.x) && minimum.y.le(maximum.y) && minimum.z.le(maximum.z) {
            Some(AABB { minimum, maximum })
        } else {
            None
        }
    }

    /// Whether the corners are numbers in order.
    pub fn is_wf(&self) -> (b: bool)
        ensures
            b == self.wf(),
    {
        self.minimum.x.le(self.maximum.x) && self.minimum.y.le(self.maximum.y) && self.minimum.z.le(
            self.maximum.z,
        )
    }

    pub fn min(&self) -> (p: Point3)
        ensures
            p == self.minimum,
    {
        self.minimum
    }

    pub fn max(&self) -> (p: Point3)
        ensures
            p == self.maximum,
    {
        self.maximum
    }

    /// Decides whether a ray passes through the box within `(t_min, t_max)`,
    /// given its crossings with the three slabs of the box.
    pub fn hit(x: &Crossing, y: &Crossing, z: &Crossing, t_min: Scalar, t_max: Scalar) -> (b: bool)
        ensures
            b == Self::hit_spec(*x, *y, *z, Span { t_min, t_max }),
    {
        let sx = Self::narrow(x, Span { t_min, t_max });
        if sx.t_max.le(sx.t_min) {
            return false;
        }
        let sy = Self::narrow(y, sx);
        if sy.t_max.le(sy.t_min) {
            return false;
        }
        let sz = Self::narrow(z, sy);
        !sz.t_max.le(sz.t_min)
    }

    fn narrow(c: &Crossing, span: Span) -> (s: Span)
        ensures
            s == span.narrow(*c),
    {
        let swap = c.inv_d.lt(Scalar::zero());
        let t0 = if swap {
            c.t1
        } else {
            c.t0
        };
        let t1 = if swap {
            c.t0
        } else {
            c.t1
        };
        Span {
            t_min: if span.t_min.lt(t0) {
                t0
            } else {
                span.t_min
            },
            t_max: if t1.lt(span.t_max) {
                t1
            } else {
                span.t_max
            },
        }
    }

    /// The tightest box around two boxes. Around two well-formed boxes it is
    /// well formed and encloses both.
    pub fn surrounding_box(box0: &AABB, box1: &AABB) -> (b: AABB)
        ensures
            b == Self::union_spec(*box0, *box1),
            box0.wf() && box1.wf() ==> b.wf() && b.encloses(*box0) && b.encloses(*box1),
    {
        let small = Vec3::new(
            box0.minimum.x.min(box1.minimum.x),
            box0.minimum.y.min(box1.minimum.y),
            box0.minimum.z.min(box1.minimum.z),
        );
        let big = Vec3::new(
            box0.maximum.x.max(box1.maximum.x),
            box0.maximum.y.max(box1.maximum.y),
            box0.maximum.z.max(box1.maximum.z),
        );
        AABB::new(small, big)
    }

    /// Names the longest axis of a box whose extent, largest corner minus
    /// smallest corner, is `extent`.
    pub fn longest_axis(extent: &Vec3) -> (axis: Axis)
        ensures
            axis == Self::longest_axis_spec(*extent),
    {
        let dx = extent.x.abs();
        let dy = extent.y.abs();
        let dz = extent.z.abs();
        if dy.le(dx) && dz.le(dx) {
            Axis::X
        } else if dz.le(dy) {
            Axis::Y
        } else {
            Axis::Z
        }
    }
}

/// The union of two well-formed boxes is well formed, encloses both, and is
/// enclosed by every box that encloses both.
pub proof fn lemma_union_is_tightest(a: AABB, b: AABB, other: AABB)
    requires
        a.wf(),
        b.wf(),
    ensures
        AABB::union_spec(a, b).wf(),
        AABB::union_spec(a, b).encloses(a),
        AABB::union_spec(a, b).encloses(b),
        other.encloses(a) && other.encloses(b) ==> other.encloses(AABB::union_spec(a, b)),
{
}

/// A box whose corners are numbers in order is well formed.
pub proof fn lemma_ordered_corners_are_wf(b: AABB)
    requires
        !b.minimum.has_nan(),
        !b.maximum.has_nan(),
        b.minimum.x.rank() <= b.maximum.x.rank(),
        b.minimum.y.rank() <= b.maximum.y.rank(),
        b.minimum.z.rank() <= b.maximum.z.rank(),
    ensures
        b.wf(),
{
}

/// Enclosure is reflexive on well-formed boxes and transitive.
pub proof fn lemma_encloses_order(a: AABB, b: AABB, c: AABB)
    ensures
        a.wf() ==> a.encloses(a),
        a.encloses(b) && b.encloses(c) ==> a.encloses(c),
{
}

/// A ray is inside a slab at the start of the span when it has entered the
/// slab by then and leaves it only later.
pub open spec fn brackets(c: Crossing, start: Scalar) -> bool {
    c.entry().le_spec(start) && start.lt_spec(c.exit())
}

/// A ray that starts inside all three slabs hits the box over every span
/// that begins at the start and has a later end.
pub proof fn lemma_hit_from_inside(x: Crossing, y: Crossing, z: Crossing, span: Span)
    requires
        span.t_min.lt_spec(span.t_max),
        brackets(x, span.t_min),
        brackets(y, span.t_min),
        brackets(z, span.t_min),
    ensures
        AABB::hit_spec(x, y, z, span),
{
}

/// A ray misses the box when along some axis it leaves the slab no later
/// than it enters it, as a ray does that runs parallel to the slab outside:
/// both its crossings are then the same infinity.
pub proof fn lemma_miss_when_slab_is_empty(x: Crossing, y: Crossing, z: Crossing, span: Span)
    requires
        !span.t_min.nan(),
        !span.t_max.nan(),
        x.exit().le_spec(x.entry()) || y.exit().le_spec(y.entry()) || z.exit().le_spec(
            z.entry(),
        ),
    ensures
        !AABB::hit_spec(x, y, z, span),
{
}

/// The longest axis has an absolute extent that no other axis exceeds.
pub proof fn lemma_longest_axis_is_longest(extent: Vec3, other: Axis)
    requires
        !extent.has_nan(),
    ensures
        extent.along(other).abs_spec().le_spec(
            extent.along(AABB::longest_axis_spec(extent)).abs_spec(),
        ),
{
}

} // verus!
