//! Geometric primitives shared by the detection post-processing steps.

pub mod ops;
pub mod ssd_anchors_generator;

use vstd::prelude::*;
use crate::fixed::{Fixed, fx_add, fx_mul, fx_div};
use crate::postprocess::ssd_anchors_generator::Anchor;

verus! {

/// A 2-D point.
#[derive(Clone, Copy, Debug, PartialEq, Eq, Structural)]
pub struct Pointer2D<T> {
    pub x: T,
    pub y: T,
}

/// An axis-aligned box: top-left corner plus width and height.
#[derive(Clone, Copy, Debug, PartialEq, Eq, Structural)]
pub struct Box2D<T> {
    pub p: Pointer2D<T>,
    pub w: T,
    pub h: T,
}

/// Decode one regressed coordinate against an anchor: scale the raw value
/// down by the training dimension, stretch by the anchor extent and shift to
/// the anchor center.
pub open spec fn spec_transform_coord(v: int, scale: int, extent: int, center: int) -> int {
    fx_add(fx_mul(fx_div(v, scale), extent), center)
}

impl Pointer2D<Fixed> {
    /// Map a raw regressed point into image coordinates relative to `anchor`.
    pub fn transform_with_anchor(self, anchor: &Anchor, x_scale: Fixed, y_scale: Fixed) -> (r:
        Self)
        ensures
            r.x@ == spec_transform_coord(self.x@, x_scale@, anchor.w@, anchor.x_center@),
            r.y@ == spec_transform_coord(self.y@, y_scale@, anchor.h@, anchor.y_center@),
    {
        Pointer2D {
            x: self.x.div(x_scale).mul(anchor.w).add(anchor.x_center),
            y: self.y.div(y_scale).mul(anchor.h).add(anchor.y_center),
        }
    }
}

impl<T: Copy> Box2D<T> {
    /// Gather a box from a strided slice: `x` at index 0, `y` at `stride`,
    /// width at `2 * stride` and height at `3 * stride`.
    pub fn from(slice: &[T], stride: usize) -> (r: Self)
        requires
            3 * stride < slice@.len(),
        ensures
            r.p.x == slice@[0],
            r.p.y == slice@[1 * stride],
            r.w == slice@[2 * stride],
            r.h == slice@[3 * stride],
    {
        Box2D {
            p: Pointer2D { x: slice[0], y: slice[1 * stride] },
            w: slice[2 * stride],
            h: slice[3 * stride],
        }
    }
}

} // verus!
