//! A pair of coordinates.

use crate::fixed::{clamp, clamped, div_toward_zero, toward_zero, STEPS};
use vstd::prelude::*;

verus! {

/// A point or an extent in two dimensions.
#[derive(Copy, Clone, Debug, Default, PartialEq)]
pub struct Vec2<T> {
    pub x: T,
    pub y: T,
}

impl<T> Vec2<T> {
    pub fn new(x: T, y: T) -> (v: Self)
        ensures
            v.x == x,
            v.y == y,
    {
        Self { x, y }
    }
}

/// The whole pixel that a coordinate in thousandths of a pixel lies in: the
/// coordinate without its fraction, and no less than zero nor more than a
/// `u32` holds.
pub open spec fn whole_pixel(coordinate: int) -> int {
    clamped(toward_zero(coordinate, STEPS as int), 0, u32::MAX as int)
}

impl Vec2<i64> {
    /// The pixel that a point in thousandths of a pixel lies in.
    pub fn as_u32(&self) -> (pixel: Vec2<u32>)
        ensures
            pixel.x == whole_pixel(self.x as int),
            pixel.y == whole_pixel(self.y as int),
    {
        let x = clamp(div_toward_zero(self.x as i128, STEPS), 0, u32::MAX as i64);
        let y = clamp(div_toward_zero(self.y as i128, STEPS), 0, u32::MAX as i64);
        Vec2 { x: x as u32, y: y as u32 }
    }
}

} // verus!
