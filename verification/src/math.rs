//! Small geometric types.
use vstd::prelude::*;

verus! {

/// A pair of values, such as a position or a size in pixels.
#[derive(Debug)]
pub struct Vec2<T>(pub T, pub T);

/// A rectangle of pixels: its top left corner and its width and height.
#[derive(Debug)]
pub struct IntegerBounds {
    /// The top left corner.
    pub position: Vec2<i32>,
    /// The width (first) and height (second).
    pub size: Vec2<usize>,
}

} // verus!
