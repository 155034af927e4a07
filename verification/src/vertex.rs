//! An integer point on the pixel grid, used as a rasterization coordinate.

use vstd::prelude::*;

verus! {

/// A point on the pixel plane. Coordinates are unsigned: the plane's origin
/// is its top-left corner and clipping happens before rasterization.
#[derive(Clone, Copy, PartialEq, Eq, Structural)]
pub struct Vertex {
    pub x: usize,
    pub y: usize,
}

impl Vertex {
    pub fn new(x: usize, y: usize) -> (v: Vertex)
        ensures
            v.x == x,
            v.y == y,
    {
        Vertex { x, y }
    }

    /// Both coordinates fit in 32 bits, which keeps the rasterizer's
    /// intermediate products inside 128-bit arithmetic.
    pub open spec fn bounded(self) -> bool {
        self.x <= u32::MAX && self.y <= u32::MAX
    }
}

} // verus!
