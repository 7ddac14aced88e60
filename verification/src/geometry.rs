//! Rectangles in pixel coordinates.

use vstd::prelude::*;

verus! {

/// An axis-aligned rectangle; the origin is the top-left corner of the image.
#[derive(Clone, Copy, Debug, PartialEq, Eq, Structural)]
pub struct Rect {
    pub x: u32,
    pub y: u32,
    pub width: u32,
    pub height: u32,
}

impl Rect {
    /// Both extents are positive.
    pub open spec fn has_area(self) -> bool {
        self.width > 0 && self.height > 0
    }

    /// The rectangle lies inside an image of the given size.
    pub open spec fn fits(self, width: nat, height: nat) -> bool {
        self.x + self.width <= width && self.y + self.height <= height
    }
}

} // verus!
