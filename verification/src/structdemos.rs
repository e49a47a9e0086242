//! Rectangles with their area and containment test.
use vstd::prelude::*;

verus! {

/// A rectangle by width and height.
pub struct Rect {
    pub width: u32,
    pub height: u32,
}

impl Rect {
    /// Width times height; the product must fit in 32 bits.
    pub fn area(self) -> (a: u32)
        requires
            self.width * self.height <= u32::MAX,
        ensures
            a == self.width * self.height,
    {
        self.width * self.height
    }

    /// Whether the width is nonzero.
    pub fn width(&self) -> (b: bool)
        ensures
            b == (self.width > 0),
    {
        self.width > 0
    }

    /// Whether `other` fits strictly inside this rectangle.
    pub fn can_hold(&self, other: &Rect) -> (b: bool)
        ensures
            b == (self.width > other.width && self.height > other.height),
    {
        self.width > other.width && self.height > other.height
    }

    /// The square with the given side.
    pub fn square(size: u32) -> (r: Self)
        ensures
            r.width == size,
            r.height == size,
    {
        Self { width: size, height: size }
    }
}

} // verus!
