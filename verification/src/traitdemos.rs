//! A point generic over the types of its two coordinates.
use vstd::prelude::*;

verus! {

/// A point with an `x` of type `T` and a `y` of type `U`.
pub struct Point<T, U> {
    pub x: T,
    pub y: U,
}

impl<T, U> Point<T, U> {
    /// The x-coordinate.
    pub fn x(&self) -> (r: &T)
        ensures
            *r == self.x,
    {
        &self.x
    }

    /// The y-coordinate.
    pub fn y(&self) -> (r: &U)
        ensures
            *r == self.y,
    {
        &self.y
    }
}

} // verus!
