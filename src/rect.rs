//! An axis-aligned rectangle with integer sides.
use vstd::prelude::*;

verus! {

/// A rectangle given by its width and height.
pub struct Rect {
    pub width: u32,
    pub height: u32,
}

impl Rect {
    /// Width times height.
    pub fn area(&self) -> (r: u32)
        requires
            self.width * self.height <= u32::MAX,
        ensures
            r == self.width * self.height,
    {
        self.width * self.height
    }

    /// Twice the product of width and height.
    pub fn perimeter(&self) -> (r: u32)
        requires
            2 * self.width <= u32::MAX,
            2 * self.width * self.height <= u32::MAX,
        ensures
            r == 2 * self.width * self.height,
    {
        2 * self.width * self.height
    }

    /// An associated function with no receiver; always one.
    pub fn debug() -> (r: u32)
        ensures
            r == 1,
    {
        1
    }
}

} // verus!
