//! An axis-aligned rectangle in 2D space.

use vstd::prelude::*;

verus! {

/// Rectangle with its top-left corner at `(x, y)`, `w` wide and `h` high.
#[derive(Clone, Copy, Default, Debug, PartialEq, Eq, Structural)]
pub struct Rect {
    pub x: usize,
    pub y: usize,
    pub w: usize,
    pub h: usize,
}

impl Rect {
    pub fn new(x: usize, y: usize, w: usize, h: usize) -> (r: Rect)
        ensures
            r == (Rect { x, y, w, h }),
    {
        Rect { x, y, w, h }
    }
}

} // verus!
