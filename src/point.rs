//! A point in 2D space.

use vstd::prelude::*;

verus! {

/// Point in 2D space.
#[derive(Clone, Copy, Default, Debug, PartialEq, Eq, Structural)]
pub struct Point {
    pub x: usize,
    pub y: usize,
}

impl Point {
    pub fn new(x: usize, y: usize) -> (p: Point)
        ensures
            p == (Point { x, y }),
    {
        Point { x, y }
    }
}

} // verus!
