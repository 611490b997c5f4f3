//! Input events delivered to the active window.

use vstd::prelude::*;

verus! {

/// An input event.
#[derive(Clone, Copy, Debug, PartialEq, Eq, Structural)]
pub enum Event {
    Up,
    Down,
    Left,
    Right,
    Select,
    Back,
    Click { x: usize, y: usize },
}

} // verus!
