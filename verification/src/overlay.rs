//! Windows that are not rectangles somebody gave you: the platform-neutral
//! part of driving one.

use vstd::prelude::*;

verus! {

/// One step of a mouse gesture.
#[derive(Debug, Clone, Copy, PartialEq, Eq)]
pub enum MouseStep {
    Down,
    Move,
    Up,
}

} // verus!
