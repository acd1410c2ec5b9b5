//! The two guide lines that split the canvas into three rows.

use vstd::prelude::*;

verus! {

/// The heights of the two guide lines and the width they span, in ticks.
#[derive(Clone, Copy, Debug, PartialEq, Eq, Structural)]
pub struct Swimlane {
    pub top: i128,
    pub bottom: i128,
    pub width: i128,
}

impl Swimlane {
    pub fn new() -> (r: Swimlane)
        ensures
            r == (Swimlane { top: 0, bottom: 0, width: 0 }),
    {
        Swimlane { top: 0, bottom: 0, width: 0 }
    }
}

} // verus!
