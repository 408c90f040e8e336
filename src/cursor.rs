use vstd::prelude::*;

verus! {

/// Pointer position in window pixels, origin at the bottom left corner.
#[derive(Debug, Clone, Copy, PartialEq, Eq, Structural)]
pub struct Cursor {
    pub x: i32,
    pub y: i32,
}

/// Size of the window in pixels.
#[derive(Debug, Clone, Copy, PartialEq, Eq, Structural)]
pub struct WinSize {
    pub w: i32,
    pub h: i32,
}

impl Cursor {
    /// A pointer at the origin.
    pub fn new() -> (r: Cursor)
        ensures
            r.x == 0 && r.y == 0,
    {
        Cursor { x: 0, y: 0 }
    }
}

} // verus!
