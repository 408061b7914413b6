use vstd::prelude::*;

verus! {

/// An axis-aligned rectangle with an integer origin and an unsigned extent.
#[derive(PartialEq, Eq, Structural, Clone, Copy, Hash, Debug)]
pub struct Rect {
    pub x: i32,
    pub y: i32,
    pub w: u16,
    pub h: u16,
}

/// An integer 2-vector, used for positions and velocities.
#[derive(PartialEq, Eq, Structural, Clone, Copy, Hash, Debug)]
pub struct Vec2i(pub i32, pub i32);

/// A colour with four 8-bit channels.
#[derive(PartialEq, Eq, Structural, Clone, Copy, Hash, Debug)]
pub struct Rgba(pub u8, pub u8, pub u8, pub u8);

impl Rect {
    /// Right edge, as a mathematical integer.
    pub open spec fn right(self) -> int {
        self.x + self.w
    }

    /// Bottom edge, as a mathematical integer.
    pub open spec fn bottom(self) -> int {
        self.y + self.h
    }
}

} // verus!
