//! Integer vectors: positions of pixels and of chunks.

use vstd::prelude::*;

verus! {

/// A position on the unbounded canvas, or of a chunk on the chunk grid.
#[derive(Clone, Copy, PartialEq, Eq, Structural, Debug, Hash)]
pub struct IVec2 {
    pub x: i32,
    pub y: i32,
}

/// A position inside one chunk.
#[derive(Clone, Copy, PartialEq, Eq, Structural, Debug, Hash)]
pub struct U8Vec2 {
    pub x: u8,
    pub y: u8,
}

impl IVec2 {
    pub fn new(x: i32, y: i32) -> (v: Self)
        ensures
            v.x == x,
            v.y == y,
    {
        IVec2 { x, y }
    }
}

impl U8Vec2 {
    pub fn new(x: u8, y: u8) -> (v: Self)
        ensures
            v.x == x,
            v.y == y,
    {
        U8Vec2 { x, y }
    }
}

impl Default for IVec2 {
    fn default() -> (v: Self)
        ensures
            v.x == 0,
            v.y == 0,
    {
        IVec2 { x: 0, y: 0 }
    }
}

} // verus!
