//! Distances on the pixel grid.

use vstd::prelude::*;
use crate::vector::IVec2;

verus! {

pub open spec fn abs_diff(a: int, b: int) -> int {
    if a >= b {
        a - b
    } else {
        b - a
    }
}

/// Manhattan distance between two positions.
pub open spec fn manhattan(from: IVec2, to: IVec2) -> int {
    abs_diff(from.x as int, to.x as int) + abs_diff(from.y as int, to.y as int)
}

/// The Manhattan distance `|from.x - to.x| + |from.y - to.y|`, which always
/// fits in 64 bits.
pub fn distance_squared_int32(from: IVec2, to: IVec2) -> (d: i64)
    ensures
        d == manhattan(from, to),
        0 <= d <= 0x1_FFFF_FFFE,
{
    let dx: i64 = if from.x >= to.x {
        from.x as i64 - to.x as i64
    } else {
        to.x as i64 - from.x as i64
    };
    let dy: i64 = if from.y >= to.y {
        from.y as i64 - to.y as i64
    } else {
        to.y as i64 - from.y as i64
    };
    dx + dy
}

} // verus!
