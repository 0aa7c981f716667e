//! Rolls of the dice, from the `fastrand` crate.

use vstd::prelude::*;

verus! {

/// Calls `fastrand::u32` over the whole range. Nothing is promised of the
/// number: every call may give any.
#[verifier::external_body]
pub(crate) fn random_u32() -> (roll: u32)
{
    fastrand::u32(..)
}

/// `count` rolls of the dice.
pub fn draw_rolls(count: usize) -> (rolls: Vec<u32>)
    ensures
        rolls@.len() == count,
{
    let mut rolls: Vec<u32> = Vec::with_capacity(count);
    let mut i: usize = 0;
    while i < count
        invariant
            i <= count,
            rolls@.len() == i,
        decreases count - i,
    {
        rolls.push(random_u32());
        i += 1;
    }
    rolls
}

} // verus!
