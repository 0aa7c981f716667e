//! Handles by which sessions are told apart.

use vstd::prelude::*;

verus! {

/// Names one session for as long as it lives: a slot and the generation of
/// that slot.
#[derive(Clone, Copy, PartialEq, Eq, Structural, Debug, Hash)]
pub struct SessionHandle {
    pub idx: u32,
    pub generation: u64,
}

impl SessionHandle {
    pub fn new(idx: u32, generation: u64) -> (handle: Self)
        ensures
            handle == (SessionHandle { idx, generation }),
    {
        SessionHandle { idx, generation }
    }

    /// The number by which clients know the session.
    pub fn id(&self) -> (id: u32)
        ensures
            id == self.idx,
    {
        self.idx
    }
}

} // verus!
