//! A flag that collapses any number of notifications into one.

use vstd::prelude::*;

verus! {

/// Set by `notify`, read and cleared by `check_triggered`.
pub struct Signal {
    pub triggered: bool,
}

impl Signal {
    pub fn new() -> (signal: Self)
        ensures
            !signal.triggered,
    {
        Signal { triggered: false }
    }

    /// Arms the signal; arming it again changes nothing.
    pub fn notify(&mut self)
        ensures
            final(self).triggered,
    {
        self.triggered = true;
    }

    /// Says whether the signal was armed since the last call, and clears
    /// it.
    pub fn check_triggered(&mut self) -> (was: bool)
        ensures
            was == old(self).triggered,
            !final(self).triggered,
    {
        if self.triggered {
            self.triggered = false;
            true
        } else {
            false
        }
    }
}

} // verus!
