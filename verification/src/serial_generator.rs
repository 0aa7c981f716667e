//! Numbers that are handed out once each.

use vstd::prelude::*;

verus! {

/// Counts up from 0.
pub struct SerialGenerator {
    pub serial: u64,
}

impl SerialGenerator {
    pub fn new() -> (generator: Self)
        ensures
            generator.serial == 0,
    {
        SerialGenerator { serial: 0 }
    }

    /// The next number. After the largest number the count starts again at
    /// 0.
    pub fn increment_get(&mut self) -> (cur: u64)
        ensures
            cur == old(self).serial,
            final(self).serial == if old(self).serial == u64::MAX {
                0
            } else {
                (old(self).serial + 1) as u64
            },
    {
        let cur = self.serial;
        if self.serial == u64::MAX {
            self.serial = 0;
        } else {
            self.serial += 1;
        }
        cur
    }
}

} // verus!
