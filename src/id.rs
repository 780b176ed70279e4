//! Process-unique, monotonically increasing node identifiers.
use vstd::prelude::*;

verus! {

/// A node identifier.
pub type Id = u64;

/// Issues identifiers in increasing order, never twice.
#[derive(Debug)]
pub struct IdGenerator {
    pub next: u64,
}

impl IdGenerator {
    pub fn new() -> (r: IdGenerator)
        ensures
            r.next == 0,
    {
        IdGenerator { next: 0 }
    }

    /// Hands out the next identifier.
    pub fn new_id(&mut self) -> (r: Id)
        requires
            old(self).next < u64::MAX,
        ensures
            r == old(self).next,
            final(self).next == old(self).next + 1,
    {
        let r = self.next;
        self.next = self.next + 1;
        r
    }
}

} // verus!
