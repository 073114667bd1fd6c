//! Generation of application-level message IDs.

use vstd::prelude::*;

verus! {

/// Hands out message IDs starting at 1, counting up and wrapping at the
/// 64-bit boundary.
#[derive(Debug, Clone, PartialEq, Eq, Structural)]
pub struct MessageIdGenerator {
    /// The next ID to hand out.
    pub next_id: u64,
}

impl MessageIdGenerator {
    /// A generator whose first ID is 1.
    pub fn new() -> (r: MessageIdGenerator)
        ensures
            r.next_id == 1,
    {
        MessageIdGenerator { next_id: 1 }
    }

    /// Hand out the next ID and advance, wrapping to zero at the 64-bit
    /// boundary.
    pub fn next(&mut self) -> (r: u64)
        ensures
            r == old(self).next_id,
            final(self).next_id == (if old(self).next_id == u64::MAX {
                0u64
            } else {
                (old(self).next_id + 1) as u64
            }),
    {
        let id = self.next_id;
        if self.next_id == u64::MAX {
            self.next_id = 0;
        } else {
            self.next_id = self.next_id + 1;
        }
        id
    }
}

} // verus!
