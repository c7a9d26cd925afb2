//! Connection identifiers and the acceptor's source of fresh ones.

use vstd::prelude::*;

verus! {

/// Identity key of one accepted connection.
pub type ConnectionId = u64;

/// The first identifier an acceptor hands out.
pub const FIRST_ID: ConnectionId = 1;

/// Mints connection identifiers in strictly increasing order, never reusing one.
pub struct IdAllocator {
    next: ConnectionId,
}

impl IdAllocator {
    /// The identifier the next successful `issue` returns.
    pub closed spec fn upcoming(&self) -> ConnectionId {
        self.next
    }

    /// Holds of every allocator: identifiers start at `FIRST_ID`.
    #[verifier::type_invariant]
    pub open spec fn wf(&self) -> bool {
        self.upcoming() >= FIRST_ID
    }

    /// The identifiers handed out so far.
    pub open spec fn issued(&self) -> Set<ConnectionId> {
        Set::new(|id: ConnectionId| FIRST_ID <= id < self.upcoming())
    }

    /// True when the identifier space is used up and `issue` can only refuse.
    pub open spec fn exhausted(&self) -> bool {
        self.upcoming() == u64::MAX
    }

    /// An allocator that has issued nothing yet.
    pub fn new() -> (alloc: IdAllocator)
        ensures
            alloc.upcoming() == FIRST_ID,
            alloc.issued() == Set::<ConnectionId>::empty(),
    {
        IdAllocator { next: FIRST_ID }
    }

    /// Hands out the next identifier. It is larger than every identifier
    /// issued before. Refuses, leaving the allocator unchanged, only once the
    /// identifier space is used up.
    pub fn issue(&mut self) -> (id: Option<ConnectionId>)
        ensures
            old(self).exhausted() ==> id.is_none() && *final(self) == *old(self),
            !old(self).exhausted() ==> id == Some(old(self).upcoming())
                && final(self).upcoming() == old(self).upcoming() + 1
                && final(self).issued() == old(self).issued().insert(old(self).upcoming()),
            id matches Some(fresh) ==> !old(self).issued().contains(fresh)
                && forall|earlier: ConnectionId| #[trigger]
                    old(self).issued().contains(earlier) ==> earlier < fresh,
    {
        proof {
            use_type_invariant(&*self);
        }
        if self.next == u64::MAX {
            None
        } else {
            let id: ConnectionId = self.next;
            self.next = id + 1;
            Some(id)
        }
    }
}

} // verus!
