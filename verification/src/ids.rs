//! Process-local monotonic counter producing unique correlation tags for
//! outgoing commands. A tag is never reused within one generator's lifetime.

use vstd::prelude::*;

verus! {

/// Allocator of correlation tags, strictly increasing from zero.
pub struct IdGenerator {
    next: u64,
}

impl IdGenerator {
    /// The tag the next call to `generate` will hand out.
    pub closed spec fn next_tag(&self) -> u64 {
        self.next
    }

    /// A fresh generator; tags restart from zero.
    pub fn new() -> (g: Self)
        ensures
            g.next_tag() == 0,
    {
        IdGenerator { next: 0 }
    }

    /// Hands out the next tag. Every tag returned is strictly greater than
    /// all tags returned before it, so tags are never reused.
    pub fn generate(&mut self) -> (tag: u64)
        requires
            old(self).next_tag() < u64::MAX,
        ensures
            tag == old(self).next_tag(),
            final(self).next_tag() == tag + 1,
    {
        let tag = self.next;
        self.next = self.next + 1;
        tag
    }
}

} // verus!
