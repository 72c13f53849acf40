use vstd::prelude::*;

verus! {

/// A counter that hands out identifiers in increasing order, wrapping around at the end.
pub struct IdCounter {
    next: usize,
}

impl IdCounter {
    /// The identifier that the next call of `next_id` hands out.
    pub closed spec fn peek(&self) -> usize {
        self.next
    }

    /// A counter whose first identifier is `first`.
    pub fn new(first: usize) -> (r: IdCounter)
        ensures
            r.peek() == first,
    {
        IdCounter { next: first }
    }

    /// Returns the current identifier and advances the counter by one.
    pub fn next_id(&mut self) -> (r: usize)
        ensures
            r == old(self).peek(),
            final(self).peek() == if old(self).peek() == usize::MAX {
                0
            } else {
                old(self).peek() + 1
            },
    {
        let r = self.next;
        self.next = self.next.wrapping_add(1);
        r
    }
}

} // verus!
