use vstd::prelude::*;

verus! {

/// An opaque handle for an entry of the section table.
#[derive(Debug, Clone, Copy, PartialEq, Eq, Structural, Hash)]
pub struct UniqueId(pub u64);

/// Mints handles in increasing order: the n-th call returns the handle `n`.
pub struct UniqueIdGenerator {
    last_id: u64,
}

impl UniqueIdGenerator {
    /// The value of the last handle handed out (0 before the first).
    pub closed spec fn last(&self) -> nat {
        self.last_id as nat
    }

    pub fn new() -> (r: Self)
        ensures
            r.last() == 0,
    {
        Self { last_id: 0 }
    }

    pub fn next(&mut self) -> (r: UniqueId)
        requires
            old(self).last() < u64::MAX,
        ensures
            r.0 == old(self).last() + 1,
            final(self).last() == r.0,
    {
        self.last_id = self.last_id + 1;
        UniqueId(self.last_id)
    }
}

} // verus!
