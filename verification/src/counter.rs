//! The identifier allocator: a monotonically increasing u64 counter whose
//! value lives durably in its own region.

use vstd::prelude::*;
use crate::backing::{Region, U64Cell, u64_cell_value};

verus! {

/// Allocates record identifiers. The next identifier is always exactly one
/// greater than the current value; identifiers are never reused and the
/// counter never decreases. Every new value is written durably before it is
/// handed out.
pub struct IdCounter {
    cell: U64Cell,
    value: u64,
}

impl IdCounter {
    /// The counter's current value: the most recently allocated identifier,
    /// or the initial value when none has been allocated.
    pub closed spec fn current(&self) -> u64 {
        self.value
    }

    /// The in-memory value agrees with the durably stored one.
    pub closed spec fn wf(&self) -> bool {
        self.value == u64_cell_value(self.cell)
    }

    /// First attachment to a region: an empty region starts the counter at
    /// zero; a region written under an earlier process lifetime restores the
    /// value it held. What a given region holds is environment-dependent, so
    /// the contract states well-formedness only; the stated guarantee that a
    /// counter survives a restart is `reattach`.
    pub fn init(region: Region) -> (r: IdCounter)
        ensures
            r.wf(),
    {
        let cell = U64Cell::init(region, 0);
        let value = cell.get();
        IdCounter { cell, value }
    }

    /// Re-attachment after a restart: drops the in-memory counter and
    /// re-initializes over the same region. The value survives unchanged,
    /// because every allocation was persisted before it was handed out.
    pub fn reattach(self) -> (r: IdCounter)
        requires
            self.wf(),
        ensures
            r.wf(),
            r.current() == self.current(),
    {
        let cell = self.cell.reattach();
        let value = cell.get();
        IdCounter { cell, value }
    }

    /// The current value; never fails, reflects the most recent allocation.
    pub fn get(&self) -> (r: u64)
        ensures
            r == self.current(),
    {
        self.value
    }

    /// Allocates the next identifier: exactly one greater than the current
    /// value, persisted durably before it is returned.
    pub fn allocate_next_id(&mut self) -> (r: u64)
        requires
            old(self).wf(),
            old(self).current() < u64::MAX,
        ensures
            final(self).wf(),
            r == old(self).current() + 1,
            final(self).current() == old(self).current() + 1,
    {
        let next = self.value + 1;
        self.cell.set(next);
        self.value = next;
        next
    }
}

/// Identifier allocation is strictly increasing: for two successive
/// allocations — the second starting from the state the first left behind,
/// however many reads happen in between — the second identifier is exactly
/// one greater than the first.
pub proof fn lemma_allocation_strictly_increasing(
    c0: IdCounter,
    c1: IdCounter,
    c2: IdCounter,
    id1: u64,
    id2: u64,
)
    requires
        c0.current() + 2 <= u64::MAX,
        id1 == c0.current() + 1,
        c1.current() == c0.current() + 1,
        id2 == c1.current() + 1,
        c2.current() == c1.current() + 1,
    ensures
        id2 == id1 + 1,
        id1 < id2,
{
}

} // verus!
