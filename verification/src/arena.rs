//! The persistent arena: a bounded, durable memory region backing all stored
//! entities.  Allocation within it can fail and must be checked.
//!
//! The arena is modelled as an explicitly injected resource handle threaded
//! through every mutating call, so callers can substitute a small bounded
//! arena to exercise exhaustion paths deterministically.  Cost accounting is
//! uniform: every persistent allocation (a map node, a boxed string) takes
//! one cell, and cells are never returned.

use vstd::prelude::*;
use vstd::string::*;

verus! {

/// Error raised when allocating in the persistent arena fails because the
/// arena is exhausted.  It is propagated immediately to the caller, never
/// retried internally, and never partially masked.
#[derive(Debug, Clone, Copy, PartialEq, Eq, Structural)]
pub struct OutOfMemory;

impl OutOfMemory {
    /// A short description of the failure, for callers that report errors as text.
    pub fn message(&self) -> (r: String)
        ensures
            r@ == "stable memory exhausted"@,
    {
        String::from_str("stable memory exhausted")
    }
}

/// A bounded persistent arena: `capacity` cells in all, `used` of them taken.
/// Cells are consumed by allocations and never returned.
pub struct Arena {
    capacity: u64,
    used: u64,
}

impl Arena {
    /// Total number of cells the arena was created with.
    pub closed spec fn capacity(&self) -> u64 {
        self.capacity
    }

    /// Number of cells consumed so far.
    pub closed spec fn used(&self) -> u64 {
        self.used
    }

    /// The arena never accounts more cells than it has.
    pub open spec fn wf(&self) -> bool {
        self.used() <= self.capacity()
    }

    /// Whether `n` further cells fit.
    pub open spec fn can_alloc(&self, n: u64) -> bool {
        self.used() + n <= self.capacity()
    }

    /// A fresh arena of `capacity` cells, none used.
    pub fn new(capacity: u64) -> (r: Arena)
        ensures
            r.wf(),
            r.capacity() == capacity,
            r.used() == 0,
    {
        Arena { capacity, used: 0 }
    }

    /// Exact number of cells consumed so far.
    pub fn used_cells(&self) -> (r: u64)
        ensures
            r == self.used(),
    {
        self.used
    }

    /// Exact number of cells the arena was created with.
    pub fn capacity_cells(&self) -> (r: u64)
        ensures
            r == self.capacity(),
    {
        self.capacity
    }

    /// Take `n` cells from the arena, or report exhaustion and change nothing.
    pub fn try_alloc(&mut self, n: u64) -> (r: Result<(), OutOfMemory>)
        requires
            old(self).wf(),
        ensures
            final(self).wf(),
            final(self).capacity() == old(self).capacity(),
            match r {
                Ok(()) => old(self).can_alloc(n) && final(self).used() == old(self).used() + n,
                Err(_) => !old(self).can_alloc(n) && *final(self) == *old(self),
            },
    {
        if n <= self.capacity - self.used {
            self.used = self.used + n;
            Ok(())
        } else {
            Err(OutOfMemory)
        }
    }
}

} // verus!
