//! A budget of bytes.

use vstd::prelude::*;
use crate::error::Error;

verus! {

/// A budget of bytes: so many may be in use at a time.
#[derive(Clone, Copy, Debug, PartialEq, Eq, Structural)]
pub struct MemoryQuota {
    pub capacity: usize,
    pub in_use: usize,
}

/// The largest budget there is.
pub open spec fn max_capacity() -> usize {
    isize::MAX as usize
}

/// The budget that is granted where `capacity` is asked for.
pub open spec fn granted(capacity: usize) -> usize {
    if capacity <= max_capacity() {
        capacity
    } else {
        max_capacity()
    }
}

fn grant(capacity: usize) -> (r: usize)
    ensures
        r == granted(capacity),
{
    if capacity <= isize::MAX as usize {
        capacity
    } else {
        isize::MAX as usize
    }
}

impl MemoryQuota {
    /// Whether `bytes` more fit into the budget.
    pub open spec fn fits(self, bytes: usize) -> bool {
        self.in_use + bytes <= self.capacity
    }

    pub open spec fn spec_allocate(self, bytes: usize) -> MemoryQuota {
        if self.fits(bytes) {
            MemoryQuota { in_use: (self.in_use + bytes) as usize, ..self }
        } else {
            self
        }
    }

    pub open spec fn spec_free(self, bytes: usize) -> MemoryQuota {
        MemoryQuota {
            in_use: if bytes <= self.in_use {
                (self.in_use - bytes) as usize
            } else {
                0
            },
            ..self
        }
    }

    /// A budget of `capacity` bytes, or of the largest budget there is
    /// if that is less, with nothing in use.
    pub fn new(capacity: usize) -> (r: MemoryQuota)
        ensures
            r == (MemoryQuota { capacity: granted(capacity), in_use: 0 }),
    {
        MemoryQuota { capacity: grant(capacity), in_use: 0 }
    }

    pub fn capacity(&self) -> (r: usize)
        ensures
            r == self.capacity,
    {
        self.capacity
    }

    pub fn in_use(&self) -> (r: usize)
        ensures
            r == self.in_use,
    {
        self.in_use
    }

    /// Changes the budget. What is in use stays in use, also where it is
    /// more than the new budget.
    pub fn set_capacity(&mut self, capacity: usize)
        ensures
            *final(self) == (MemoryQuota { capacity: granted(capacity), ..*old(self) }),
    {
        self.capacity = grant(capacity);
    }

    /// Takes `bytes` of the budget, or fails and takes nothing where they
    /// do not fit.
    pub fn allocate(&mut self, bytes: usize) -> (r: Result<(), Error>)
        ensures
            *final(self) == old(self).spec_allocate(bytes),
            r == if old(self).fits(bytes) {
                Ok::<(), Error>(())
            } else {
                Err::<(), Error>(Error::MemoryQuotaExceeded)
            },
    {
        if bytes <= self.capacity && self.in_use <= self.capacity - bytes {
            self.in_use = self.in_use + bytes;
            Ok(())
        } else {
            Err(Error::MemoryQuotaExceeded)
        }
    }

    /// Gives `bytes` back; more than is in use gives back all.
    pub fn free(&mut self, bytes: usize)
        ensures
            *final(self) == old(self).spec_free(bytes),
    {
        if bytes <= self.in_use {
            self.in_use = self.in_use - bytes;
        } else {
            self.in_use = 0;
        }
    }
}

/// What is taken and given back again leaves the budget as it was, and a
/// budget that is not overdrawn is not overdrawn by taking.
pub proof fn lemma_alloc_free(q: MemoryQuota, bytes: usize)
    ensures
        q.fits(bytes) ==> q.spec_allocate(bytes).spec_free(bytes) == q,
        q.in_use <= q.capacity ==> q.spec_allocate(bytes).in_use <= q.capacity,
        q.spec_free(bytes).in_use <= q.in_use,
{
}

} // verus!
