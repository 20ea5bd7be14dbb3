//! Counting semaphores, modelled as explicit permit counters.
//!
//! The threaded system uses asynchronous counting semaphores whose permits
//! can be *forgotten*: a successful acquisition is not released at scope exit
//! but handed to a long-lived owner (an open database handle), whose
//! destructor adds the permit back.  Over one state holder that protocol is a
//! pair of counters; waiting surfaces to the caller as a retry condition.

use vstd::prelude::*;

verus! {

/// A counting semaphore: `capacity` permits were created, `available` of
/// them are free right now.  Permits held by open databases account for the
/// difference.
pub struct SemaphoreModel {
    capacity: u64,
    available: u64,
}

impl SemaphoreModel {
    /// Number of permits the semaphore was created with.
    pub closed spec fn cap(&self) -> nat {
        self.capacity as nat
    }

    /// Number of permits currently free.
    pub closed spec fn free(&self) -> nat {
        self.available as nat
    }

    /// All permits are either free or held; never more free than created.
    pub open spec fn wf(&self) -> bool {
        self.free() <= self.cap()
    }

    /// A fresh semaphore with `capacity` permits, all free.
    pub fn new(capacity: u64) -> (r: SemaphoreModel)
        ensures
            r.cap() == capacity as nat,
            r.free() == capacity as nat,
            r.wf(),
    {
        SemaphoreModel { capacity, available: capacity }
    }

    /// Whether a permit is free, without taking one.
    pub fn peek_available(&self) -> (r: bool)
        ensures
            r == (self.free() > 0),
    {
        self.available > 0
    }

    /// Take one permit if one is free; never waits.
    pub fn try_acquire(&mut self) -> (r: bool)
        ensures
            final(self).cap() == old(self).cap(),
            r == (old(self).free() > 0),
            r ==> final(self).free() == old(self).free() - 1,
            !r ==> final(self).free() == old(self).free(),
            old(self).wf() ==> final(self).wf(),
    {
        if self.available > 0 {
            self.available = self.available - 1;
            true
        } else {
            false
        }
    }

    /// Return one permit; the destructor side of a forgotten acquisition.
    pub fn add_permit(&mut self)
        requires
            old(self).free() < old(self).cap(),
        ensures
            final(self).cap() == old(self).cap(),
            final(self).free() == old(self).free() + 1,
            old(self).wf() ==> final(self).wf(),
    {
        self.available = self.available + 1;
    }
}

} // verus!
