//! The global admission limiter: a counting primitive that caps how many
//! network attempts are in flight process-wide. Every attempt acquires a
//! permit before leasing a connection and releases it when its network
//! phase ends, succeed or fail.

use vstd::prelude::*;

verus! {

/// Total admission permits: the cap on concurrent network attempts.
pub const ADMISSION_CAP: usize = 128;

/// Bookkeeping of admission permits. `active` counts permits handed out
/// and never exceeds `cap`.
pub struct AdmissionLimiter {
    cap: usize,
    active: usize,
}

impl AdmissionLimiter {
    /// The fixed permit total.
    pub closed spec fn cap(self) -> int {
        self.cap as int
    }

    /// Permits currently held by in-flight attempts.
    pub closed spec fn active(self) -> int {
        self.active as int
    }

    /// The limiter never hands out more permits than its cap.
    pub open spec fn wf(self) -> bool {
        self.active() <= self.cap()
    }

    /// A fresh limiter with no permit handed out.
    pub fn new(cap: usize) -> (r: Self)
        ensures
            r.wf(),
            r.cap() == cap,
            r.active() == 0,
    {
        AdmissionLimiter { cap, active: 0 }
    }

    /// Takes a permit when one is free; an attempt that gets `false`
    /// must wait and ask again.
    pub fn try_acquire(&mut self) -> (r: bool)
        requires
            old(self).wf(),
        ensures
            final(self).wf(),
            final(self).cap() == old(self).cap(),
            r == (old(self).active() < old(self).cap()),
            r ==> final(self).active() == old(self).active() + 1,
            !r ==> final(self).active() == old(self).active(),
    {
        if self.active < self.cap {
            self.active = self.active + 1;
            true
        } else {
            false
        }
    }

    /// Gives a permit back at the end of an attempt's network phase;
    /// `false` when no permit was out, in which case nothing changes.
    pub fn release(&mut self) -> (r: bool)
        requires
            old(self).wf(),
        ensures
            final(self).wf(),
            final(self).cap() == old(self).cap(),
            r == (old(self).active() > 0),
            r ==> final(self).active() == old(self).active() - 1,
            !r ==> final(self).active() == old(self).active(),
    {
        if self.active > 0 {
            self.active = self.active - 1;
            true
        } else {
            false
        }
    }
}

/// However attempts interleave, the number of active network attempts
/// admitted by a well-formed limiter never exceeds its cap.
pub proof fn lemma_admission_bounded(l: AdmissionLimiter)
    requires
        l.wf(),
    ensures
        l.active() <= l.cap(),
{
}

} // verus!
