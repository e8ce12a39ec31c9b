//! A one-shot waitable: the first poll reports "not ready" and flips the
//! internal state; every later poll reports "ready". It carries no payload —
//! the real value travels through the hand-off slot. Its only purpose is to
//! give a frame a yield point: a place where execution parks once and resumes
//! on the next poll.

use vstd::prelude::*;

verus! {

/// One-shot suspension marker. Fresh until polled once, then ready forever.
pub struct PendOnce {
    pended: bool,
}

impl PendOnce {
    /// Whether the marker has already reported "not ready" once.
    pub closed spec fn pended(&self) -> bool {
        self.pended
    }

    /// A fresh marker that has not yet suspended.
    pub fn new() -> (p: Self)
        ensures
            !p.pended(),
    {
        Self { pended: false }
    }

    /// Poll the marker: reports ready exactly when a previous poll already
    /// suspended here, and records the suspension on the first poll.
    pub fn poll(&mut self) -> (ready: bool)
        ensures
            ready == old(self).pended(),
            final(self).pended(),
    {
        if self.pended {
            true
        } else {
            self.pended = true;
            false
        }
    }
}

} // verus!
