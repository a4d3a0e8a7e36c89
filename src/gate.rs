//! The readiness latch that holds input samplers back until the connection
//! to the host is live.
use vstd::prelude::*;

verus! {

/// A one-shot latch: closed at first, opened once, never closed again.
#[derive(Debug)]
pub struct ReadinessGate {
    ready: bool,
}

impl View for ReadinessGate {
    type V = bool;

    closed spec fn view(&self) -> bool {
        self.ready
    }
}

impl ReadinessGate {
    /// A closed gate.
    pub fn new() -> (r: ReadinessGate)
        ensures
            !r@,
    {
        ReadinessGate { ready: false }
    }

    pub fn is_ready(&self) -> (r: bool)
        ensures
            r == self@,
    {
        self.ready
    }

    /// Opens the readiness latch. Returns whether this call opened it (false when it was
    /// already open), so that waiters are woken exactly once.
    pub fn signal(&mut self) -> (opened: bool)
        ensures
            final(self)@,
            opened == !old(self)@,
    {
        let opened = !self.ready;
        self.ready = true;
        opened
    }
}

} // verus!
