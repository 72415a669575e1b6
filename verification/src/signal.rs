//! The "show now" signal and the shared run flag.

use vstd::prelude::*;

verus! {

/// A presence-only "show now" signal: only whether at least one send
/// happened since the last receive matters, never how many.
pub struct SignalChannel {
    pub pending: bool,
}

impl SignalChannel {
    /// What a send leaves behind: a pending signal, however many were
    /// already pending.
    pub open spec fn sent(self) -> SignalChannel {
        SignalChannel { pending: true }
    }

    /// A fresh channel holds no pending signal.
    pub fn new() -> (c: SignalChannel)
        ensures
            !c.pending,
    {
        SignalChannel { pending: false }
    }

    /// Send "show now": never fails, and coalesces with any signal
    /// already pending.
    pub fn send(&mut self)
        ensures
            *final(self) == old(self).sent(),
            final(self).pending,
    {
        self.pending = true;
    }

    /// Consume the pending signal, if any: reports whether at least
    /// one send happened since the last receive, and leaves nothing
    /// pending either way.
    pub fn try_receive(&mut self) -> (r: bool)
        ensures
            r == old(self).pending,
            !final(self).pending,
    {
        let r = self.pending;
        self.pending = false;
        r
    }
}

/// Signal coalescing: a second send before a receive changes nothing,
/// so the receive that follows finds one pending signal — two rapid
/// sends cause one early show, not two — and a receive after it finds
/// none.
pub proof fn lemma_signal_coalescing(c: SignalChannel)
    ensures
        c.sent().sent() == c.sent(),
        c.sent().pending,
{
}

/// The shared run flag: starts true; its one transition is to false,
/// and it is one-way — no operation sets a stopped flag running again.
pub struct RunState {
    pub running: bool,
}

impl RunState {
    /// A fresh flag is running.
    pub fn new() -> (r: RunState)
        ensures
            r.running,
    {
        RunState { running: true }
    }

    /// Request termination: the flag reads false from now on.
    pub fn stop(&mut self)
        ensures
            !final(self).running,
    {
        self.running = false;
    }

    /// Poll the flag.
    pub fn is_running(&self) -> (r: bool)
        ensures
            r == self.running,
    {
        self.running
    }
}

} // verus!
