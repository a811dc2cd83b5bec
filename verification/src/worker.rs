//! The worker supervisor's admission logic.
//!
//! The long-running loop itself — the lease query, the settlement
//! round-trips, the poll sleep — is outside work and runs outside the
//! library. It consults this state machine, a counting semaphore, to bound
//! the number of settlements in flight: a permit is acquired before each
//! lease attempt, kept while the settlement runs, and released when the
//! settlement finishes or the queue turns out empty.

use vstd::prelude::*;

use crate::model::POLL_INTERVAL_MS;

verus! {

/// What the supervisor does after asking the dispatcher for a task while
/// holding a permit.
#[derive(Clone, Copy, PartialEq, Eq, Structural, Debug)]
pub enum Action {
    /// A task was leased: run its settlement, keeping the permit.
    Settle,
    /// The queue was empty, or the lease query failed — the two are treated
    /// alike: the permit is given back and the loop sleeps.
    Sleep { millis: u64 },
}

/// The supervisor's counting semaphore: at most `limit` settlements run at
/// once.
pub struct Supervisor {
    pub limit: usize,
    pub in_flight: usize,
}

impl Supervisor {
    /// The bound is respected.
    pub open spec fn wf(&self) -> bool {
        self.in_flight <= self.limit
    }

    /// A supervisor that allows up to `limit` concurrent settlements.
    pub fn new(limit: usize) -> (s: Supervisor)
        ensures
            s.limit == limit,
            s.in_flight == 0,
            s.wf(),
    {
        Supervisor { limit, in_flight: 0 }
    }

    /// Whether a permit is free. The loop suspends on acquisition instead
    /// of asking, but the answer is what acquisition waits for.
    pub fn permit_free(&self) -> (r: bool)
        ensures
            r == (self.in_flight < self.limit),
    {
        self.in_flight < self.limit
    }

    /// Acquire a permit for one settlement.
    pub fn acquire(&mut self)
        requires
            old(self).in_flight < old(self).limit,
        ensures
            final(self).limit == old(self).limit,
            final(self).in_flight == old(self).in_flight + 1,
            final(self).wf(),
    {
        self.in_flight = self.in_flight + 1;
    }

    /// Decide what to do with the dispatcher's answer, holding a permit:
    /// settle a leased task, or give the permit back and sleep for the poll
    /// interval. An error from the dispatcher is handed in as `leased ==
    /// false`: it never stops the loop.
    pub fn after_poll(&mut self, leased: bool) -> (a: Action)
        requires
            old(self).wf(),
            old(self).in_flight >= 1,
        ensures
            final(self).limit == old(self).limit,
            final(self).wf(),
            leased ==> a == Action::Settle && final(self).in_flight == old(self).in_flight,
            !leased ==> a == (Action::Sleep { millis: POLL_INTERVAL_MS })
                && final(self).in_flight == old(self).in_flight - 1,
    {
        if leased {
            Action::Settle
        } else {
            self.in_flight = self.in_flight - 1;
            Action::Sleep { millis: POLL_INTERVAL_MS }
        }
    }

    /// A settlement finished — in success or failure — and its permit is
    /// given back.
    pub fn settled(&mut self)
        requires
            old(self).wf(),
            old(self).in_flight >= 1,
        ensures
            final(self).limit == old(self).limit,
            final(self).in_flight == old(self).in_flight - 1,
            final(self).wf(),
    {
        self.in_flight = self.in_flight - 1;
    }
}

} // verus!
