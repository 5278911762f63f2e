//! The virtual clock that times sleeps and timed joins.
use vstd::prelude::*;

verus! {

/// A monotonic virtual clock, counted in nanoseconds.
///
/// The scheduler advances it explicitly, when nothing is ready to run, so
/// that timed waits take no wall-clock time.
#[derive(Copy, Clone, Debug)]
pub struct TickClock {
    now: u64,
}

impl TickClock {
    /// The instant this clock shows.
    pub closed spec fn instant(&self) -> nat {
        self.now as nat
    }

    /// A clock that starts at `start`.
    pub fn new(start: u64) -> (r: Self)
        ensures
            r.instant() == start,
    {
        TickClock { now: start }
    }

    /// The current virtual time.
    pub fn now(&self) -> (r: u64)
        ensures
            r == self.instant(),
    {
        self.now
    }

    /// Advances the clock by `dur`.
    pub fn tick(&mut self, dur: u64)
        requires
            old(self).instant() + dur <= u64::MAX,
        ensures
            final(self).instant() == old(self).instant() + dur,
    {
        self.now = self.now + dur;
    }
}

} // verus!
