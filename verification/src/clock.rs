//! The session clock: time in whole microseconds since the moment at which
//! the peer last tied its clock to a joining peer.

use vstd::prelude::*;

verus! {

/// Number of clock units in one second.
pub const MICROS_PER_SECOND: u64 = 1_000_000;

/// The session time that a clock with the given epoch shows at the wall
/// time `wall`: the time since the epoch, and zero before it.
pub open spec fn session_time(epoch: u64, wall: u64) -> u64 {
    if wall >= epoch {
        (wall - epoch) as u64
    } else {
        0
    }
}

/// The clock of one peer. `epoch` is the wall time at which session time
/// was last set to zero.
#[derive(Clone, Copy, Debug, PartialEq, Eq, Structural)]
pub struct SessionClock {
    pub epoch: u64,
}

impl SessionClock {
    /// A clock whose session time is the wall time.
    pub fn new() -> (clock: Self)
        ensures
            clock.epoch == 0,
    {
        SessionClock { epoch: 0 }
    }

    /// Sets session time to zero at the wall time `wall`.
    pub fn rebase(&mut self, wall: u64)
        ensures
            final(self).epoch == wall,
    {
        self.epoch = wall;
    }

    /// The session time at the wall time `wall`.
    pub fn now(&self, wall: u64) -> (t: u64)
        ensures
            t == session_time(self.epoch, wall),
    {
        if wall >= self.epoch {
            wall - self.epoch
        } else {
            0
        }
    }
}

} // verus!
