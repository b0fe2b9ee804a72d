//! Backpressure bookkeeping for the producer side of the capture bridge.

use vstd::prelude::*;

verus! {

/// Number of consecutive partial writes at which a warning is raised.
pub const SOFT_DROP_THRESHOLD: u32 = 25;

/// Number of consecutive partial writes at which termination is requested.
pub const HARD_DROP_THRESHOLD: u32 = 50;

/// What a single write did to the tracker.
#[derive(Clone, Copy, Debug, PartialEq, Eq, Structural)]
pub enum OverflowEvent {
    /// The whole batch was written; the streak of partial writes is over.
    Cleared,
    /// A partial write that crossed neither threshold.
    Dropped,
    /// The streak of partial writes just reached the soft threshold.
    Warning,
    /// The streak has reached the hard threshold; termination is requested.
    Terminate,
}

/// Counter of consecutive partial writes, with a sticky terminate flag.
#[derive(Clone, Copy, Debug)]
pub struct OverflowTracker {
    consecutive: u32,
    terminate: bool,
}

/// The length of the streak after a write of `accepted` out of `offered` samples.
pub open spec fn next_streak(streak: nat, offered: nat, accepted: nat) -> nat {
    if accepted < offered {
        if streak < u32::MAX {
            streak + 1
        } else {
            streak
        }
    } else {
        0
    }
}

/// The event that a streak of the given length raises.
pub open spec fn event_of(streak: nat) -> OverflowEvent {
    if streak == 0 {
        OverflowEvent::Cleared
    } else if streak >= HARD_DROP_THRESHOLD {
        OverflowEvent::Terminate
    } else if streak == SOFT_DROP_THRESHOLD {
        OverflowEvent::Warning
    } else {
        OverflowEvent::Dropped
    }
}

impl OverflowTracker {
    /// Length of the current streak of partial writes.
    pub closed spec fn streak(&self) -> nat {
        self.consecutive as nat
    }

    /// Whether termination has been requested.
    pub closed spec fn terminated(&self) -> bool {
        self.terminate
    }

    /// A tracker with no partial write on record.
    pub fn new() -> (t: Self)
        ensures
            t.streak() == 0,
            !t.terminated(),
    {
        OverflowTracker { consecutive: 0, terminate: false }
    }

    /// Records one write of `accepted` samples out of `offered`.
    ///
    /// A full write ends the streak. A partial write lengthens it; the
    /// terminate flag is set once the streak reaches the hard threshold and
    /// stays set from then on.
    pub fn record(&mut self, offered: usize, accepted: usize) -> (event: OverflowEvent)
        ensures
            final(self).streak() == next_streak(old(self).streak(), offered as nat, accepted as nat),
            event == event_of(final(self).streak()),
            final(self).terminated() == (old(self).terminated()
                || final(self).streak() >= HARD_DROP_THRESHOLD),
    {
        if accepted < offered {
            if self.consecutive < u32::MAX {
                self.consecutive = self.consecutive + 1;
            }
            if self.consecutive >= HARD_DROP_THRESHOLD {
                self.terminate = true;
                OverflowEvent::Terminate
            } else if self.consecutive == SOFT_DROP_THRESHOLD {
                OverflowEvent::Warning
            } else {
                OverflowEvent::Dropped
            }
        } else {
            self.consecutive = 0;
            OverflowEvent::Cleared
        }
    }

    /// Length of the current streak of partial writes.
    pub fn consecutive_drops(&self) -> (n: u32)
        ensures
            n == self.streak(),
    {
        self.consecutive
    }

    /// Whether the hard threshold has ever been reached.
    pub fn should_terminate(&self) -> (b: bool)
        ensures
            b == self.terminated(),
    {
        self.terminate
    }
}

} // verus!
