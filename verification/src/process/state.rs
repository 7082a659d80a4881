//! The scheduling state of a process.

use vstd::prelude::*;

verus! {

/// What a waiting process waits for.
#[derive(Debug, Copy, Clone, PartialEq, Eq, Structural)]
pub enum Event {
    /// `micros` microseconds have passed since the time `begin`.
    Elapsed { begin: u64, micros: u64 },
}

/// The scheduling state of a process.
#[derive(Debug, Copy, Clone, PartialEq, Eq, Structural)]
pub enum State {
    /// The process is ready to be scheduled.
    Ready,
    /// The process is currently running.
    Running,
    /// The process is waiting for an event to occur.
    Waiting(Event),
    /// The process has ended and is never scheduled again.
    Dead,
}

impl Event {
    /// Whether the event has occurred at the time `now`.
    pub open spec fn occurred(self, now: u64) -> bool {
        match self {
            Event::Elapsed { begin, micros } => now >= begin + micros,
        }
    }

    /// Whether the event has occurred at the time `now`, in microseconds.
    pub fn has_occurred(&self, now: u64) -> (b: bool)
        ensures
            b == self.occurred(now),
    {
        match self {
            Event::Elapsed { begin, micros } => now >= *begin && now - *begin >= *micros,
        }
    }
}

impl State {
    /// Whether a process in this state can be scheduled at the time `now`:
    /// it is ready, or what it waits for has occurred.
    pub open spec fn schedulable(self, now: u64) -> bool {
        match self {
            State::Ready => true,
            State::Waiting(event) => event.occurred(now),
            State::Running => false,
            State::Dead => false,
        }
    }
}

} // verus!
