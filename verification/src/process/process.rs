//! A process: its saved registers, its stack and its scheduling state.

use vstd::prelude::*;
use crate::allocator::bin::{carved, class_of, Allocator};
use crate::process::stack::{Stack, STACK_SIZE};
use crate::process::state::{Event, State};
use crate::traps::trap_frame::{TrapFrame, X7};

verus! {

/// Type alias for the type of a process ID.
pub type Id = u64;

/// A structure that represents the complete state of a process.
#[derive(Debug)]
pub struct Process {
    /// The saved trap frame of a process.
    pub trap_frame: Box<TrapFrame>,
    /// The memory allocation used for the process's stack.
    pub stack: Stack,
    /// The scheduling state of the process.
    pub state: State,
}

/// The number of milliseconds between `begin` and `now`, both in
/// microseconds.
pub open spec fn elapsed_ms(begin: u64, now: u64) -> u64 {
    ((now - begin) / 1000) as u64
}

impl Process {
    /// The ID of the process, which its trap frame holds.
    pub open spec fn id(&self) -> Id {
        self.trap_frame.tpidr
    }

    /// Whether the process can be scheduled at the time `now`.
    pub open spec fn schedulable(&self, now: u64) -> bool {
        self.state.schedulable(now)
    }

    /// Whether `self` is what `before` is once it has been found ready at the
    /// time `now`: its state is `Ready`, and if it was waiting for time to
    /// pass, its registers hold what the sleep call returns: the milliseconds
    /// slept in x0 and the status 0 in x7.
    pub open spec fn woken_from(&self, before: Process, now: u64) -> bool {
        &&& self.stack == before.stack
        &&& self.state == State::Ready
        &&& match before.state {
            State::Waiting(Event::Elapsed { begin, micros }) => self.trap_frame.returns_from(
                *before.trap_frame,
                elapsed_ms(begin, now),
                0,
            ),
            _ => *self.trap_frame == *before.trap_frame,
        }
    }

    /// Creates a new process with a zeroed `TrapFrame` (the default), a stack
    /// of the default size, and a state of `Ready`.
    ///
    /// If enough memory could not be allocated to start the process, returns
    /// `None`. Otherwise returns `Some` of the new `Process`.
    pub fn new(allocator: &mut Allocator) -> (process: Option<Process>)
        requires
            old(allocator).wf(),
        ensures
            final(allocator).wf(),
            final(allocator).region() == old(allocator).region(),
            match process {
                Some(process) => {
                    &&& process.trap_frame.is_zero()
                    &&& process.state == State::Ready
                    &&& old(allocator).has_block_for(Stack::spec_layout())
                    &&& process.stack.base == old(allocator).next_block_for(Stack::spec_layout())
                    &&& final(allocator).free() == carved(
                        old(allocator).free(),
                        class_of(Stack::spec_layout()),
                    )
                    &&& !old(allocator).held().contains_key(process.stack.base as int)
                    &&& final(allocator).held() == old(allocator).held().insert(
                        process.stack.base as int,
                        class_of(Stack::spec_layout()),
                    )
                    &&& process.stack.base + STACK_SIZE <= usize::MAX
                },
                None => {
                    &&& !old(allocator).has_block_for(Stack::spec_layout())
                    &&& final(allocator).held() == old(allocator).held()
                    &&& final(allocator).free() == old(allocator).free()
                },
            },
    {
        match Stack::new(allocator) {
            Some(stack) => Some(
                Process { trap_frame: Box::new(TrapFrame::default()), stack, state: State::Ready },
            ),
            None => None,
        }
    }

    /// Returns `true` if this process is ready to be scheduled at the time
    /// `now`, in microseconds.
    ///
    /// This functions returns `true` only if one of the following holds:
    ///
    ///   * The state is currently `Ready`.
    ///
    ///   * An event being waited for has arrived. The state is then switched
    ///     to `Ready`, and the results of the call that waited are stored in
    ///     the trap frame.
    ///
    /// Returns `false` in all other cases, and changes nothing.
    pub fn is_ready(&mut self, now: u64) -> (ready: bool)
        ensures
            ready == old(self).schedulable(now),
            ready ==> final(self).woken_from(*old(self), now),
            !ready ==> *final(self) == *old(self),
    {
        match self.state {
            State::Ready => true,
            State::Running => false,
            State::Dead => false,
            State::Waiting(event) => {
                if event.has_occurred(now) {
                    match event {
                        Event::Elapsed { begin, micros } => {
                            self.trap_frame.x1to29[X7] = 0;
                            self.trap_frame.x0 = (now - begin) / 1000;
                        },
                    }
                    self.state = State::Ready;
                    true
                } else {
                    false
                }
            },
        }
    }
}

} // verus!
