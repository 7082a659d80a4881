//! Interrupt requests.

use vstd::prelude::*;
use crate::process::process::Id;
use crate::process::scheduler::{Scheduler, TICK};
use crate::process::state::State;
use crate::traps::trap_frame::TrapFrame;

verus! {

/// The interrupt lines that the kernel knows.
#[derive(Debug, Copy, Clone, PartialEq, Eq, Structural)]
pub enum Interrupt {
    Timer1,
    Timer3,
    Usb,
    Gpio0,
    Gpio1,
    Gpio2,
    Gpio3,
    Uart,
}

impl Interrupt {
    /// The number of the interrupt line, for specifications.
    pub open spec fn line(&self) -> u32 {
        match self {
            Interrupt::Timer1 => 1,
            Interrupt::Timer3 => 3,
            Interrupt::Usb => 9,
            Interrupt::Gpio0 => 49,
            Interrupt::Gpio1 => 50,
            Interrupt::Gpio2 => 51,
            Interrupt::Gpio3 => 52,
            Interrupt::Uart => 57,
        }
    }

    /// The number of the interrupt line: its bit in the 64 bits of the two
    /// pending registers of the interrupt controller.
    pub fn number(&self) -> (line: u32)
        ensures
            line == self.line(),
            line < 64,
    {
        match self {
            Interrupt::Timer1 => 1,
            Interrupt::Timer3 => 3,
            Interrupt::Usb => 9,
            Interrupt::Gpio0 => 49,
            Interrupt::Gpio1 => 50,
            Interrupt::Gpio2 => 51,
            Interrupt::Gpio3 => 52,
            Interrupt::Uart => 57,
        }
    }

    /// Whether the interrupt is pending, where `pending` holds the pending
    /// bits of all lines, for specifications.
    pub open spec fn pending_in(&self, pending: u64) -> bool {
        (pending >> (self.line() as u64)) & 1 == 1
    }

    /// Whether the interrupt is pending, where `pending` holds the pending
    /// bits of all lines: line `n` in bit `n`.
    pub fn is_pending(&self, pending: u64) -> (b: bool)
        ensures
            b == self.pending_in(pending),
    {
        (pending >> (self.number() as u64)) & 1 == 1
    }
}

/// The first pending interrupt in the order in which the lines are served:
/// the two timers, USB, the four GPIO banks, the UART.
pub open spec fn first_pending(pending: u64) -> Option<Interrupt> {
    if Interrupt::Timer1.pending_in(pending) {
        Some(Interrupt::Timer1)
    } else if Interrupt::Timer3.pending_in(pending) {
        Some(Interrupt::Timer3)
    } else if Interrupt::Usb.pending_in(pending) {
        Some(Interrupt::Usb)
    } else if Interrupt::Gpio0.pending_in(pending) {
        Some(Interrupt::Gpio0)
    } else if Interrupt::Gpio1.pending_in(pending) {
        Some(Interrupt::Gpio1)
    } else if Interrupt::Gpio2.pending_in(pending) {
        Some(Interrupt::Gpio2)
    } else if Interrupt::Gpio3.pending_in(pending) {
        Some(Interrupt::Gpio3)
    } else if Interrupt::Uart.pending_in(pending) {
        Some(Interrupt::Uart)
    } else {
        None
    }
}

/// Returns the first pending interrupt in the order in which the lines are
/// served.
pub fn next_pending(pending: u64) -> (interrupt: Option<Interrupt>)
    ensures
        interrupt == first_pending(pending),
{
    if Interrupt::Timer1.is_pending(pending) {
        Some(Interrupt::Timer1)
    } else if Interrupt::Timer3.is_pending(pending) {
        Some(Interrupt::Timer3)
    } else if Interrupt::Usb.is_pending(pending) {
        Some(Interrupt::Usb)
    } else if Interrupt::Gpio0.is_pending(pending) {
        Some(Interrupt::Gpio0)
    } else if Interrupt::Gpio1.is_pending(pending) {
        Some(Interrupt::Gpio1)
    } else if Interrupt::Gpio2.is_pending(pending) {
        Some(Interrupt::Gpio2)
    } else if Interrupt::Gpio3.is_pending(pending) {
        Some(Interrupt::Gpio3)
    } else if Interrupt::Uart.is_pending(pending) {
        Some(Interrupt::Uart)
    } else {
        None
    }
}

/// What is to be done after a timer interrupt.
#[derive(Debug, Copy, Clone, PartialEq, Eq, Structural)]
pub struct Tick {
    /// The number of microseconds in which the timer is to fire again.
    pub rearm_in: u32,
    /// The ID of the process that runs next, if there is one.
    pub next: Option<Id>,
}

/// Handles the timer interrupt at the time `now`: the timer is to fire again
/// in `TICK` microseconds, and the running process, whose registers are in
/// `tf`, gives way to the next that can be scheduled.
///
/// Only the timer interrupt is handled. If `tf` is of the running process,
/// a process is always found, since the process that was preempted is itself
/// ready.
pub fn handle_irq(interrupt: Interrupt, tf: &mut TrapFrame, scheduler: &mut Scheduler, now: u64) -> (tick:
    Tick)
    requires
        interrupt == Interrupt::Timer1,
        old(scheduler).wf(),
    ensures
        final(scheduler).wf(),
        tick.rearm_in == TICK,
        final(scheduler).last_id() == old(scheduler).last_id(),
        final(scheduler).ids().to_multiset() == old(scheduler).ids().to_multiset(),
        old(scheduler).switched(
            State::Ready,
            *old(tf),
            now,
            *final(scheduler),
            *final(tf),
            tick.next,
        ),
        old(scheduler).current() == Some(old(tf).tpidr) ==> tick.next is Some,
{
    let ghost before = *scheduler;
    let ghost saved = *tf;
    let next = scheduler.switch(State::Ready, tf, now);
    proof {
        if before.current() == Some(saved.tpidr) {
            before.lemma_preemption_never_fails(saved, now, *scheduler, *tf, next);
        }
    }
    Tick { rearm_in: TICK, next }
}

} // verus!
