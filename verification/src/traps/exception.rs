//! The dispatch of exceptions.

use vstd::prelude::*;
use crate::process::process::Id;
use crate::process::scheduler::Scheduler;
use crate::process::state::State;
use crate::traps::irq::{first_pending, handle_irq, next_pending, Interrupt, Tick};
use crate::traps::syndrome::{syndrome_of, Syndrome};
use crate::traps::syscall::{handle_syscall, sleeping, STATUS_UNKNOWN, SYS_SLEEP};
use crate::traps::trap_frame::TrapFrame;

verus! {

/// The kind of an exception.
#[derive(Debug, PartialEq, Eq, Copy, Clone, Structural)]
pub enum Kind {
    Synchronous,
    Irq,
    Fiq,
    SError,
}

/// Where an exception was taken from.
#[derive(Debug, PartialEq, Eq, Copy, Clone, Structural)]
pub enum Source {
    CurrentSpEl0,
    CurrentSpElx,
    LowerAArch64,
    LowerAArch32,
}

/// The entry of the vector table through which an exception came in.
#[derive(Debug, PartialEq, Eq, Copy, Clone, Structural)]
pub struct Info {
    pub source: Source,
    pub kind: Kind,
}

impl Kind {
    /// The kind with the number `number` in the vector table, if there is
    /// one.
    pub fn from_number(number: u16) -> (kind: Option<Kind>)
        ensures
            kind == match number {
                0 => Some(Kind::Synchronous),
                1 => Some(Kind::Irq),
                2 => Some(Kind::Fiq),
                3 => Some(Kind::SError),
                _ => None,
            },
    {
        match number {
            0 => Some(Kind::Synchronous),
            1 => Some(Kind::Irq),
            2 => Some(Kind::Fiq),
            3 => Some(Kind::SError),
            _ => None,
        }
    }
}

impl Source {
    /// The source with the number `number` in the vector table, if there is
    /// one.
    pub fn from_number(number: u16) -> (source: Option<Source>)
        ensures
            source == match number {
                0 => Some(Source::CurrentSpEl0),
                1 => Some(Source::CurrentSpElx),
                2 => Some(Source::LowerAArch64),
                3 => Some(Source::LowerAArch32),
                _ => None,
            },
    {
        match number {
            0 => Some(Source::CurrentSpEl0),
            1 => Some(Source::CurrentSpElx),
            2 => Some(Source::LowerAArch64),
            3 => Some(Source::LowerAArch32),
            _ => None,
        }
    }
}

/// What an exception asks for.
#[derive(Debug, PartialEq, Eq, Copy, Clone, Structural)]
pub enum Exception {
    /// A breakpoint instruction with the given comment.
    Breakpoint(u16),
    /// The system call with the given number.
    Syscall(u16),
    /// The timer interrupt.
    Timer,
    /// Nothing that the kernel handles.
    Unhandled,
}

/// What the exception `info` asks for, where `esr` is the value of the
/// syndrome register and `pending` holds the pending bits of the interrupt
/// lines.
///
/// A synchronous exception is a breakpoint or a system call if the syndrome
/// says so. An interrupt request is the timer interrupt if the timer is the
/// first line that is pending. Everything else is not handled.
pub open spec fn exception_of(info: Info, esr: u32, pending: u64) -> Exception {
    match info.kind {
        Kind::Synchronous => match syndrome_of(esr) {
            Syndrome::Brk(comment) => Exception::Breakpoint(comment),
            Syndrome::Svc(number) => Exception::Syscall(number),
            Syndrome::Other(_) => Exception::Unhandled,
        },
        Kind::Irq => match first_pending(pending) {
            Some(Interrupt::Timer1) => Exception::Timer,
            _ => Exception::Unhandled,
        },
        _ => Exception::Unhandled,
    }
}

/// Returns what the exception `info` asks for.
pub fn classify(info: Info, esr: u32, pending: u64) -> (exception: Exception)
    ensures
        exception == exception_of(info, esr, pending),
{
    match info.kind {
        Kind::Synchronous => match Syndrome::from(esr) {
            Syndrome::Brk(comment) => Exception::Breakpoint(comment),
            Syndrome::Svc(number) => Exception::Syscall(number),
            Syndrome::Other(_) => Exception::Unhandled,
        },
        Kind::Irq => match next_pending(pending) {
            Some(Interrupt::Timer1) => Exception::Timer,
            _ => Exception::Unhandled,
        },
        _ => Exception::Unhandled,
    }
}

/// What is left to do once an exception has been handled.
#[derive(Debug, PartialEq, Eq, Copy, Clone, Structural)]
pub enum Handled {
    /// Run the debug shell, then return from the exception: the return
    /// address is already behind the breakpoint instruction.
    DebugShell,
    /// Return from the exception, into the process with the given ID if
    /// there is one; if no process can run, wait for an interrupt first.
    Return(Option<Id>),
    /// Set the timer to fire again in `rearm_in` microseconds, then return
    /// from the exception into the process `next`.
    Tick(Tick),
    /// The exception is not handled: stop.
    Halt,
}

/// The size of an instruction in bytes.
pub const INSTRUCTION_SIZE: u64 = 4;

/// This function is called when an exception occurs. The `info` parameter
/// specifies the source and kind of exception that has occurred. The `esr` is
/// the value of the exception syndrome register, `pending` holds the pending
/// bits of the interrupt lines, `tf` is the trap frame for the exception and
/// `now` is the time in microseconds.
///
/// A breakpoint moves the return address behind the breakpoint instruction
/// and asks for the debug shell. A system call is handled by
/// [`handle_syscall`], the timer interrupt by [`handle_irq`]. Anything else
/// changes nothing and asks to stop.
pub fn handle_exception(
    info: Info,
    esr: u32,
    tf: &mut TrapFrame,
    scheduler: &mut Scheduler,
    pending: u64,
    now: u64,
) -> (handled: Handled)
    requires
        old(scheduler).wf(),
    ensures
        final(scheduler).wf(),
        final(scheduler).last_id() == old(scheduler).last_id(),
        final(scheduler).ids().to_multiset() == old(scheduler).ids().to_multiset(),
        match exception_of(info, esr, pending) {
            Exception::Breakpoint(_) => {
                &&& handled == Handled::DebugShell
                &&& *final(tf) == (TrapFrame {
                    elr: old(tf).elr.wrapping_add(INSTRUCTION_SIZE),
                    ..*old(tf)
                })
                &&& final(scheduler).queue() == old(scheduler).queue()
                &&& final(scheduler).current() == old(scheduler).current()
            },
            Exception::Syscall(number) => {
                &&& handled matches Handled::Return(next)
                &&& if number == SYS_SLEEP {
                    old(scheduler).switched(
                        sleeping((old(tf).x0 % 0x1_0000_0000) as u32, now),
                        *old(tf),
                        now,
                        *final(scheduler),
                        *final(tf),
                        next,
                    )
                } else {
                    &&& next is None
                    &&& final(tf).returns_from(*old(tf), old(tf).x0, STATUS_UNKNOWN)
                    &&& final(scheduler).queue() == old(scheduler).queue()
                    &&& final(scheduler).current() == old(scheduler).current()
                }
            },
            Exception::Timer => {
                &&& handled matches Handled::Tick(tick)
                &&& tick.rearm_in == crate::process::scheduler::TICK
                &&& old(scheduler).switched(
                    State::Ready,
                    *old(tf),
                    now,
                    *final(scheduler),
                    *final(tf),
                    tick.next,
                )
                &&& old(scheduler).current() == Some(old(tf).tpidr) ==> tick.next is Some
            },
            Exception::Unhandled => {
                &&& handled == Handled::Halt
                &&& *final(tf) == *old(tf)
                &&& final(scheduler).queue() == old(scheduler).queue()
                &&& final(scheduler).current() == old(scheduler).current()
            },
        },
{
    match classify(info, esr, pending) {
        Exception::Breakpoint(_) => {
            tf.elr = tf.elr.wrapping_add(INSTRUCTION_SIZE);
            Handled::DebugShell
        },
        Exception::Syscall(number) => Handled::Return(handle_syscall(number, tf, scheduler, now)),
        Exception::Timer => Handled::Tick(handle_irq(Interrupt::Timer1, tf, scheduler, now)),
        Exception::Unhandled => Handled::Halt,
    }
}

} // verus!
