//! System calls.

use vstd::prelude::*;
use crate::process::process::Id;
use crate::process::scheduler::Scheduler;
use crate::process::state::{Event, State};
use crate::traps::trap_frame::{TrapFrame, X7};

verus! {

/// The number of the system call `sleep`.
pub const SYS_SLEEP: u16 = 1;

/// The status of a system call that does not exist.
pub const STATUS_UNKNOWN: u64 = 1;

/// The state of a process that sleeps for `ms` milliseconds from the time
/// `now`, which is in microseconds.
pub open spec fn sleeping(ms: u32, now: u64) -> State {
    State::Waiting(Event::Elapsed { begin: now, micros: (ms * 1000) as u64 })
}

/// Sleep for `ms` milliseconds.
///
/// The process whose registers are in `tf` waits until `ms` milliseconds
/// have passed since the time `now`, and gives way to the next process that
/// can be scheduled. When it is scheduled again, its register x0 holds the
/// approximate true elapsed time in milliseconds and its register x7 the
/// status 0.
pub fn sleep(ms: u32, tf: &mut TrapFrame, scheduler: &mut Scheduler, now: u64) -> (next: Option<
    Id,
>)
    requires
        old(scheduler).wf(),
    ensures
        final(scheduler).wf(),
        final(scheduler).last_id() == old(scheduler).last_id(),
        final(scheduler).ids().to_multiset() == old(scheduler).ids().to_multiset(),
        old(scheduler).switched(
            sleeping(ms, now),
            *old(tf),
            now,
            *final(scheduler),
            *final(tf),
            next,
        ),
{
    let micros = ms as u64 * 1000;
    scheduler.switch(State::Waiting(Event::Elapsed { begin: now, micros }), tf, now)
}

/// Handles the system call number `num` of the process whose registers are
/// in `tf`, at the time `now`.
///
/// Call 1 is `sleep`, which takes the number of milliseconds from the low 32
/// bits of register x0. Any other number is refused: register x7 is set to
/// 1, nothing else changes, and the process goes on.
pub fn handle_syscall(num: u16, tf: &mut TrapFrame, scheduler: &mut Scheduler, now: u64) -> (next:
    Option<Id>)
    requires
        old(scheduler).wf(),
    ensures
        final(scheduler).wf(),
        final(scheduler).last_id() == old(scheduler).last_id(),
        final(scheduler).ids().to_multiset() == old(scheduler).ids().to_multiset(),
        num == SYS_SLEEP ==> old(scheduler).switched(
            sleeping((old(tf).x0 % 0x1_0000_0000) as u32, now),
            *old(tf),
            now,
            *final(scheduler),
            *final(tf),
            next,
        ),
        num != SYS_SLEEP ==> {
            &&& next is None
            &&& final(tf).returns_from(*old(tf), old(tf).x0, STATUS_UNKNOWN)
            &&& final(scheduler).queue() == old(scheduler).queue()
            &&& final(scheduler).current() == old(scheduler).current()
        },
{
    if num == SYS_SLEEP {
        let x0 = tf.x0;
        assert(x0 & 0xFFFF_FFFF == x0 % 0x1_0000_0000) by (bit_vector);
        let ms = (x0 & 0xFFFF_FFFF) as u32;
        sleep(ms, tf, scheduler, now)
    } else {
        tf.x1to29[X7] = STATUS_UNKNOWN;
        None
    }
}

} // verus!
