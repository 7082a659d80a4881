use pi_kernel::allocator::bin::Allocator;
use pi_kernel::process::process::Process;
use pi_kernel::process::scheduler::{Scheduler, TICK};
use pi_kernel::process::stack::{Stack, STACK_SIZE};
use pi_kernel::process::state::{Event, State};
use pi_kernel::traps::exception::{classify, handle_exception, Exception, Handled, Info, Kind, Source};
use pi_kernel::traps::irq::{handle_irq, next_pending, Interrupt};
use pi_kernel::traps::syndrome::Syndrome;
use pi_kernel::traps::syscall::{handle_syscall, sleep};
use pi_kernel::traps::trap_frame::TrapFrame;
use pi_kernel::vm::{PhysicalAddr, VirtualAddr};

fn process(marker: u64) -> Process {
    let mut frame = TrapFrame::default();
    frame.elr = marker;
    Process { trap_frame: Box::new(frame), stack: Stack { base: 0x10_0000 * marker as usize }, state: State::Ready }
}

fn two_processes() -> Scheduler {
    let mut scheduler = Scheduler::new();
    assert_eq!(scheduler.add(process(100)), Some(1));
    assert_eq!(scheduler.add(process(200)), Some(2));
    scheduler
}

/// The registers of a process as they are when it traps.
fn frame_of(id: u64, marker: u64) -> TrapFrame {
    let mut frame = TrapFrame::default();
    frame.tpidr = id;
    frame.elr = marker;
    frame
}

const SVC: u32 = 0x15 << 26;
const BRK: u32 = 0x3C << 26;

#[test]
fn trap_frame_starts_zeroed() {
    let frame = TrapFrame::default();
    assert_eq!((frame.elr, frame.spsr, frame.sp, frame.tpidr, frame.x0, frame.x30), (0, 0, 0, 0, 0, 0));
    assert!(frame.q0to31.iter().all(|q| *q == 0));
    assert!(frame.x1to29.iter().all(|x| *x == 0));
}

#[test]
fn ids_are_assigned_in_order() {
    let mut scheduler = Scheduler::new();
    assert_eq!(scheduler.running(), None);
    assert_eq!(scheduler.add(process(1)), Some(1));
    assert_eq!(scheduler.running(), Some(1));
    assert_eq!(scheduler.add(process(2)), Some(2));
    assert_eq!(scheduler.add(process(3)), Some(3));
    assert_eq!(scheduler.running(), Some(1));
    assert_eq!(scheduler.len(), 3);
}

#[test]
fn round_robin_of_two_processes() {
    let mut scheduler = two_processes();
    // A runs and is preempted by the timer.
    let mut tf = frame_of(1, 111);
    assert_eq!(scheduler.switch(State::Ready, &mut tf, 0), Some(2));
    assert_eq!(scheduler.running(), Some(2));
    // B's registers are restored.
    assert_eq!(tf.tpidr, 2);
    assert_eq!(tf.elr, 200);
    // After another tick A runs again, with the registers it was preempted with.
    tf.elr = 222;
    assert_eq!(scheduler.switch(State::Ready, &mut tf, 10), Some(1));
    assert_eq!(tf.tpidr, 1);
    assert_eq!(tf.elr, 111);
    assert_eq!(scheduler.switch(State::Ready, &mut tf, 20), Some(2));
    assert_eq!(tf.elr, 222);
    assert_eq!(scheduler.len(), 2);
}

#[test]
fn round_robin_of_three_processes_is_fifo() {
    let mut scheduler = two_processes();
    scheduler.add(process(300));
    let mut tf = frame_of(1, 100);
    let order: Vec<u64> = (0..7).map(|_| scheduler.switch(State::Ready, &mut tf, 0).unwrap()).collect();
    assert_eq!(order, vec![2, 3, 1, 2, 3, 1, 2]);
}

#[test]
fn a_single_process_is_switched_to_itself() {
    let mut scheduler = Scheduler::new();
    scheduler.add(process(100));
    let mut tf = frame_of(1, 5);
    assert_eq!(scheduler.switch(State::Ready, &mut tf, 0), Some(1));
    assert_eq!(tf.elr, 5);
    assert_eq!(scheduler.running(), Some(1));
}

#[test]
fn stale_switch_changes_nothing() {
    let mut scheduler = two_processes();
    let mut tf = frame_of(2, 7);
    assert_eq!(scheduler.switch(State::Ready, &mut tf, 0), None);
    assert_eq!(scheduler.running(), Some(1));
    assert_eq!(tf.tpidr, 2);
    assert_eq!(tf.elr, 7);
    let mut empty = Scheduler::new();
    assert_eq!(empty.switch(State::Ready, &mut tf, 0), None);
    assert_eq!(empty.schedule(&mut tf, 0), None);
}

#[test]
fn sleeping_process_is_skipped_until_its_time() {
    let mut scheduler = two_processes();
    let mut tf = frame_of(1, 111);
    tf.x0 = 5; // sleep for 5 ms
    tf.x1to29[6] = 77;
    assert_eq!(handle_syscall(1, &mut tf, &mut scheduler, 1_000), Some(2));
    assert_eq!(tf.tpidr, 2);
    // B is preempted but A still sleeps: B runs on.
    assert_eq!(scheduler.switch(State::Ready, &mut tf, 2_000), Some(2));
    assert_eq!(scheduler.switch(State::Ready, &mut tf, 5_999), Some(2));
    // 5 ms after the call A is ready again.
    assert_eq!(scheduler.switch(State::Ready, &mut tf, 8_500), Some(1));
    assert_eq!(tf.tpidr, 1);
    assert_eq!(tf.elr, 111);
    // It slept for 7.5 ms: x0 holds the whole milliseconds, x7 the status.
    assert_eq!(tf.x0, 7);
    assert_eq!(tf.x1to29[6], 0);
}

#[test]
fn sleep_ends_exactly_at_its_deadline() {
    let mut scheduler = two_processes();
    let mut tf = frame_of(1, 0);
    assert_eq!(sleep(3, &mut tf, &mut scheduler, 10), Some(2));
    assert_eq!(scheduler.switch(State::Ready, &mut tf, 3_009), Some(2));
    assert_eq!(scheduler.switch(State::Ready, &mut tf, 3_010), Some(1));
    assert_eq!(tf.x0, 3);
}

#[test]
fn nothing_runs_while_every_process_sleeps() {
    let mut scheduler = Scheduler::new();
    scheduler.add(process(100));
    let mut tf = frame_of(1, 111);
    tf.x0 = 1;
    assert_eq!(handle_syscall(1, &mut tf, &mut scheduler, 0), None);
    assert_eq!(scheduler.running(), None);
    assert_eq!(scheduler.len(), 1);
    // The registers are untouched while nothing can run.
    assert_eq!(tf.tpidr, 1);
    assert_eq!(scheduler.schedule(&mut tf, 999), None);
    // A switch in the name of the sleeping process is stale.
    assert_eq!(scheduler.switch(State::Ready, &mut tf, 999), None);
    assert_eq!(scheduler.schedule(&mut tf, 1_000), Some(1));
    assert_eq!(scheduler.running(), Some(1));
    assert_eq!(tf.x0, 1);
    // While a process runs, there is nothing to schedule.
    assert_eq!(scheduler.schedule(&mut tf, 2_000), None);
}

#[test]
fn process_added_while_idle_is_scheduled() {
    let mut scheduler = Scheduler::new();
    scheduler.add(process(100));
    let mut tf = frame_of(1, 111);
    assert_eq!(sleep(100, &mut tf, &mut scheduler, 0), None);
    assert_eq!(scheduler.add(process(200)), Some(2));
    assert_eq!(scheduler.running(), None);
    assert_eq!(scheduler.schedule(&mut tf, 5), Some(2));
    assert_eq!(tf.elr, 200);
}

#[test]
fn dead_process_is_never_scheduled() {
    let mut scheduler = two_processes();
    let mut tf = frame_of(1, 0);
    assert_eq!(scheduler.switch(State::Dead, &mut tf, 0), Some(2));
    assert_eq!(scheduler.switch(State::Ready, &mut tf, 0), Some(2));
    assert_eq!(scheduler.len(), 2);
}

#[test]
fn readiness_follows_the_state() {
    let mut p = process(1);
    assert!(p.is_ready(0));
    p.state = State::Running;
    assert!(!p.is_ready(0));
    p.state = State::Dead;
    assert!(!p.is_ready(u64::MAX));
    p.state = State::Waiting(Event::Elapsed { begin: 100, micros: 50 });
    p.trap_frame.x0 = 9;
    assert!(!p.is_ready(149));
    assert!(!p.is_ready(0));
    assert_eq!(p.state, State::Waiting(Event::Elapsed { begin: 100, micros: 50 }));
    assert_eq!(p.trap_frame.x0, 9);
    assert!(p.is_ready(150));
    assert_eq!(p.state, State::Ready);
    assert_eq!(p.trap_frame.x0, 0);
    let far = Event::Elapsed { begin: u64::MAX, micros: u64::MAX };
    assert!(!far.has_occurred(u64::MAX));
    assert!(Event::Elapsed { begin: 0, micros: 0 }.has_occurred(0));
}

#[test]
fn unknown_syscall_sets_the_status() {
    let mut scheduler = two_processes();
    let mut tf = frame_of(1, 111);
    tf.x0 = 42;
    assert_eq!(handle_syscall(2, &mut tf, &mut scheduler, 0), None);
    assert_eq!(tf.x1to29[6], 1);
    assert_eq!(tf.x0, 42);
    assert_eq!(scheduler.running(), Some(1));
}

#[test]
fn sleep_takes_the_low_32_bits_of_x0() {
    let mut scheduler = two_processes();
    let mut tf = frame_of(1, 111);
    tf.x0 = (7 << 32) | 2;
    assert_eq!(handle_syscall(1, &mut tf, &mut scheduler, 0), Some(2));
    assert_eq!(scheduler.switch(State::Ready, &mut tf, 1_999), Some(2));
    assert_eq!(scheduler.switch(State::Ready, &mut tf, 2_000), Some(1));
}

#[test]
fn timer_interrupt_preempts() {
    let mut scheduler = two_processes();
    let mut tf = frame_of(1, 111);
    let tick = handle_irq(Interrupt::Timer1, &mut tf, &mut scheduler, 0);
    assert_eq!(tick.rearm_in, TICK);
    assert_eq!(TICK, 10_000);
    assert_eq!(tick.next, Some(2));
}

#[test]
fn syndromes_are_decoded() {
    assert_eq!(Syndrome::from(BRK | 2), Syndrome::Brk(2));
    assert_eq!(Syndrome::from(BRK | 0x0123_ABCD), Syndrome::Brk(0xABCD));
    assert_eq!(Syndrome::from(SVC | 1), Syndrome::Svc(1));
    assert_eq!(Syndrome::from(0), Syndrome::Other(0));
    assert_eq!(Syndrome::from(0x9600_0045), Syndrome::Other(0x9600_0045));
}

#[test]
fn pending_interrupts_are_served_in_order() {
    assert_eq!(next_pending(0), None);
    assert_eq!(next_pending(1 << 1), Some(Interrupt::Timer1));
    assert_eq!(next_pending((1 << 57) | (1 << 3)), Some(Interrupt::Timer3));
    assert_eq!(next_pending((1 << 57) | (1 << 49)), Some(Interrupt::Gpio0));
    assert_eq!(next_pending(1 << 9), Some(Interrupt::Usb));
    assert_eq!(next_pending(1 << 52), Some(Interrupt::Gpio3));
    assert_eq!(next_pending(1 << 57), Some(Interrupt::Uart));
    assert_eq!(next_pending(1 << 2), None);
    assert_eq!(Interrupt::Gpio2.number(), 51);
    assert!(Interrupt::Gpio1.is_pending(1 << 50));
    assert!(!Interrupt::Gpio1.is_pending(1 << 51));
}

#[test]
fn exceptions_are_classified() {
    let sync = Info { source: Source::LowerAArch64, kind: Kind::Synchronous };
    let irq = Info { source: Source::LowerAArch64, kind: Kind::Irq };
    assert_eq!(classify(sync, BRK | 7, 0), Exception::Breakpoint(7));
    assert_eq!(classify(sync, SVC | 1, 1 << 1), Exception::Syscall(1));
    assert_eq!(classify(sync, 0, 0), Exception::Unhandled);
    assert_eq!(classify(irq, SVC | 1, 1 << 1), Exception::Timer);
    assert_eq!(classify(irq, 0, 1 << 3), Exception::Unhandled);
    assert_eq!(classify(irq, 0, 0), Exception::Unhandled);
    assert_eq!(classify(Info { source: Source::CurrentSpElx, kind: Kind::Fiq }, BRK, 2), Exception::Unhandled);
    assert_eq!(classify(Info { source: Source::CurrentSpEl0, kind: Kind::SError }, SVC, 2), Exception::Unhandled);
    assert_eq!(Kind::from_number(1), Some(Kind::Irq));
    assert_eq!(Kind::from_number(4), None);
    assert_eq!(Source::from_number(3), Some(Source::LowerAArch32));
    assert_eq!(Source::from_number(9), None);
}

#[test]
fn exceptions_are_handled() {
    let sync = Info { source: Source::LowerAArch64, kind: Kind::Synchronous };
    let irq = Info { source: Source::LowerAArch64, kind: Kind::Irq };
    let mut scheduler = two_processes();
    let mut tf = frame_of(1, 0x8_0000);
    assert_eq!(handle_exception(sync, BRK | 2, &mut tf, &mut scheduler, 0, 0), Handled::DebugShell);
    assert_eq!(tf.elr, 0x8_0004);
    assert_eq!(handle_exception(sync, 0x1234, &mut tf, &mut scheduler, 0, 0), Handled::Halt);
    assert_eq!(handle_exception(sync, SVC | 9, &mut tf, &mut scheduler, 0, 0), Handled::Return(None));
    assert_eq!(tf.x1to29[6], 1);
    match handle_exception(irq, 0, &mut tf, &mut scheduler, 1 << 1, 0) {
        Handled::Tick(tick) => assert_eq!((tick.rearm_in, tick.next), (10_000, Some(2))),
        other => panic!("{:?}", other),
    }
    tf.x0 = 1;
    assert_eq!(handle_exception(sync, SVC | 1, &mut tf, &mut scheduler, 0, 0), Handled::Return(Some(1)));
}

#[test]
fn stacks_come_from_the_allocator() {
    let mut allocator = Allocator::new(0x10_0000, 0x40_0000);
    let stack = Stack::new(&mut allocator).unwrap();
    assert_eq!(stack.base % 16, 0);
    assert_eq!(stack.bottom(), PhysicalAddr(stack.base));
    assert_eq!(stack.top(), PhysicalAddr(stack.base + (1 << 20)));
    assert_eq!(STACK_SIZE, 1 << 20);
    assert_eq!(allocator.allocated_bytes(), 1 << 20);
    let second = Stack::new(&mut allocator).unwrap();
    assert_ne!(second.base, stack.base);
    let third = Stack::new(&mut allocator).unwrap();
    assert!(Stack::new(&mut allocator).is_none());
    second.release(&mut allocator);
    third.release(&mut allocator);
    stack.release(&mut allocator);
    assert_eq!(allocator.allocated_bytes(), 0);
}

#[test]
fn new_process_is_ready_with_zeroed_registers() {
    let mut allocator = Allocator::new(0x10_0000, 0x20_0000);
    let process = Process::new(&mut allocator).unwrap();
    assert_eq!(process.state, State::Ready);
    assert_eq!(process.trap_frame.elr, 0);
    assert_eq!(process.stack.base, 0x10_0000);
    assert!(Process::new(&mut allocator).is_none());
}

#[test]
fn addresses_keep_their_value() {
    assert_eq!(VirtualAddr(0x8000).as_usize(), 0x8000);
    assert_eq!(VirtualAddr(0x8000).as_u64(), 0x8000);
    assert_eq!(PhysicalAddr(0x1234).as_usize(), 0x1234);
    assert_eq!(PhysicalAddr(0x1234).as_u64(), 0x1234);
}
