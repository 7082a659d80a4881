//! Exceptions: what is saved when one is taken, and what is done about it.

pub mod exception;
pub mod irq;
pub mod syndrome;
pub mod syscall;
pub mod trap_frame;
