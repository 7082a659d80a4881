//! The two timers of the machine.

pub mod generic_timer;
pub mod system_timer;
