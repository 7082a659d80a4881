//! Processes and the scheduler that runs them in turn.

pub mod process;
pub mod scheduler;
pub mod stack;
pub mod state;
