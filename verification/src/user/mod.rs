//! What runs in user mode: the interactive shell.

pub mod files;
pub mod line;
pub mod shell;
