//! The file system of the machine.

pub mod sd;
pub mod system;
