//! The devices of the Raspberry Pi, as far as their registers are computed
//! with.

pub mod gpio;
pub mod timer;
pub mod uart;
