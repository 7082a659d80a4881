//! The bootloader, which receives a kernel over the serial line and starts
//! it.

use vstd::prelude::*;
use crate::io::ErrorKind;

verus! {

/// Start address of the binary to load.
pub const BINARY_START_ADDR: usize = 0x80000;

/// Start address of the bootloader.
pub const BOOTLOADER_START_ADDR: usize = 0x4000000;

/// Free space between the bootloader and the loaded binary's start address.
pub const MAX_BINARY_SIZE: usize = BOOTLOADER_START_ADDR - BINARY_START_ADDR;

/// The read timeout of the serial line while a binary is awaited, in
/// milliseconds.
pub const READ_TIMEOUT: u32 = 750;

/// What the bootloader does once a transfer has come to an end.
#[derive(Debug, Clone, Copy, PartialEq, Eq, Structural)]
pub enum Next {
    /// Start the binary that was received.
    Jump,
    /// Wait for a transfer again.
    Retry,
    /// Say what went wrong, then wait for a transfer again.
    Report,
}

/// What the bootloader does once a transfer has come to an end, where
/// `failure` is the kind of error it ended with, if any.
///
/// A transfer that succeeds is started. A transfer that times out, or in
/// which what was received is not what was expected, is tried again without
/// a word: no sender may be there yet. Any other failure is reported.
pub fn after_transfer(failure: Option<ErrorKind>) -> (next: Next)
    ensures
        next == match failure {
            None => Next::Jump,
            Some(ErrorKind::TimedOut) => Next::Retry,
            Some(ErrorKind::InvalidData) => Next::Retry,
            Some(_) => Next::Report,
        },
{
    match failure {
        None => Next::Jump,
        Some(ErrorKind::TimedOut) => Next::Retry,
        Some(ErrorKind::InvalidData) => Next::Retry,
        Some(_) => Next::Report,
    }
}

} // verus!
