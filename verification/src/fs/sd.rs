//! The SD card controller: what its driver is asked for, and what its
//! answers mean.

use vstd::prelude::*;
use vstd::std_specs::convert::FromSpecImpl;
use crate::io;

verus! {

/// The size in bytes of a sector of the SD card.
pub const SD_SECTOR_SIZE: usize = 512;

/// The largest sector number that the driver takes.
pub const SD_MAX_SECTOR: u64 = 0x7FFF_FFFF;

/// The failures of the SD card controller.
#[derive(Debug, Clone, Copy, PartialEq, Eq, Structural)]
pub enum Error {
    /// A timeout occurred.
    TimedOut,
    /// Sending a command to the controller failed.
    SendingCommandFailed,
    /// Any other failure, with the code that the driver gave.
    UnknownError(i64),
}

/// The kind of I/O error that a failure of the controller is reported as.
pub open spec fn kind_of(error: Error) -> io::ErrorKind {
    match error {
        Error::TimedOut => io::ErrorKind::TimedOut,
        Error::SendingCommandFailed => io::ErrorKind::Other,
        Error::UnknownError(_) => io::ErrorKind::Other,
    }
}

/// The I/O error that a failure of the controller is reported as: a failure
/// of the device, of kind `TimedOut` for a timeout and of kind `Other` for
/// any other failure.
pub open spec fn reported(error: Error) -> io::Error {
    match error {
        Error::TimedOut => io::Error::of(
            io::ErrorKind::TimedOut,
            "SD card operation timed out",
            true,
        ),
        Error::SendingCommandFailed => io::Error::of(
            io::ErrorKind::Other,
            "Sending command to SD card controller failed",
            true,
        ),
        Error::UnknownError(_) => io::Error::of(io::ErrorKind::Other, "Got unknown card error", true),
    }
}

impl Error {
    /// The I/O error that this failure is reported as.
    pub fn into_io(self) -> (error: io::Error)
        ensures
            error == reported(self),
            error.kind() == kind_of(self),
            error.is_device(),
    {
        broadcast use io::Error::lemma_parts;

        match self {
            Error::TimedOut => io::Error::device(
                io::ErrorKind::TimedOut,
                "SD card operation timed out",
            ),
            Error::SendingCommandFailed => io::Error::device(
                io::ErrorKind::Other,
                "Sending command to SD card controller failed",
            ),
            Error::UnknownError(_) => io::Error::device(
                io::ErrorKind::Other,
                "Got unknown card error",
            ),
        }
    }
}

impl From<Error> for io::Error {
    fn from(err: Error) -> (error: io::Error) {
        err.into_io()
    }
}

impl FromSpecImpl<Error> for io::Error {
    open spec fn obeys_from_spec() -> bool {
        true
    }

    open spec fn from_spec(err: Error) -> io::Error {
        reported(err)
    }
}

/// The failure that the error code `code` of the driver stands for: -1 for a
/// timeout, -2 for a command that could not be sent.
pub open spec fn error_of(code: i64) -> Error {
    if code == -1 {
        Error::TimedOut
    } else if code == -2 {
        Error::SendingCommandFailed
    } else {
        Error::UnknownError(code)
    }
}

/// A handle to an SD card controller.
#[derive(Debug, Clone, Copy, PartialEq, Eq, Structural)]
pub struct Sd;

impl Sd {
    /// What the initialization of the controller came to, where `result` is
    /// what the driver returned and `sd_err` the error that it recorded: 0
    /// is success, -1 a timeout, -2 a command that could not be sent, and
    /// for anything else the recorded error tells.
    pub fn new(result: i32, sd_err: i64) -> (r: Result<Sd, Error>)
        ensures
            r == if result == 0 {
                Ok::<Sd, Error>(Sd)
            } else if result == -1 {
                Err(Error::TimedOut)
            } else if result == -2 {
                Err(Error::SendingCommandFailed)
            } else {
                Err(Error::UnknownError(sd_err))
            },
    {
        if result == 0 {
            Ok(Sd)
        } else if result == -1 {
            Err(Error::TimedOut)
        } else if result == -2 {
            Err(Error::SendingCommandFailed)
        } else {
            Err(Error::UnknownError(sd_err))
        }
    }

    /// The failure that the error code `code` of the driver stands for.
    pub fn error(code: i64) -> (error: Error)
        ensures
            error == error_of(code),
    {
        if code == -1 {
            Error::TimedOut
        } else if code == -2 {
            Error::SendingCommandFailed
        } else {
            Error::UnknownError(code)
        }
    }

    /// Checks a request to read sector `n` into a buffer of `len` bytes, and
    /// returns the sector number as the driver takes it.
    ///
    /// An I/O error of kind `InvalidInput` is returned if `len < 512` or
    /// `n > 2^31 - 1` (the maximum value for an `i32`).
    pub fn request(&self, n: u64, len: usize) -> (r: io::Result<i32>)
        ensures
            match r {
                Ok(sector) => len >= SD_SECTOR_SIZE && n <= SD_MAX_SECTOR && sector == n,
                Err(e) => (len < SD_SECTOR_SIZE || n > SD_MAX_SECTOR) && e.kind()
                    == io::ErrorKind::InvalidInput && e.is_device(),
            },
    {
        if len < SD_SECTOR_SIZE || n > SD_MAX_SECTOR {
            return Err(
                io::Error::device(
                    io::ErrorKind::InvalidInput,
                    "read_sector received wrong parameter",
                ),
            );
        }
        Ok(n as i32)
    }

    /// What a read came to, where `result` is what the driver returned and
    /// `sd_err` the error that it recorded: a positive result is the number
    /// of bytes read; else the read failed, with a timeout if the recorded
    /// error is -1 and with an error of kind `Other` for any other.
    pub fn response(&self, result: i32, sd_err: i64) -> (r: io::Result<usize>)
        ensures
            match r {
                Ok(count) => result > 0 && count == result,
                Err(e) => result <= 0 && e.kind() == kind_of(error_of(sd_err)) && e.is_device(),
            },
    {
        if result > 0 {
            Ok(result as usize)
        } else {
            Err(Self::error(sd_err).into_io())
        }
    }
}

/// The number of microseconds that the driver waits when it asks for
/// `micros`: a hundred times as many.
pub fn wait_time(micros: u32) -> (time: u64)
    ensures
        time == micros * 100,
{
    micros as u64 * 100
}

} // verus!
