//! The error and seek vocabulary shared by the block-device and file-system
//! layers.

use vstd::prelude::*;

verus! {

/// The category of an I/O failure.
#[derive(Clone, Copy, Debug, PartialEq, Eq, Structural)]
pub enum ErrorKind {
    /// An entity was not found: a missing directory entry, or `..` above the root.
    NotFound,
    /// A parameter was incorrect: a relative path, a seek past the end.
    InvalidInput,
    /// Data read from the disk is malformed: a bad cluster number, a broken or
    /// cyclic cluster chain.
    InvalidData,
    /// The operation's deadline passed.
    TimedOut,
    /// The operation could not complete yet.
    Interrupted,
    /// Fewer bytes were available than a full sector.
    UnexpectedEof,
    /// Any other failure.
    Other,
}

/// An I/O failure: its category, a fixed human-readable message, and
/// whether it is a failure of the device or of what was read from it.
#[derive(Clone, Copy, Debug)]
pub struct Error {
    kind: ErrorKind,
    message: &'static str,
    device: bool,
}

impl Error {
    /// The error of the given kind that carries `message` and is or is not a
    /// failure of a device.
    pub closed spec fn of(kind: ErrorKind, message: &'static str, device: bool) -> Error {
        Error { kind, message, device }
    }

    /// An error is what its kind, its message and its origin say.
    pub broadcast proof fn lemma_parts(kind: ErrorKind, message: &'static str, device: bool)
        ensures
            (#[trigger] Error::of(kind, message, device)).kind() == kind,
            Error::of(kind, message, device).message() == message,
            Error::of(kind, message, device).is_device() == device,
    {
    }

    /// Creates an error of the given kind carrying `message`, for a failure
    /// that is no failure of a device: what was asked for or what was read
    /// is wrong.
    pub fn new(kind: ErrorKind, message: &'static str) -> (e: Error)
        ensures
            e == Error::of(kind, message, false),
            e.kind() == kind,
            e.message() == message,
            !e.is_device(),
    {
        Error { kind, message, device: false }
    }

    /// Creates an error of the given kind carrying `message`, for a failure
    /// of a device: the device could not do what it was asked for.
    pub fn device(kind: ErrorKind, message: &'static str) -> (e: Error)
        ensures
            e == Error::of(kind, message, true),
            e.kind() == kind,
            e.message() == message,
            e.is_device(),
    {
        Error { kind, message, device: true }
    }

    /// Whether this is a failure of a device.
    #[verifier::when_used_as_spec(spec_is_device)]
    pub fn is_device(&self) -> (b: bool)
        ensures
            b == self.spec_is_device(),
    {
        self.device
    }

    /// Whether this is a failure of a device, for specifications.
    pub closed spec fn spec_is_device(&self) -> bool {
        self.device
    }

    /// The category of this error.
    #[verifier::when_used_as_spec(spec_kind)]
    pub fn kind(&self) -> (k: ErrorKind)
        ensures
            k == self.spec_kind(),
    {
        self.kind
    }

    /// The category of this error, for specifications.
    pub closed spec fn spec_kind(&self) -> ErrorKind {
        self.kind
    }

    /// The message given when the error was created.
    #[verifier::when_used_as_spec(spec_message)]
    pub fn message(&self) -> (m: &'static str)
        ensures
            m == self.spec_message(),
    {
        self.message
    }

    /// The message of this error, for specifications.
    pub closed spec fn spec_message(&self) -> &'static str {
        self.message
    }
}

/// The outcome of an I/O operation.
pub type Result<T> = core::result::Result<T, Error>;

/// A position to seek to, relative to the start, the end or the current
/// offset of a file.
#[derive(Clone, Copy, Debug, PartialEq, Eq, Structural)]
pub enum SeekFrom {
    /// An offset in bytes from the start.
    Start(u64),
    /// An offset in bytes from the end; negative values lie inside the file.
    End(i64),
    /// An offset in bytes from the current position.
    Current(i64),
}

} // verus!
