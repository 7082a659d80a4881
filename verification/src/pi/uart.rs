//! The mini UART.

use vstd::prelude::*;

verus! {

/// The bit of the line status register that is set while a byte can be
/// read.
pub const DATA_READY: u8 = 1;

/// The bit of the line status register that is set while a byte can be
/// written.
pub const TX_AVAILABLE: u8 = 0x20;

/// The Raspberry Pi's "mini UART", over a copy of its line status register.
#[derive(Debug, Clone, Copy, PartialEq, Eq, Structural)]
pub struct MiniUart {
    /// The line status register.
    pub line_status: u8,
    /// The read timeout in milliseconds, if there is one.
    pub timeout: Option<u32>,
}

/// Where waiting for a byte stands.
#[derive(Debug, Clone, Copy, PartialEq, Eq, Structural)]
pub enum Wait {
    /// A byte is ready to be read.
    Ready,
    /// No byte is ready, and the timeout has not expired: look again.
    Pending,
    /// The timeout has expired, whether or not a byte is ready.
    TimedOut,
}

impl MiniUart {
    /// A mini UART with the line status `line_status`. By default, reads
    /// will never time out. To set a read timeout, use `set_read_timeout()`.
    pub fn new(line_status: u8) -> (uart: MiniUart)
        ensures
            uart == (MiniUart { line_status, timeout: None }),
    {
        MiniUart { line_status, timeout: None }
    }

    /// Set the read timeout to `milliseconds` milliseconds.
    pub fn set_read_timeout(&mut self, milliseconds: u32)
        ensures
            final(self).timeout == Some(milliseconds),
            final(self).line_status == old(self).line_status,
    {
        self.timeout = Some(milliseconds)
    }

    /// Returns `true` if there is at least one byte ready to be read.
    pub fn has_byte(&self) -> (b: bool)
        ensures
            b == (self.line_status & DATA_READY == DATA_READY),
    {
        self.line_status & DATA_READY == DATA_READY
    }

    /// Returns `true` if there is space for a byte in the output FIFO.
    pub fn can_write(&self) -> (b: bool)
        ensures
            b == (self.line_status & TX_AVAILABLE == TX_AVAILABLE),
    {
        self.line_status & TX_AVAILABLE == TX_AVAILABLE
    }

    /// Whether the read timeout has expired at the time `now`, if waiting
    /// began at the time `started`: there is a timeout, and the time is later
    /// than the start plus the timeout.
    pub open spec fn expired(&self, started: u64, now: u64) -> bool {
        match self.timeout {
            Some(timeout) => now > started + timeout * 1000,
            None => false,
        }
    }

    /// Where waiting for a byte stands at the time `now`, if it began at the
    /// time `started`; both times are in microseconds.
    ///
    /// The deadline is looked at first: once the time is later than the
    /// start plus the timeout, waiting has timed out, whether or not a byte
    /// is ready. Before that, and without a read timeout, waiting is over as
    /// soon as a byte is ready and goes on until then. No byte is consumed.
    pub fn wait_for_byte(&self, started: u64, now: u64) -> (wait: Wait)
        ensures
            wait == if self.expired(started, now) {
                Wait::TimedOut
            } else if self.line_status & DATA_READY == DATA_READY {
                Wait::Ready
            } else {
                Wait::Pending
            },
    {
        let expired = match self.timeout {
            None => false,
            Some(timeout) => {
                let span = timeout as u64 * 1000;
                now >= started && now - started > span
            },
        };
        if expired {
            Wait::TimedOut
        } else if self.has_byte() {
            Wait::Ready
        } else {
            Wait::Pending
        }
    }
}

/// What is written to the line for the bytes `text`: each byte, with a
/// carriage return before every line feed.
pub open spec fn with_carriage_returns(text: Seq<u8>) -> Seq<u8>
    decreases text.len(),
{
    if text.len() == 0 {
        Seq::empty()
    } else if text.last() == 0x0a {
        with_carriage_returns(text.drop_last()) + seq![0x0du8, 0x0au8]
    } else {
        with_carriage_returns(text.drop_last()).push(text.last())
    }
}

/// Returns what is written to the line for the bytes `text`.
pub fn write_str(text: &[u8]) -> (bytes: Vec<u8>)
    ensures
        bytes@ == with_carriage_returns(text@),
{
    let mut bytes: Vec<u8> = Vec::new();
    let mut i: usize = 0;
    assert(text@.subrange(0, 0) =~= Seq::<u8>::empty());
    while i < text.len()
        invariant
            i <= text@.len(),
            bytes@ == with_carriage_returns(text@.subrange(0, i as int)),
        decreases text@.len() - i,
    {
        proof {
            let next = text@.subrange(0, i + 1);
            assert(next.drop_last() =~= text@.subrange(0, i as int));
            assert(next.last() == text@[i as int]);
        }
        if text[i] == 0x0a {
            let ghost before = bytes@;
            bytes.push(0x0d);
            bytes.push(0x0a);
            assert(bytes@ =~= before + seq![0x0du8, 0x0au8]);
        } else {
            bytes.push(text[i]);
        }
        i += 1;
    }
    assert(text@.subrange(0, text@.len() as int) =~= text@);
    bytes
}

} // verus!
