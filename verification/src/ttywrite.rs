//! The settings of the serial line, as they are given on the command line of
//! the tool that writes to it.

use vstd::prelude::*;
use crate::text::{parse_number, parsed_number, same_text};

verus! {

/// The number of bytes in a packet of a transfer.
pub const PACKET_SIZE: u64 = 128;

/// How the flow of data on the line is controlled.
#[derive(Debug, Clone, Copy, PartialEq, Eq, Structural)]
pub enum FlowControl {
    /// Not at all.
    FlowNone,
    /// By characters in the data.
    FlowSoftware,
    /// By lines of their own.
    FlowHardware,
}

/// The number of data bits that `text` names: 5, 6, 7 or 8.
pub open spec fn width_of(text: Seq<char>) -> Option<u8> {
    match parsed_number(text) {
        Some(width) => if 5 <= width <= 8 {
            Some(width as u8)
        } else {
            None
        },
        None => None,
    }
}

/// Reads `text` as the number of data bits of a character: 5, 6, 7 or 8.
pub fn parse_width(text: &str) -> (width: Option<u8>)
    ensures
        width == width_of(text@),
{
    match parse_number(text) {
        Some(width) if width >= 5 && width <= 8 => Some(width as u8),
        _ => None,
    }
}

/// The number of stop bits that `text` names: 1 or 2.
pub open spec fn stop_bits_of(text: Seq<char>) -> Option<u8> {
    match parsed_number(text) {
        Some(bits) => if 1 <= bits <= 2 {
            Some(bits as u8)
        } else {
            None
        },
        None => None,
    }
}

/// Reads `text` as a number of stop bits: 1 or 2.
pub fn parse_stop_bits(text: &str) -> (bits: Option<u8>)
    ensures
        bits == stop_bits_of(text@),
{
    match parse_number(text) {
        Some(bits) if bits >= 1 && bits <= 2 => Some(bits as u8),
        _ => None,
    }
}

/// The flow control that `text` names.
pub open spec fn flow_control_of(text: Seq<char>) -> Option<FlowControl> {
    if text == "none"@ {
        Some(FlowControl::FlowNone)
    } else if text == "software"@ {
        Some(FlowControl::FlowSoftware)
    } else if text == "hardware"@ {
        Some(FlowControl::FlowHardware)
    } else {
        None
    }
}

/// Reads `text` as a flow control: `none`, `software` or `hardware`.
pub fn parse_flow_control(text: &str) -> (flow: Option<FlowControl>)
    ensures
        flow == flow_control_of(text@),
{
    if same_text(text, "none") {
        Some(FlowControl::FlowNone)
    } else if same_text(text, "software") {
        Some(FlowControl::FlowSoftware)
    } else if same_text(text, "hardware") {
        Some(FlowControl::FlowHardware)
    } else {
        None
    }
}

/// The baud rate that `text` names: a number that fits in the size of an
/// address.
pub open spec fn baud_rate_of(text: Seq<char>) -> Option<usize> {
    match parsed_number(text) {
        Some(speed) => if speed <= usize::MAX {
            Some(speed as usize)
        } else {
            None
        },
        None => None,
    }
}

/// Reads `text` as a baud rate.
pub fn parse_baud_rate(text: &str) -> (speed: Option<usize>)
    ensures
        speed == baud_rate_of(text@),
{
    match parse_number(text) {
        Some(speed) if speed <= usize::MAX as u64 => Some(speed as usize),
        _ => None,
    }
}

/// The number of bytes sent once one more packet has gone out, which counts
/// no further than 64 bits reach.
pub fn progress(bytes_sent: u64) -> (sent: u64)
    ensures
        sent == if bytes_sent + PACKET_SIZE <= u64::MAX {
            bytes_sent + PACKET_SIZE
        } else {
            u64::MAX as int
        },
{
    bytes_sent.saturating_add(PACKET_SIZE)
}

} // verus!
