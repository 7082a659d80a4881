//! What the system registers of the processor say.

use vstd::prelude::*;

verus! {

/// The exception level that the register `CurrentEL` holds: its bits 2 and
/// 3.
pub fn current_el(register: u64) -> (level: u8)
    ensures
        level == (register / 4) % 4,
{
    assert((register & 0b1100) >> 2 == (register / 4) % 4) by (bit_vector);
    ((register & 0b1100) >> 2) as u8
}

/// The stack pointer that the register `SPSel` selects: its lowest bit.
pub fn sp_sel(register: u32) -> (selected: u8)
    ensures
        selected == register % 2,
{
    assert(register & 1 == register % 2) by (bit_vector);
    (register & 1) as u8
}

/// The core that the register `MPIDR_EL1` names: its two lowest bits.
pub fn affinity(register: u64) -> (core: usize)
    ensures
        core == register % 4,
{
    assert(register & 3 == register % 4) by (bit_vector);
    (register & 3) as usize
}

/// Whether a backtrace goes on from the return address `pc` and the frame
/// pointer `fp`: the address lies in the text of the kernel, which reaches
/// from `text_start` to `text_end`, and there is a frame.
pub fn in_backtrace(pc: usize, fp: usize, text_start: usize, text_end: usize) -> (b: bool)
    ensures
        b == (text_start <= pc <= text_end && fp != 0),
{
    pc >= text_start && pc <= text_end && fp != 0
}

} // verus!
