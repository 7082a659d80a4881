//! The system timer, which counts microseconds.

use vstd::prelude::*;

verus! {

/// The registers of the system timer.
#[derive(Debug, Clone, Copy)]
pub struct Registers {
    /// Control and status: bit `n` is set while compare register `n`
    /// matches, and is cleared by writing a one to it.
    pub cs: u32,
    /// The low 32 bits of the counter.
    pub clo: u32,
    /// The high 32 bits of the counter.
    pub chi: u32,
    /// The four compare registers.
    pub compare: [u32; 4],
}

/// The bit of compare register 1 in the control and status register.
pub const TIMER1: u32 = 0b0010;

/// The Raspberry Pi ARM system timer, over a copy of its registers.
#[derive(Debug, Clone, Copy)]
pub struct Timer {
    pub registers: Registers,
}

impl Timer {
    /// Returns a new instance of `Timer` over the registers `registers`.
    pub fn new(registers: Registers) -> (timer: Timer)
        ensures
            timer.registers == registers,
    {
        Timer { registers }
    }

    /// Reads the system timer's counter and returns the 64-bit counter
    /// value. The returned value is the number of elapsed microseconds.
    pub fn read(&self) -> (time: u64)
        ensures
            time == 0x1_0000_0000 * self.registers.chi + self.registers.clo,
    {
        let low = self.registers.clo;
        let high = self.registers.chi;
        assert(((high as u64) << 32) | (low as u64) == 0x1_0000_0000 * (high as u64) + (
        low as u64)) by (bit_vector);
        ((high as u64) << 32) | (low as u64)
    }

    /// Sets up a match in timer 1 to occur `us` microseconds from now. If
    /// interrupts for timer 1 are enabled and IRQs are unmasked, then a timer
    /// interrupt will be issued in `us` microseconds.
    ///
    /// Compare register 1 is set to the low half of the counter plus `us`,
    /// which wraps around as the counter does, and the interrupt of timer 1
    /// is cleared.
    pub fn tick_in(&mut self, us: u32)
        ensures
            final(self).registers.compare@ == old(self).registers.compare@.update(
                1,
                ((old(self).registers.clo + us) % 0x1_0000_0000) as u32,
            ),
            final(self).registers.cs == old(self).registers.cs | TIMER1,
            final(self).registers.clo == old(self).registers.clo,
            final(self).registers.chi == old(self).registers.chi,
    {
        let current_low = self.registers.clo;
        let compare = current_low.wrapping_add(us);
        self.registers.compare[1] = compare;
        self.registers.cs = self.registers.cs | TIMER1;
    }
}

/// Whether a sleep of `us` microseconds that began at the time `old` is over
/// at the time `new`.
pub fn spin_sleep_us(us: u64, old: u64, new: u64) -> (over: bool)
    ensures
        over == (old + us <= new),
{
    new >= old && new - old >= us
}

/// Whether a sleep of `ms` milliseconds that began at the time `old` is over
/// at the time `new`; both times are in microseconds.
pub fn spin_sleep_ms(ms: u64, old: u64, new: u64) -> (over: bool)
    ensures
        over == (old + ms * 1000 <= new),
{
    match ms.checked_mul(1000) {
        Some(us) => spin_sleep_us(us, old, new),
        None => false,
    }
}

} // verus!
