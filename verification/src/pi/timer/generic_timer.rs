//! The ARM generic timer, which counts at a frequency of its own.

use vstd::prelude::*;

verus! {

/// The number of the interrupt of the physical non-secure timer among the
/// interrupt sources of a core.
pub const CNTPNSIRQ: u32 = 1;

/// The ARM generic timer, over copies of what it is read from.
#[derive(Debug, Clone, Copy, PartialEq, Eq, Structural)]
pub struct Timer {
    /// The frequency of the counter in ticks per second.
    pub frequency: u64,
    /// The counter.
    pub count: u64,
    /// The pending interrupt sources of core 0.
    pub core_irq_source: u32,
}

impl Timer {
    /// Returns a new instance of `Timer` over the values read.
    pub fn new(frequency: u64, count: u64, core_irq_source: u32) -> (timer: Timer)
        ensures
            timer == (Timer { frequency, count, core_irq_source }),
    {
        Timer { frequency, count, core_irq_source }
    }

    /// Reads the counter and returns the number of elapsed microseconds: the
    /// count times a million, divided by the frequency, as far as that fits
    /// in 64 bits.
    pub fn read(&self) -> (time: u64)
        requires
            self.frequency > 0,
        ensures
            time == (self.count * 1000000 / self.frequency as int) % 0x1_0000_0000_0000_0000,
    {
        let micros = self.count as u128 * 1000000 / self.frequency as u128;
        assert(micros & 0xFFFF_FFFF_FFFF_FFFF == micros % 0x1_0000_0000_0000_0000) by (bit_vector);
        (micros & 0xFFFF_FFFF_FFFF_FFFF) as u64
    }

    /// Whether the interrupt of the timer is pending.
    pub fn is_pending(&self) -> (b: bool)
        ensures
            b == (self.core_irq_source & 2 != 0),
    {
        assert(1u32 << 1 == 2) by (bit_vector);
        self.core_irq_source & (1 << CNTPNSIRQ) != 0
    }
}

} // verus!
