//! What the exception syndrome register says of a synchronous exception.

use vstd::prelude::*;

verus! {

/// The exception class of a system call from AArch64 code: `SVC`.
pub const EC_SVC: u32 = 0x15;

/// The exception class of a breakpoint instruction in AArch64 code: `BRK`.
pub const EC_BRK: u32 = 0x3C;

/// The cause of a synchronous exception.
#[derive(Debug, Copy, Clone, PartialEq, Eq, Structural)]
pub enum Syndrome {
    /// A breakpoint instruction, with its 16-bit comment.
    Brk(u16),
    /// A system call, with its 16-bit number.
    Svc(u16),
    /// Any other cause, with the value of the syndrome register.
    Other(u32),
}

/// The cause that the value `esr` of the syndrome register stands for. The
/// exception class is in its bits 26 to 31, and the immediate of a `BRK` or
/// `SVC` in its low 16 bits.
pub open spec fn syndrome_of(esr: u32) -> Syndrome {
    let class = esr / 0x400_0000;
    let immediate = (esr % 0x1_0000) as u16;
    if class == EC_BRK {
        Syndrome::Brk(immediate)
    } else if class == EC_SVC {
        Syndrome::Svc(immediate)
    } else {
        Syndrome::Other(esr)
    }
}

impl Syndrome {
    /// Decodes the value `esr` of the exception syndrome register.
    pub fn from(esr: u32) -> (syndrome: Syndrome)
        ensures
            syndrome == syndrome_of(esr),
    {
        assert(esr >> 26 == esr / 0x400_0000 && esr & 0xFFFF == esr % 0x1_0000) by (bit_vector);
        let class = esr >> 26;
        let immediate = (esr & 0xFFFF) as u16;
        if class == EC_BRK {
            Syndrome::Brk(immediate)
        } else if class == EC_SVC {
            Syndrome::Svc(immediate)
        } else {
            Syndrome::Other(esr)
        }
    }
}

} // verus!
