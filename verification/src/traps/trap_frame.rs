//! The saved state of the CPU.

use vstd::prelude::*;

verus! {

/// The state of the CPU as it is saved when an exception is taken and
/// restored when the exception returns. The order of the fields is that in
/// which the registers are saved.
#[derive(Debug, Copy, Clone)]
pub struct TrapFrame {
    /// The address to return to.
    pub elr: u64,
    /// The saved program status.
    pub spsr: u64,
    /// The stack pointer of the interrupted code.
    pub sp: u64,
    /// The thread pointer, which holds the ID of the process.
    pub tpidr: u64,
    /// The SIMD and floating-point registers q0 to q31.
    pub q0to31: [u128; 32],
    /// The general registers x1 to x29.
    pub x1to29: [u64; 29],
    /// A slot that keeps the frame aligned.
    pub __r1: u64,
    /// The link register.
    pub x30: u64,
    /// The first argument and result register.
    pub x0: u64,
}

/// The index of register x7 among the registers x1 to x29.
pub const X7: usize = 6;

impl TrapFrame {
    /// Whether every register of the frame is zero.
    pub open spec fn is_zero(&self) -> bool {
        &&& self.elr == 0
        &&& self.spsr == 0
        &&& self.sp == 0
        &&& self.tpidr == 0
        &&& forall|i: int| 0 <= i < 32 ==> self.q0to31[i] == 0
        &&& forall|i: int| 0 <= i < 29 ==> self.x1to29[i] == 0
        &&& self.__r1 == 0
        &&& self.x30 == 0
        &&& self.x0 == 0
    }

    /// Whether `self` is `before` with `x0` in register x0 and `x7` in
    /// register x7, which is how a system call hands back its results.
    pub open spec fn returns_from(&self, before: TrapFrame, x0: u64, x7: u64) -> bool {
        &&& self.elr == before.elr
        &&& self.spsr == before.spsr
        &&& self.sp == before.sp
        &&& self.tpidr == before.tpidr
        &&& self.q0to31 == before.q0to31
        &&& self.x1to29@ == before.x1to29@.update(X7 as int, x7)
        &&& self.__r1 == before.__r1
        &&& self.x30 == before.x30
        &&& self.x0 == x0
    }
}

impl Default for TrapFrame {
    /// A frame in which every register is zero.
    fn default() -> (frame: TrapFrame)
        ensures
            frame.is_zero(),
    {
        TrapFrame {
            elr: 0,
            spsr: 0,
            sp: 0,
            tpidr: 0,
            q0to31: [0u128; 32],
            x1to29: [0u64; 29],
            __r1: 0,
            x30: 0,
            x0: 0,
        }
    }
}

} // verus!
