//! Address newtypes.

use vstd::prelude::*;

verus! {

/// A virtual address.
#[derive(Clone, Copy, Debug, PartialEq, Eq, Structural)]
pub struct VirtualAddr(pub usize);

/// A physical address.
#[derive(Clone, Copy, Debug, PartialEq, Eq, Structural)]
pub struct PhysicalAddr(pub usize);

impl VirtualAddr {
    /// Returns the inner address of `self` as a `usize`.
    pub fn as_usize(&self) -> (addr: usize)
        ensures
            addr == self.0,
    {
        self.0
    }

    /// Returns the inner address of `self` as a `u64`.
    pub fn as_u64(&self) -> (addr: u64)
        ensures
            addr == self.0,
    {
        self.0 as u64
    }
}

impl PhysicalAddr {
    /// Returns the inner address of `self` as a `usize`.
    pub fn as_usize(&self) -> (addr: usize)
        ensures
            addr == self.0,
    {
        self.0
    }

    /// Returns the inner address of `self` as a `u64`.
    pub fn as_u64(&self) -> (addr: u64)
        ensures
            addr == self.0,
    {
        self.0 as u64
    }
}

} // verus!
