//! Entries of the file allocation table.

use vstd::prelude::*;
use crate::fat32::vfat::cluster::Cluster;

verus! {

/// The meaning of a FAT entry.
#[derive(Debug, PartialEq, Eq, Clone, Copy, Structural)]
pub enum Status {
    /// The FAT entry corresponds to an unused (free) cluster.
    Free,
    /// The FAT entry/cluster is reserved.
    Reserved,
    /// The FAT entry corresponds to a valid data cluster. The next cluster in
    /// the chain is `Cluster`.
    Data(Cluster),
    /// The FAT entry corresponds to a bad (disk failed) cluster.
    Bad,
    /// The FAT entry corresponds to a valid data cluster. The corresponding
    /// cluster is the last in its chain.
    Eoc(u32),
}

/// One 32-bit entry of the file allocation table.
#[derive(Debug, PartialEq, Eq, Clone, Copy, Structural)]
pub struct FatEntry(pub u32);

/// The meaning of the raw FAT entry `raw`: only its low 28 bits count.
pub open spec fn status_of(raw: u32) -> Status {
    let bits = raw as int % 0x1000_0000;
    if bits == 0 {
        Status::Free
    } else if bits == 1 {
        Status::Reserved
    } else if bits <= 0x0FFF_FFEF {
        Status::Data(Cluster(bits as u32))
    } else if bits <= 0x0FFF_FFF6 {
        Status::Reserved
    } else if bits == 0x0FFF_FFF7 {
        Status::Bad
    } else {
        Status::Eoc(raw)
    }
}

impl FatEntry {
    /// Returns the `Status` of the FAT entry `self`.
    pub fn status(&self) -> (status: Status)
        ensures
            status == status_of(self.0),
    {
        let raw = self.0;
        assert(raw & 0x0FFF_FFFF == raw % 0x1000_0000) by (bit_vector);
        let bits = raw & 0x0FFF_FFFF;
        if bits == 0 {
            Status::Free
        } else if bits == 1 {
            Status::Reserved
        } else if bits <= 0x0FFF_FFEF {
            Status::Data(Cluster::from(raw))
        } else if bits <= 0x0FFF_FFF6 {
            Status::Reserved
        } else if bits == 0x0FFF_FFF7 {
            Status::Bad
        } else {
            Status::Eoc(raw)
        }
    }
}

} // verus!
