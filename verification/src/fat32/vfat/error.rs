//! Why a FAT32 volume could not be opened.

use vstd::prelude::*;
use crate::io;
use crate::fat32::mbr;

verus! {

/// The failures of mounting a volume.
#[derive(Copy, Clone, Debug)]
pub enum Error {
    /// The master boot record could not be read or is invalid.
    Mbr(mbr::Error),
    /// There was an I/O error, or the disk holds no volume that can be used.
    Io(io::Error),
    /// The signature of the BIOS parameter block was invalid.
    BadSignature,
}

} // verus!
