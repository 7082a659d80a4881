//! The interface between the file system and the disk under it.

use vstd::prelude::*;
use crate::io;

verus! {

/// A device that is read one sector at a time.
///
/// The file system above is read-only, so the device is described by the
/// bytes it stores: reading never changes them.
pub trait BlockDevice {
    /// Everything the device stores, sector 0 first. A device that is not
    /// described leaves this open.
    open spec fn image(&self) -> Seq<u8> {
        arbitrary()
    }

    /// The size of one sector in bytes, for specifications. A device that is
    /// not described leaves this open.
    open spec fn spec_sector_size(&self) -> u64 {
        arbitrary()
    }

    /// Sector size in bytes.
    fn sector_size(&self) -> (size: u64)
        ensures
            size == self.spec_sector_size(),
    ;

    /// Reads sector number `n` into `buf`: `self.sector_size()` or
    /// `buf.len()` bytes, whichever is less. Returns the number of bytes read.
    ///
    /// A device may fail at any time, with an error that says that it is a
    /// failure of the device. When it succeeds, the sector lies wholly inside
    /// the image and the front of `buf` holds its bytes; the rest of `buf` is
    /// untouched.
    fn read_sector(&mut self, n: u64, buf: &mut [u8]) -> (r: io::Result<usize>)
        ensures
            final(self).image() == old(self).image(),
            final(self).spec_sector_size() == old(self).spec_sector_size(),
            final(buf)@.len() == old(buf)@.len(),
            r matches Err(e) ==> e.is_device(),
            r matches Ok(count) ==> {
                &&& count == if old(self).spec_sector_size() <= old(buf)@.len() {
                    old(self).spec_sector_size() as int
                } else {
                    old(buf)@.len() as int
                }
                &&& (n + 1) * old(self).spec_sector_size() <= old(self).image().len()
                &&& final(buf)@ == old(self).image().subrange(
                    n * old(self).spec_sector_size(),
                    n * old(self).spec_sector_size() + count,
                ) + old(buf)@.subrange(count as int, old(buf)@.len() as int)
            },
    ;
}

/// A disk held in memory: the image is the bytes given, cut into sectors of a
/// fixed size.
pub struct MemoryDisk {
    data: Vec<u8>,
    sector_size: u64,
}

impl MemoryDisk {
    /// A disk of 512-byte sectors holding `data`.
    pub fn new(data: Vec<u8>) -> (disk: MemoryDisk)
        ensures
            disk.image() == data@,
            disk.spec_sector_size() == 512,
    {
        MemoryDisk { data, sector_size: 512 }
    }

    /// A disk holding `data` in sectors of `sector_size` bytes.
    pub fn with_sector_size(data: Vec<u8>, sector_size: u64) -> (disk: MemoryDisk)
        ensures
            disk.image() == data@,
            disk.spec_sector_size() == sector_size,
    {
        MemoryDisk { data, sector_size }
    }
}

impl BlockDevice for MemoryDisk {
    closed spec fn image(&self) -> Seq<u8> {
        self.data@
    }

    closed spec fn spec_sector_size(&self) -> u64 {
        self.sector_size
    }

    fn sector_size(&self) -> (size: u64) {
        self.sector_size
    }

    /// Fails with `UnexpectedEof` exactly when sector `n` does not lie wholly
    /// inside the image.
    fn read_sector(&mut self, n: u64, buf: &mut [u8]) -> (r: io::Result<usize>)
        ensures
            r is Ok <==> (n + 1) * old(self).spec_sector_size() <= old(self).image().len(),
            r matches Err(e) ==> e.kind() == io::ErrorKind::UnexpectedEof && final(buf)@ == old(buf)@,
    {
        let size = self.sector_size;
        let len = self.data.len();
        let start = match n.checked_mul(size) {
            Some(start) => start,
            None => {
                assert((n + 1) * size > len) by (nonlinear_arith)
                    requires
                        n * size > u64::MAX,
                        len <= u64::MAX,
                        size >= 0,
                ;
                return Err(io::Error::device(io::ErrorKind::UnexpectedEof, "sector beyond the image"));
            },
        };
        assert((n + 1) * size == start + size) by (nonlinear_arith)
            requires
                start == n * size,
        ;
        if start > len as u64 || len as u64 - start < size {
            return Err(io::Error::device(io::ErrorKind::UnexpectedEof, "sector beyond the image"));
        }
        let start = start as usize;
        let count = if size <= buf.len() as u64 {
            size as usize
        } else {
            buf.len()
        };
        let mut i: usize = 0;
        while i < count
            invariant
                i <= count,
                count <= buf@.len(),
                buf@.len() == old(buf)@.len(),
                start + count <= self.data@.len(),
                self.data@.len() == len,
                *self == *old(self),
                forall|j: int| 0 <= j < i ==> buf@[j] == self.data@[start + j],
                forall|j: int| i <= j < buf@.len() ==> buf@[j] == old(buf)@[j],
            decreases count - i,
        {
            buf[i] = self.data[start + i];
            i += 1;
        }
        assert(buf@ =~= self.data@.subrange(start as int, start + count) + old(buf)@.subrange(
            count as int,
            old(buf)@.len() as int,
        ));
        Ok(count)
    }
}

} // verus!
