//! A block device behind a cache of sectors, which also maps the logical
//! sectors of a partition to the physical sectors of the device.

use vstd::prelude::*;
use std::collections::HashMap;
use crate::io;
use crate::fat32::traits::BlockDevice;

verus! {

/// One cached sector.
#[derive(Debug)]
pub struct CacheEntry {
    pub data: Vec<u8>,
    pub dirty: bool,
}

/// Where a partition lies and how large its sectors are.
#[derive(Debug, Clone, Copy, PartialEq, Eq, Structural)]
pub struct Partition {
    /// The physical sector where the partition begins.
    pub start: u64,
    /// The size, in bytes, of a logical sector in the partition.
    pub sector_size: u64,
}

/// A block device whose sectors are read once and then kept in memory.
///
/// A sector `n` before `partition.start` is physical sector `n` of the
/// device. A sector `n` at or after `partition.start` is the logical sector
/// `n - partition.start` of the partition: it has `partition.sector_size`
/// bytes and is made of consecutive physical sectors. The cache never evicts.
pub struct CachedDevice<D: BlockDevice> {
    device: D,
    cache: HashMap<u64, CacheEntry>,
    partition: Partition,
}

/// The first physical sector and the number of physical sectors that make up
/// sector `virt`, where a logical sector of the partition starting at
/// physical sector `start` takes `factor` physical sectors.
pub open spec fn physical_sectors(start: u64, factor: int, virt: u64) -> (int, int) {
    if virt < start {
        (virt as int, 1)
    } else {
        (start + (virt - start) * factor, factor)
    }
}

/// `HashMap::get_mut` returns a mutable reference to the value stored under
/// the key, if there is one; what is written through it is what the map then
/// holds under that key, and nothing else in the map changes.
#[verifier::external_body]
fn cache_entry_mut(cache: &mut HashMap<u64, CacheEntry>, sector: u64) -> (entry: Option<
    &mut CacheEntry,
>)
    ensures
        match entry {
            Some(e) => {
                &&& old(cache)@.contains_key(sector)
                &&& *e == old(cache)@[sector]
                &&& final(cache)@ == old(cache)@.insert(sector, *final(e))
            },
            None => !old(cache)@.contains_key(sector) && final(cache)@ == old(cache)@,
        },
{
    cache.get_mut(&sector)
}

impl<D: BlockDevice> CachedDevice<D> {
    /// Everything the underlying device stores.
    pub closed spec fn image(&self) -> Seq<u8> {
        self.device.image()
    }

    /// The size of a physical sector of the underlying device.
    pub closed spec fn physical_sector_size(&self) -> u64 {
        self.device.spec_sector_size()
    }

    /// The partition that the device was opened with.
    pub closed spec fn partition(&self) -> Partition {
        self.partition
    }

    /// The number of physical sectors in a logical sector.
    pub open spec fn factor(&self) -> int {
        self.partition().sector_size as int / self.physical_sector_size() as int
    }

    /// The first physical sector of sector `virt` and the number of physical
    /// sectors it takes.
    pub open spec fn spec_virtual_to_physical(&self, virt: u64) -> (int, int) {
        physical_sectors(self.partition().start, self.factor(), virt)
    }

    /// The offset in the image at which sector `virt` starts.
    pub open spec fn sector_offset(&self, virt: u64) -> int {
        self.spec_virtual_to_physical(virt).0 * self.physical_sector_size()
    }

    /// The size in bytes of sector `virt`: a physical sector before the
    /// partition, a logical sector inside it.
    pub open spec fn sector_len(&self, virt: u64) -> int {
        self.spec_virtual_to_physical(virt).1 * self.physical_sector_size()
    }

    /// Whether the numbers of all physical sectors of sector `virt` fit in 64
    /// bits.
    pub open spec fn addressable(&self, virt: u64) -> bool {
        self.spec_virtual_to_physical(virt).0 + self.spec_virtual_to_physical(virt).1 - 1
            <= u64::MAX
    }

    /// Whether sector `virt` lies wholly inside the image.
    pub open spec fn sector_in_image(&self, virt: u64) -> bool {
        self.sector_offset(virt) + self.sector_len(virt) <= self.image().len()
    }

    /// The bytes that the image holds for sector `virt`.
    pub open spec fn sector_data(&self, virt: u64) -> Seq<u8> {
        self.image().subrange(
            self.sector_offset(virt),
            self.sector_offset(virt) + self.sector_len(virt),
        )
    }

    /// Whether sector `virt` is in the cache.
    pub closed spec fn cached(&self, virt: u64) -> bool {
        self.cache@.contains_key(virt)
    }

    /// Whether sector `virt` is in the cache and was handed out for writing.
    pub closed spec fn dirty(&self, virt: u64) -> bool {
        self.cache@.contains_key(virt) && self.cache@[virt].dirty
    }

    /// What the cache holds for sector `virt`.
    pub closed spec fn cached_data(&self, virt: u64) -> Seq<u8> {
        self.cache@[virt].data@
    }

    /// Whether no sector was ever handed out for writing.
    pub open spec fn clean(&self) -> bool {
        forall|virt: u64| !self.dirty(virt)
    }

    /// The invariant of the device: the logical sector size is a positive
    /// multiple of the physical sector size and fits in memory, and every
    /// cached sector that was not handed out for writing holds what the image
    /// holds for it.
    pub closed spec fn wf(&self) -> bool {
        &&& self.device.spec_sector_size() > 0
        &&& self.partition.sector_size >= self.device.spec_sector_size()
        &&& self.partition.sector_size % self.device.spec_sector_size() == 0
        &&& self.partition.sector_size <= usize::MAX
        &&& forall|virt: u64| #[trigger]
            self.cache@.contains_key(virt) ==> {
                &&& self.sector_in_image(virt)
                &&& self.cache@[virt].data@.len() == self.sector_len(virt)
                &&& !self.cache@[virt].dirty ==> self.cache@[virt].data@ == self.sector_data(virt)
            }
    }

    /// What the invariant says of the sector sizes.
    pub proof fn lemma_sector_sizes(&self)
        requires
            self.wf(),
        ensures
            self.physical_sector_size() > 0,
            self.partition().sector_size == self.factor() * self.physical_sector_size(),
            self.factor() >= 1,
            self.partition().sector_size <= usize::MAX,
    {
        let p = self.partition.sector_size as int;
        let d = self.device.spec_sector_size() as int;
        assert(p == (p / d) * d && p / d >= 1) by (nonlinear_arith)
            requires
                d > 0,
                p >= d,
                p % d == 0,
        ;
    }

    /// Only a cached sector is dirty: a sector that is not in the cache was
    /// not handed out for writing.
    pub proof fn lemma_dirty_is_cached(&self, virt: u64)
        ensures
            self.dirty(virt) ==> self.cached(virt),
    {
    }

    /// What the invariant says of a cached sector.
    pub proof fn lemma_cached_sector(&self, virt: u64)
        requires
            self.wf(),
            self.cached(virt),
        ensures
            self.sector_in_image(virt),
            self.cached_data(virt).len() == self.sector_len(virt),
            !self.dirty(virt) ==> self.cached_data(virt) == self.sector_data(virt),
    {
    }

    /// Creates a new `CachedDevice` that transparently caches sectors from
    /// `device` and maps physical sectors to logical sectors inside of
    /// `partition`.
    ///
    /// `partition.sector_size` must be a positive integer multiple of
    /// `device.sector_size()`.
    pub fn new(device: D, partition: Partition) -> (cached: CachedDevice<D>)
        requires
            device.spec_sector_size() > 0,
            partition.sector_size >= device.spec_sector_size(),
            partition.sector_size % device.spec_sector_size() == 0,
            partition.sector_size <= usize::MAX,
        ensures
            cached.wf(),
            cached.clean(),
            cached.image() == device.image(),
            cached.physical_sector_size() == device.spec_sector_size(),
            cached.partition() == partition,
            forall|virt: u64| !cached.cached(virt),
    {
        CachedDevice { device, cache: HashMap::new(), partition }
    }

    /// The size of a logical sector of the partition.
    pub fn sector_size(&self) -> (size: u64)
        ensures
            size == self.partition().sector_size,
    {
        self.partition.sector_size
    }

    /// Whether sector `sector` is in the cache.
    pub fn is_cached(&self, sector: u64) -> (b: bool)
        ensures
            b == self.cached(sector),
    {
        broadcast use vstd::std_specs::hash::group_hash_axioms;

        self.cache.contains_key(&sector)
    }

    /// Maps a request for a sector `virt` to the first physical sector and
    /// the number of physical sectors that hold it.
    ///
    /// Fails with `InvalidInput` exactly when the number of the physical
    /// sector does not fit in 64 bits.
    pub fn virtual_to_physical(&self, virt: u64) -> (r: io::Result<(u64, u64)>)
        requires
            self.wf(),
        ensures
            match r {
                Ok((sector, count)) => (sector as int, count as int)
                    == self.spec_virtual_to_physical(virt),
                Err(e) => e.kind() == io::ErrorKind::InvalidInput && !e.is_device()
                    && self.spec_virtual_to_physical(virt).0 > u64::MAX,
            },
    {
        proof {
            self.lemma_sector_sizes();
        }
        if virt < self.partition.start {
            Ok((virt, 1))
        } else {
            let size = self.device.sector_size();
            let factor = self.partition.sector_size / size;
            let logical_offset = virt - self.partition.start;
            let sector = match logical_offset.checked_mul(factor) {
                Some(physical_offset) => self.partition.start.checked_add(physical_offset),
                None => None,
            };
            match sector {
                Some(sector) => Ok((sector, factor)),
                None => Err(io::Error::new(io::ErrorKind::InvalidInput, "sector out of range")),
            }
        }
    }

    /// Returns a reference to the cached sector `sector`. If the sector is not
    /// already cached, the sector is first read from the disk.
    ///
    /// A sector that is cached is returned without reading, so this cannot
    /// fail for it. Else every physical sector behind it is read, and the
    /// first error of the device is returned.
    pub fn get(&mut self, sector: u64) -> (r: io::Result<&[u8]>)
        requires
            old(self).wf(),
        ensures
            final(self).wf(),
            final(self).image() == old(self).image(),
            final(self).physical_sector_size() == old(self).physical_sector_size(),
            final(self).partition() == old(self).partition(),
            forall|virt: u64| old(self).cached(virt) ==> final(self).cached(virt),
            forall|virt: u64| final(self).dirty(virt) == old(self).dirty(virt),
            forall|virt: u64|
                old(self).cached(virt) ==> final(self).cached_data(virt) == old(self).cached_data(
                    virt,
                ),
            old(self).cached(sector) ==> r is Ok,
            r matches Ok(data) ==> {
                &&& final(self).cached(sector)
                &&& old(self).sector_in_image(sector)
                &&& data@ == final(self).cached_data(sector)
                &&& data@.len() == old(self).sector_len(sector)
                &&& !old(self).dirty(sector) ==> data@ == old(self).sector_data(sector)
            },
            r matches Err(e) ==> {
                &&& !final(self).cached(sector)
                &&& forall|virt: u64| final(self).cached(virt) == old(self).cached(virt)
                &&& e.is_device() || (e.kind() == io::ErrorKind::InvalidInput
                    && !old(self).addressable(sector))
            },
            !old(self).cached(sector) && old(self).spec_virtual_to_physical(sector).0 > u64::MAX
                ==> (r matches Err(e) && e.kind() == io::ErrorKind::InvalidInput && !e.is_device()),
    {
        broadcast use vstd::std_specs::hash::group_hash_axioms;

        if !self.cache.contains_key(&sector) {
            let data = self.read_through(sector)?;
            self.cache.insert(sector, CacheEntry { data, dirty: false });
        }
        match self.cache.get(&sector) {
            Some(entry) => Ok(entry.data.as_slice()),
            None => unreached(),
        }
    }

    /// Reads sector `sector` from the device, one physical sector after the
    /// other.
    fn read_through(&mut self, sector: u64) -> (r: io::Result<Vec<u8>>)
        requires
            old(self).wf(),
        ensures
            final(self).wf(),
            final(self).image() == old(self).image(),
            final(self).physical_sector_size() == old(self).physical_sector_size(),
            final(self).partition() == old(self).partition(),
            final(self).cache == old(self).cache,
            r matches Ok(data) ==> {
                &&& old(self).sector_in_image(sector)
                &&& data@ == old(self).sector_data(sector)
            },
            r matches Err(e) ==> e.is_device() || (e.kind() == io::ErrorKind::InvalidInput
                && !old(self).addressable(sector)),
            old(self).spec_virtual_to_physical(sector).0 > u64::MAX ==> (r matches Err(e)
                && e.kind() == io::ErrorKind::InvalidInput && !e.is_device()),
    {
        proof {
            self.lemma_sector_sizes();
        }
        let (first, count) = self.virtual_to_physical(sector)?;
        let size = self.device.sector_size();
        assert(size <= usize::MAX);
        let size = size as usize;
        let ghost image = self.device.image();
        let ghost start = first * size;
        let mut data: Vec<u8> = Vec::new();
        let mut i: u64 = 0;
        while i < count
            invariant
                i <= count,
                size > 0,
                size == self.device.spec_sector_size(),
                size == old(self).device.spec_sector_size(),
                start == first * size,
                image == self.device.image(),
                image == old(self).device.image(),
                self.cache == old(self).cache,
                self.partition == old(self).partition,
                self.wf(),
                count >= 1,
                (first as int, count as int) == old(self).spec_virtual_to_physical(sector),
                i == 0 ==> data@.len() == 0,
                i > 0 ==> start + i * size <= image.len() && data@ == image.subrange(
                    start,
                    start + i * size,
                ),
            decreases count - i,
        {
            let physical = match first.checked_add(i) {
                Some(physical) => physical,
                None => {
                    return Err(io::Error::new(io::ErrorKind::InvalidInput, "sector out of range"));
                },
            };
            let mut buf: Vec<u8> = vec![0u8; size];
            let read = self.device.read_sector(physical, buf.as_mut_slice())?;
            assert(read == size);
            let ghost before = data@;
            data.extend_from_slice(buf.as_slice());
            proof {
                assert((physical + 1) * size == start + i * size + size && physical * size == start
                    + i * size && (i + 1) * size == i * size + size) by (nonlinear_arith)
                    requires
                        physical == first + i,
                        start == first * size,
                ;
                assert(buf@ =~= image.subrange(start + i * size, start + i * size + size));
                assert(data@ =~= image.subrange(start, start + (i + 1) * size));
            }
            i += 1;
        }
        Ok(data)
    }

    /// Returns a mutable reference to the cached sector `sector`. If the
    /// sector is not already cached, the sector is first read from the disk.
    ///
    /// The sector is marked dirty as a result of calling this method as it is
    /// presumed that the sector will be written to; nothing is ever written
    /// back to the device. If this is not intended, use `get()` instead.
    ///
    /// If the sector cannot be read, the cache is left as it was: the sector
    /// is neither cached nor dirty.
    pub fn get_mut(&mut self, sector: u64) -> (r: io::Result<&mut [u8]>)
        requires
            old(self).wf(),
        ensures
            final(self).image() == old(self).image(),
            final(self).physical_sector_size() == old(self).physical_sector_size(),
            final(self).partition() == old(self).partition(),
            old(self).cached(sector) ==> r is Ok,
            match r {
                Ok(data) => {
                    &&& old(self).sector_in_image(sector)
                    &&& data@.len() == old(self).sector_len(sector)
                    &&& old(self).cached(sector) ==> data@ == old(self).cached_data(sector)
                    &&& !old(self).dirty(sector) ==> data@ == old(self).sector_data(sector)
                    &&& final(self).dirty(sector)
                    &&& final(self).cached_data(sector) == final(data)@
                    &&& final(data)@.len() == data@.len() ==> final(self).wf()
                    &&& forall|virt: u64|
                        virt != sector ==> final(self).dirty(virt) == old(self).dirty(virt)
                    &&& forall|virt: u64|
                        old(self).cached(virt) || virt == sector <==> final(self).cached(virt)
                },
                Err(e) => {
                    &&& final(self).wf()
                    &&& !final(self).cached(sector)
                    &&& forall|virt: u64| final(self).cached(virt) == old(self).cached(virt)
                    &&& forall|virt: u64| final(self).dirty(virt) == old(self).dirty(virt)
                    &&& e.is_device() || (e.kind() == io::ErrorKind::InvalidInput
                        && !old(self).addressable(sector))
                },
            },
            !old(self).cached(sector) && old(self).spec_virtual_to_physical(sector).0 > u64::MAX
                ==> (r matches Err(e) && e.kind() == io::ErrorKind::InvalidInput && !e.is_device()),
    {
        broadcast use vstd::std_specs::hash::group_hash_axioms;

        if !self.cache.contains_key(&sector) {
            let data = self.read_through(sector)?;
            self.cache.insert(sector, CacheEntry { data, dirty: false });
        }
        proof {
            self.lemma_cached_sector(sector);
        }
        match cache_entry_mut(&mut self.cache, sector) {
            Some(entry) => {
                entry.dirty = true;
                Ok(entry.data.as_mut_slice())
            },
            None => unreached(),
        }
    }

    /// Copies sector `n` into `buf`: the sector's bytes or `buf.len()` bytes,
    /// whichever is less. Returns the number of bytes copied.
    ///
    /// The sector is taken from the cache, and read from the disk first if
    /// it is not cached yet, as `get()` does.
    pub fn read_sector(&mut self, n: u64, buf: &mut [u8]) -> (r: io::Result<usize>)
        requires
            old(self).wf(),
        ensures
            final(self).wf(),
            final(self).image() == old(self).image(),
            final(self).physical_sector_size() == old(self).physical_sector_size(),
            final(self).partition() == old(self).partition(),
            forall|virt: u64| old(self).cached(virt) ==> final(self).cached(virt),
            forall|virt: u64| final(self).dirty(virt) == old(self).dirty(virt),
            forall|virt: u64|
                old(self).cached(virt) ==> final(self).cached_data(virt) == old(self).cached_data(
                    virt,
                ),
            final(buf)@.len() == old(buf)@.len(),
            old(self).cached(n) ==> r is Ok,
            match r {
                Ok(count) => {
                    let data = final(self).cached_data(n);
                    &&& final(self).cached(n)
                    &&& old(self).sector_in_image(n)
                    &&& !old(self).dirty(n) ==> data == old(self).sector_data(n)
                    &&& count == if data.len() <= old(buf)@.len() {
                        data.len()
                    } else {
                        old(buf)@.len()
                    }
                    &&& final(buf)@.subrange(0, count as int) == data.subrange(0, count as int)
                    &&& forall|j: int| count <= j < old(buf)@.len() ==> final(buf)@[j] == old(buf)@[j]
                },
                Err(e) => {
                    &&& final(buf)@ == old(buf)@
                    &&& !final(self).cached(n)
                    &&& forall|virt: u64| final(self).cached(virt) == old(self).cached(virt)
                    &&& e.is_device() || (e.kind() == io::ErrorKind::InvalidInput
                        && !old(self).addressable(n))
                },
            },
            !old(self).cached(n) && old(self).spec_virtual_to_physical(n).0 > u64::MAX
                ==> (r matches Err(e) && e.kind() == io::ErrorKind::InvalidInput && !e.is_device()),
    {
        let data = self.get(n)?;
        let count = if data.len() <= buf.len() {
            data.len()
        } else {
            buf.len()
        };
        let mut i: usize = 0;
        while i < count
            invariant
                i <= count,
                count <= buf@.len(),
                count <= data@.len(),
                buf@.len() == old(buf)@.len(),
                forall|j: int| 0 <= j < i ==> buf@[j] == data@[j],
                forall|j: int| i <= j < buf@.len() ==> buf@[j] == old(buf)@[j],
            decreases count - i,
        {
            buf[i] = data[i];
            i += 1;
        }
        assert(buf@.subrange(0, count as int) =~= data@.subrange(0, count as int));
        Ok(count)
    }
}

} // verus!
