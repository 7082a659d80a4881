//! The master boot record: sector 0 of a disk, which holds the partition
//! table.

use vstd::prelude::*;
use vstd::std_specs::convert::FromSpecImpl;
use crate::io;
use crate::fat32::traits::BlockDevice;
use crate::fat32::util::{le_u16, le_u32, lemma_le_u32_subrange, read_u16, read_u32};

verus! {

/// The size of the master boot record in bytes.
pub const MBR_SIZE: usize = 512;

/// Where the first partition entry starts.
pub const PARTITION_TABLE_OFFSET: usize = 446;

/// The size of one partition entry in bytes.
pub const PARTITION_ENTRY_SIZE: usize = 16;

/// The signature in the last two bytes of a valid boot sector.
pub const BOOT_SIGNATURE: u16 = 0xAA55;

/// A cylinder/head/sector address, as the partition table stores it.
#[derive(Copy, Clone, Debug, PartialEq, Eq, Structural)]
pub struct CHS {
    pub head: u8,
    pub sector_and_high_cylinder: u8,
    pub low_cylinder: u8,
}

/// One of the four entries of the partition table.
#[derive(Copy, Clone, Debug, PartialEq, Eq, Structural)]
pub struct PartitionEntry {
    /// 0x80 for a bootable partition, 0x00 otherwise.
    pub boot_indicator: u8,
    pub first_sector: CHS,
    /// 0x0B or 0x0C for FAT32.
    pub partition_type: u8,
    pub last_sector: CHS,
    /// The first sector of the partition, counted from the start of the disk.
    pub first_sector_lba: u32,
    pub num_sectors: u32,
}

/// The master boot record (MBR).
#[derive(Copy, Clone, Debug)]
pub struct MasterBootRecord {
    pub partitions: [PartitionEntry; 4],
    pub magic: u16,
}

/// Why a master boot record could not be read.
#[derive(Copy, Clone, Debug)]
pub enum Error {
    /// There was an I/O error while reading the MBR.
    Io(io::Error),
    /// Partition `.0` (0-indexed) contains an invalid or unknown boot indicator.
    UnknownBootIndicator(u8),
    /// The MBR magic signature was invalid.
    BadSignature,
}

impl From<io::Error> for Error {
    fn from(err: io::Error) -> (error: Error) {
        Error::Io(err)
    }
}

impl FromSpecImpl<io::Error> for Error {
    open spec fn obeys_from_spec() -> bool {
        true
    }

    open spec fn from_spec(err: io::Error) -> Error {
        Error::Io(err)
    }
}

/// The partition entry stored at `offset` in `bytes`.
pub open spec fn partition_entry_at(bytes: Seq<u8>, offset: int) -> PartitionEntry {
    PartitionEntry {
        boot_indicator: bytes[offset],
        first_sector: CHS {
            head: bytes[offset + 1],
            sector_and_high_cylinder: bytes[offset + 2],
            low_cylinder: bytes[offset + 3],
        },
        partition_type: bytes[offset + 4],
        last_sector: CHS {
            head: bytes[offset + 5],
            sector_and_high_cylinder: bytes[offset + 6],
            low_cylinder: bytes[offset + 7],
        },
        first_sector_lba: le_u32(bytes, offset + 8) as u32,
        num_sectors: le_u32(bytes, offset + 12) as u32,
    }
}

/// Entry `index` of the partition table in the boot sector `sector`.
pub open spec fn partition_of(sector: Seq<u8>, index: int) -> PartitionEntry {
    partition_entry_at(sector, PARTITION_TABLE_OFFSET + PARTITION_ENTRY_SIZE * index)
}

/// The partition table of an image is that of its first 512 bytes.
pub proof fn lemma_partition_of_front(image: Seq<u8>, index: int)
    requires
        image.len() >= MBR_SIZE,
        0 <= index < 4,
    ensures
        partition_of(image.subrange(0, MBR_SIZE as int), index) == partition_of(image, index),
{
    let offset = PARTITION_TABLE_OFFSET + PARTITION_ENTRY_SIZE * index;
    lemma_le_u32_subrange(image, 0, MBR_SIZE as int, offset + 8);
    lemma_le_u32_subrange(image, 0, MBR_SIZE as int, offset + 12);
}

/// Whether a boot indicator is one of the two known values.
pub open spec fn known_boot_indicator(indicator: u8) -> bool {
    indicator == 0x00 || indicator == 0x80
}

/// Whether a partition type marks a FAT32 partition.
pub open spec fn is_fat32_type(partition_type: u8) -> bool {
    partition_type == 0x0B || partition_type == 0x0C
}

impl PartitionEntry {
    /// Reads the 16-byte partition entry at `offset`.
    pub fn parse(bytes: &[u8], offset: usize) -> (entry: PartitionEntry)
        requires
            offset + PARTITION_ENTRY_SIZE <= bytes@.len(),
        ensures
            entry == partition_entry_at(bytes@, offset as int),
    {
        PartitionEntry {
            boot_indicator: bytes[offset],
            first_sector: CHS {
                head: bytes[offset + 1],
                sector_and_high_cylinder: bytes[offset + 2],
                low_cylinder: bytes[offset + 3],
            },
            partition_type: bytes[offset + 4],
            last_sector: CHS {
                head: bytes[offset + 5],
                sector_and_high_cylinder: bytes[offset + 6],
                low_cylinder: bytes[offset + 7],
            },
            first_sector_lba: read_u32(bytes, offset + 8),
            num_sectors: read_u32(bytes, offset + 12),
        }
    }
}

impl MasterBootRecord {
    /// Whether `self` holds what the boot sector `sector` stores.
    pub open spec fn describes(&self, sector: Seq<u8>) -> bool {
        &&& self.magic == le_u16(sector, 510)
        &&& forall|i: int| 0 <= i < 4 ==> self.partitions[i] == #[trigger] partition_of(sector, i)
    }

    /// Whether the signature and all four boot indicators are valid.
    pub open spec fn valid(&self) -> bool {
        &&& self.magic == BOOT_SIGNATURE
        &&& forall|i: int|
            0 <= i < 4 ==> known_boot_indicator((#[trigger] self.partitions[i]).boot_indicator)
    }

    /// The first FAT32 partition of the table, if there is one.
    pub open spec fn first_vfat_partition(&self) -> Option<int> {
        if is_fat32_type(self.partitions[0].partition_type) {
            Some(0)
        } else if is_fat32_type(self.partitions[1].partition_type) {
            Some(1)
        } else if is_fat32_type(self.partitions[2].partition_type) {
            Some(2)
        } else if is_fat32_type(self.partitions[3].partition_type) {
            Some(3)
        } else {
            None
        }
    }

    /// Interprets `sector` as a master boot record and validates it.
    ///
    /// Returns `Io` (of kind `UnexpectedEof`) unless `sector` has exactly 512
    /// bytes, `BadSignature` if its last two bytes are not 0x55, 0xAA, and
    /// `UnknownBootIndicator(n)` for the first partition `n` whose boot
    /// indicator is neither 0x00 nor 0x80. Otherwise returns the record.
    pub fn parse(sector: &[u8]) -> (r: Result<MasterBootRecord, Error>)
        ensures
            match r {
                Ok(mbr) => sector@.len() == MBR_SIZE && mbr.describes(sector@) && mbr.valid(),
                Err(Error::Io(e)) => sector@.len() != MBR_SIZE && e.kind()
                    == io::ErrorKind::UnexpectedEof && !e.is_device(),
                Err(Error::BadSignature) => sector@.len() == MBR_SIZE && le_u16(sector@, 510)
                    != BOOT_SIGNATURE,
                Err(Error::UnknownBootIndicator(n)) => {
                    &&& sector@.len() == MBR_SIZE
                    &&& le_u16(sector@, 510) == BOOT_SIGNATURE
                    &&& n < 4
                    &&& !known_boot_indicator(partition_of(sector@, n as int).boot_indicator)
                    &&& forall|i: int|
                        0 <= i < n ==> known_boot_indicator(
                            (#[trigger] partition_of(sector@, i)).boot_indicator,
                        )
                },
            },
    {
        if sector.len() != MBR_SIZE {
            return Err(
                Error::Io(
                    io::Error::new(io::ErrorKind::UnexpectedEof, "unable to read 512 bytes of MBR"),
                ),
            );
        }
        let magic = read_u16(sector, 510);
        if magic != BOOT_SIGNATURE {
            return Err(Error::BadSignature);
        }
        let partitions = [
            PartitionEntry::parse(sector, PARTITION_TABLE_OFFSET),
            PartitionEntry::parse(sector, PARTITION_TABLE_OFFSET + PARTITION_ENTRY_SIZE),
            PartitionEntry::parse(sector, PARTITION_TABLE_OFFSET + 2 * PARTITION_ENTRY_SIZE),
            PartitionEntry::parse(sector, PARTITION_TABLE_OFFSET + 3 * PARTITION_ENTRY_SIZE),
        ];
        let mut i: usize = 0;
        while i < 4
            invariant
                i <= 4,
                sector@.len() == MBR_SIZE,
                le_u16(sector@, 510) == BOOT_SIGNATURE,
                forall|j: int| 0 <= j < 4 ==> partitions[j] == #[trigger] partition_of(sector@, j),
                forall|j: int|
                    0 <= j < i ==> known_boot_indicator(
                        (#[trigger] partition_of(sector@, j)).boot_indicator,
                    ),
            decreases 4 - i,
        {
            assert(partitions[i as int] == partition_of(sector@, i as int));
            if partitions[i].boot_indicator != 0x00 && partitions[i].boot_indicator != 0x80 {
                return Err(Error::UnknownBootIndicator(i as u8));
            }
            i += 1;
        }
        let mbr = MasterBootRecord { partitions, magic };
        assert forall|i: int| 0 <= i < 4 implies known_boot_indicator(
            (#[trigger] mbr.partitions[i]).boot_indicator,
        ) by {
            assert(mbr.partitions[i] == partition_of(sector@, i));
        }
        Ok(mbr)
    }

    /// Reads and returns the master boot record (MBR) from `device`.
    ///
    /// Reads sector 0 into a 512-byte buffer. If the device fails, its error
    /// is returned as `Io`. If it hands back fewer than 512 bytes, which it
    /// does if its sectors are smaller, the result is `Io` of kind
    /// `UnexpectedEof`. Otherwise the result is that of
    /// [`MasterBootRecord::parse`] on the first 512 bytes of the image.
    pub fn from<T: BlockDevice>(device: &mut T) -> (r: Result<MasterBootRecord, Error>)
        ensures
            final(device).image() == old(device).image(),
            final(device).spec_sector_size() == old(device).spec_sector_size(),
            match r {
                Ok(mbr) => {
                    &&& old(device).image().len() >= MBR_SIZE
                    &&& old(device).spec_sector_size() >= MBR_SIZE
                    &&& mbr.describes(old(device).image().subrange(0, MBR_SIZE as int))
                    &&& mbr.valid()
                },
                Err(Error::Io(e)) => e.is_device() || (old(device).spec_sector_size() < MBR_SIZE
                    && e.kind() == io::ErrorKind::UnexpectedEof),
                Err(Error::BadSignature) => {
                    &&& old(device).image().len() >= MBR_SIZE
                    &&& old(device).spec_sector_size() >= MBR_SIZE
                    &&& le_u16(old(device).image(), 510) != BOOT_SIGNATURE
                },
                Err(Error::UnknownBootIndicator(n)) => {
                    &&& old(device).image().len() >= MBR_SIZE
                    &&& old(device).spec_sector_size() >= MBR_SIZE
                    &&& le_u16(old(device).image(), 510) == BOOT_SIGNATURE
                    &&& n < 4
                    &&& !known_boot_indicator(
                        partition_of(old(device).image(), n as int).boot_indicator,
                    )
                    &&& forall|i: int|
                        0 <= i < n ==> known_boot_indicator(
                            (#[trigger] partition_of(old(device).image(), i)).boot_indicator,
                        )
                },
            },
    {
        let mut buf: Vec<u8> = vec![0u8; 512];
        let size = match device.read_sector(0, buf.as_mut_slice()) {
            Ok(size) => size,
            Err(e) => {
                return Err(Error::Io(e));
            },
        };
        if size != MBR_SIZE {
            return Err(
                Error::Io(
                    io::Error::new(io::ErrorKind::UnexpectedEof, "unable to read 512 bytes of MBR"),
                ),
            );
        }
        proof {
            let image = old(device).image();
            assert(buf@ =~= image.subrange(0, 512));
            assert(le_u16(buf@, 510) == le_u16(image, 510));
            assert forall|i: int| 0 <= i < 4 implies partition_of(buf@, i) == partition_of(
                image,
                i,
            ) by {}
        }
        MasterBootRecord::parse(buf.as_slice())
    }

    /// The first sector of the first partition whose type is 0x0B or 0x0C
    /// (FAT32), if the table has one.
    pub fn first_vfat_partition_lba(&self) -> (lba: Option<u32>)
        ensures
            match self.first_vfat_partition() {
                Some(i) => lba == Some(self.partitions[i].first_sector_lba),
                None => lba is None,
            },
    {
        let mut i: usize = 0;
        while i < 4
            invariant
                i <= 4,
                forall|j: int|
                    0 <= j < i ==> !is_fat32_type((#[trigger] self.partitions[j]).partition_type),
            decreases 4 - i,
        {
            if self.partitions[i].partition_type == 0xB || self.partitions[i].partition_type == 0xC {
                return Some(self.partitions[i].first_sector_lba);
            }
            i += 1;
        }
        None
    }
}

} // verus!
