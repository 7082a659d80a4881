//! The FAT32 extended BIOS parameter block.

use vstd::prelude::*;
use crate::io;
use crate::fat32::mbr::BOOT_SIGNATURE;
use crate::fat32::traits::BlockDevice;
use crate::fat32::util::{le_u16, le_u32, read_u16, read_u32};
use crate::fat32::vfat::error::Error;

verus! {

/// The size of the parameter block in bytes.
pub const EBPB_SIZE: usize = 512;

/// The numeric fields of the extended BIOS parameter block, which is the
/// first sector of a FAT32 partition.
#[derive(Copy, Clone, Debug, PartialEq, Eq, Structural)]
pub struct BiosParameterBlock {
    pub bytes_per_sector: u16,
    pub sectors_per_cluster: u8,
    pub reserved_sectors: u16,
    pub number_of_fats: u8,
    /// Always 0 in FAT32.
    pub max_directory_entries: u16,
    /// 0 in FAT32, which uses `total_logical_sectors_2`.
    pub total_logical_sectors: u16,
    pub media_descriptor: u8,
    /// 0 in FAT32, which uses `sectors_per_fat_2`.
    pub sectors_per_fat: u16,
    pub sectors_per_track: u16,
    pub number_of_heads: u16,
    pub hidden_sectors: u32,
    pub total_logical_sectors_2: u32,
    pub sectors_per_fat_2: u32,
    pub flags: u16,
    pub version: u16,
    pub root_directory_cluster: u32,
    pub location_of_fs_information_sector: u16,
    pub location_of_backup_sector: u16,
    pub physical_drive_number: u8,
    /// 0x28 or 0x29.
    pub signature: u8,
    pub volume_serial_number: u32,
    pub magic: u16,
}

/// The parameter block stored in the 512-byte sector `sector`.
pub open spec fn ebpb_of(sector: Seq<u8>) -> BiosParameterBlock {
    BiosParameterBlock {
        bytes_per_sector: le_u16(sector, 11) as u16,
        sectors_per_cluster: sector[13],
        reserved_sectors: le_u16(sector, 14) as u16,
        number_of_fats: sector[16],
        max_directory_entries: le_u16(sector, 17) as u16,
        total_logical_sectors: le_u16(sector, 19) as u16,
        media_descriptor: sector[21],
        sectors_per_fat: le_u16(sector, 22) as u16,
        sectors_per_track: le_u16(sector, 24) as u16,
        number_of_heads: le_u16(sector, 26) as u16,
        hidden_sectors: le_u32(sector, 28) as u32,
        total_logical_sectors_2: le_u32(sector, 32) as u32,
        sectors_per_fat_2: le_u32(sector, 36) as u32,
        flags: le_u16(sector, 40) as u16,
        version: le_u16(sector, 42) as u16,
        root_directory_cluster: le_u32(sector, 44) as u32,
        location_of_fs_information_sector: le_u16(sector, 48) as u16,
        location_of_backup_sector: le_u16(sector, 50) as u16,
        physical_drive_number: sector[64],
        signature: sector[66],
        volume_serial_number: le_u32(sector, 67) as u32,
        magic: le_u16(sector, 510) as u16,
    }
}

impl BiosParameterBlock {
    /// Interprets `sector` as a parameter block and checks its signature.
    ///
    /// Returns `Io` (of kind `UnexpectedEof`) unless `sector` has exactly 512
    /// bytes, and `BadSignature` unless its last two bytes are 0x55, 0xAA.
    pub fn parse(sector: &[u8]) -> (r: Result<BiosParameterBlock, Error>)
        ensures
            match r {
                Ok(ebpb) => sector@.len() == EBPB_SIZE && ebpb == ebpb_of(sector@) && ebpb.magic
                    == BOOT_SIGNATURE,
                Err(Error::Io(e)) => sector@.len() != EBPB_SIZE && e.kind()
                    == io::ErrorKind::UnexpectedEof && !e.is_device(),
                Err(Error::BadSignature) => sector@.len() == EBPB_SIZE && le_u16(sector@, 510)
                    != BOOT_SIGNATURE,
                Err(Error::Mbr(_)) => false,
            },
    {
        if sector.len() != EBPB_SIZE {
            return Err(
                Error::Io(
                    io::Error::new(io::ErrorKind::UnexpectedEof, "unable to read 512 bytes of EBPB"),
                ),
            );
        }
        let ebpb = BiosParameterBlock {
            bytes_per_sector: read_u16(sector, 11),
            sectors_per_cluster: sector[13],
            reserved_sectors: read_u16(sector, 14),
            number_of_fats: sector[16],
            max_directory_entries: read_u16(sector, 17),
            total_logical_sectors: read_u16(sector, 19),
            media_descriptor: sector[21],
            sectors_per_fat: read_u16(sector, 22),
            sectors_per_track: read_u16(sector, 24),
            number_of_heads: read_u16(sector, 26),
            hidden_sectors: read_u32(sector, 28),
            total_logical_sectors_2: read_u32(sector, 32),
            sectors_per_fat_2: read_u32(sector, 36),
            flags: read_u16(sector, 40),
            version: read_u16(sector, 42),
            root_directory_cluster: read_u32(sector, 44),
            location_of_fs_information_sector: read_u16(sector, 48),
            location_of_backup_sector: read_u16(sector, 50),
            physical_drive_number: sector[64],
            signature: sector[66],
            volume_serial_number: read_u32(sector, 67),
            magic: read_u16(sector, 510),
        };
        if ebpb.magic == BOOT_SIGNATURE {
            Ok(ebpb)
        } else {
            Err(Error::BadSignature)
        }
    }

    /// Reads the FAT32 extended BIOS parameter block from sector `sector` of
    /// device `device`.
    ///
    /// If the device fails, its error is returned as `Io`; if it hands back
    /// fewer than 512 bytes, the result is `Io` of kind `UnexpectedEof`.
    /// Otherwise the result is that of [`BiosParameterBlock::parse`] on the
    /// first 512 bytes of that sector.
    pub fn from<T: BlockDevice>(device: &mut T, sector: u64) -> (r: Result<
        BiosParameterBlock,
        Error,
    >)
        ensures
            final(device).image() == old(device).image(),
            final(device).spec_sector_size() == old(device).spec_sector_size(),
            match r {
                Ok(ebpb) => {
                    let start = sector * old(device).spec_sector_size();
                    &&& old(device).spec_sector_size() >= EBPB_SIZE
                    &&& start + EBPB_SIZE <= old(device).image().len()
                    &&& ebpb == ebpb_of(old(device).image().subrange(start, start + EBPB_SIZE))
                    &&& ebpb.magic == BOOT_SIGNATURE
                },
                Err(Error::Io(e)) => e.is_device() || (old(device).spec_sector_size() < EBPB_SIZE
                    && e.kind() == io::ErrorKind::UnexpectedEof),
                Err(Error::BadSignature) => {
                    let start = sector * old(device).spec_sector_size();
                    &&& old(device).spec_sector_size() >= EBPB_SIZE
                    &&& start + EBPB_SIZE <= old(device).image().len()
                    &&& le_u16(old(device).image(), start + 510) != BOOT_SIGNATURE
                },
                Err(Error::Mbr(_)) => false,
            },
    {
        let mut buf: Vec<u8> = vec![0u8; 512];
        match device.read_sector(sector, buf.as_mut_slice()) {
            Ok(size) => {
                if size != EBPB_SIZE {
                    Err(
                        Error::Io(
                            io::Error::new(
                                io::ErrorKind::UnexpectedEof,
                                "unable to read 512 bytes of EBPB",
                            ),
                        ),
                    )
                } else {
                    proof {
                        let image = old(device).image();
                        let size = old(device).spec_sector_size();
                        let start = sector * size;
                        assert(start + size == (sector + 1) * size) by (nonlinear_arith)
                            requires
                                start == sector * size,
                        ;
                        assert(buf@ =~= image.subrange(start, start + 512));
                    }
                    BiosParameterBlock::parse(buf.as_slice())
                }
            },
            Err(err) => Err(Error::Io(err)),
        }
    }

    /// The number of sectors that one FAT takes, for specifications.
    pub open spec fn spec_sectors_per_fat(&self) -> u32 {
        if self.sectors_per_fat > 0 {
            self.sectors_per_fat as u32
        } else {
            self.sectors_per_fat_2
        }
    }

    /// The number of sectors that one FAT takes: the 16-bit field if it is
    /// not zero, else the 32-bit field.
    pub fn sectors_per_fat(&self) -> (sectors: u32)
        ensures
            sectors == self.spec_sectors_per_fat(),
    {
        if self.sectors_per_fat > 0 {
            self.sectors_per_fat as u32
        } else {
            self.sectors_per_fat_2
        }
    }
}

} // verus!
