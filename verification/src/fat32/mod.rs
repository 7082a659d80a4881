//! A read-only FAT32 file system over a cached block device.

pub mod mbr;
pub mod traits;
pub mod util;
pub mod vfat;
