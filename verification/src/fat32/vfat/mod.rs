//! The FAT32 volume: its on-disk structures and the operations on them.

pub mod cache;
pub mod cluster;
pub mod dir;
pub mod ebpb;
pub mod entry;
pub mod error;
pub mod fat;
pub mod file;
pub mod metadata;
pub mod path;
pub mod vfat;
