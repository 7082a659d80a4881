//! Core subsystems of a small AArch64 kernel for the Raspberry Pi 3: a buddy
//! allocator, a read-only FAT32 file system over a cached block device, and a
//! round-robin process scheduler, together with the data structures around
//! them.

pub mod aarch64;
pub mod allocator;
pub mod atags;
pub mod bootloader;
pub mod dwarf;
pub mod fat32;
pub mod fs;
pub mod io;
pub mod pi;
pub mod process;
pub mod stack_vec;
pub mod text;
pub mod traps;
pub mod ttywrite;
pub mod user;
pub mod vm;
