//! Dates, times and attributes of directory entries.

use vstd::prelude::*;
use crate::fat32::util::{le_u16, read_u16};

verus! {

/// A date as represented in FAT32 on-disk structures: the day in the low five
/// bits, the month in the next four, the years since 1980 in the top seven.
#[derive(Default, Debug, Copy, Clone, PartialEq, Eq, Structural)]
pub struct Date(pub u16);

/// Time as represented in FAT32 on-disk structures: two-second units in the
/// low five bits, the minute in the next six, the hour in the top five.
#[derive(Default, Debug, Copy, Clone, PartialEq, Eq, Structural)]
pub struct Time(pub u16);

/// File attributes as represented in FAT32 on-disk structures.
#[derive(Default, Debug, Copy, Clone, PartialEq, Eq, Structural)]
pub struct Attributes(pub u8);

/// A structure containing a date and time.
#[derive(Default, Debug, Copy, Clone, PartialEq, Eq, Structural)]
pub struct Timestamp {
    pub date: Date,
    pub time: Time,
}

/// Metadata for a directory entry.
#[derive(Debug, Copy, Clone, PartialEq, Eq, Structural)]
pub struct Metadata {
    pub attributes: Attributes,
    pub creation_time_tenths_seconds: u8,
    pub creation_time: Time,
    pub creation_date: Date,
    pub access_date: Date,
    pub high_two_bytes_first_cluster: u16,
    pub last_modified_time: Time,
    pub last_modified_date: Date,
    pub low_two_bytes_first_cluster: u16,
}

/// The attribute byte of a long-file-name entry.
pub const ATTR_LFN: u8 = 0x0F;

/// The attribute bit of a directory.
pub const ATTR_DIRECTORY: u8 = 0x10;

impl Timestamp {
    /// The calendar year: 1980 plus the top seven bits of the date.
    pub fn year(&self) -> (year: usize)
        ensures
            year == 1980 + self.date.0 / 512,
            1980 <= year <= 2107,
    {
        let date = self.date.0;
        assert((date >> 9) & 0x7F == date / 512 && date / 512 <= 127) by (bit_vector);
        ((date >> 9) & 0x7F) as usize + 1980
    }

    /// The calendar month, starting at 1 for January: bits 5 to 8 of the
    /// date.
    pub fn month(&self) -> (month: u8)
        ensures
            month == (self.date.0 / 32) % 16,
    {
        let date = self.date.0;
        assert((date >> 5) & 0xF == (date / 32) % 16) by (bit_vector);
        ((date >> 5) & 0xF) as u8
    }

    /// The calendar day, starting at 1: the low five bits of the date.
    pub fn day(&self) -> (day: u8)
        ensures
            day == self.date.0 % 32,
    {
        let date = self.date.0;
        assert(date & 0x1F == date % 32) by (bit_vector);
        (date & 0x1F) as u8
    }

    /// The 24-hour hour: the top five bits of the time.
    pub fn hour(&self) -> (hour: u8)
        ensures
            hour == self.time.0 / 2048,
            hour < 32,
    {
        let time = self.time.0;
        assert((time >> 11) & 0x1F == time / 2048 && time / 2048 < 32) by (bit_vector);
        ((time >> 11) & 0x1F) as u8
    }

    /// The minute: bits 5 to 10 of the time.
    pub fn minute(&self) -> (minute: u8)
        ensures
            minute == (self.time.0 / 32) % 64,
    {
        let time = self.time.0;
        assert((time >> 5) & 0x3F == (time / 32) % 64) by (bit_vector);
        ((time >> 5) & 0x3F) as u8
    }

    /// The second: twice the low five bits of the time, so always even and at
    /// most 62.
    pub fn second(&self) -> (second: u8)
        ensures
            second == 2 * (self.time.0 % 32),
            second <= 62,
    {
        let time = self.time.0;
        assert(time & 0x1F == time % 32) by (bit_vector);
        (time & 0x1F) as u8 * 2
    }
}

impl Attributes {
    /// Whether any bit of `mask` is set in these attributes.
    pub open spec fn has(&self, mask: u8) -> bool {
        self.0 & mask != 0
    }

    /// Whether the entry is read-only (bit 0).
    pub fn read_only(&self) -> (b: bool)
        ensures
            b == self.has(0x01),
    {
        (self.0 & 0x01) != 0
    }

    /// Whether the entry is hidden (bit 1).
    pub fn hidden(&self) -> (b: bool)
        ensures
            b == self.has(0x02),
    {
        (self.0 & 0x02) != 0
    }

    /// Whether the entry belongs to the system (bit 2).
    pub fn system(&self) -> (b: bool)
        ensures
            b == self.has(0x04),
    {
        (self.0 & 0x04) != 0
    }

    /// Whether the entry is the volume label (bit 3).
    pub fn volume_id(&self) -> (b: bool)
        ensures
            b == self.has(0x08),
    {
        (self.0 & 0x08) != 0
    }

    /// Whether the entry is a directory (bit 4).
    pub fn directory(&self) -> (b: bool)
        ensures
            b == self.has(ATTR_DIRECTORY),
    {
        (self.0 & ATTR_DIRECTORY) != 0
    }

    /// Whether the entry is marked for archiving (bit 5).
    pub fn archive(&self) -> (b: bool)
        ensures
            b == self.has(0x20),
    {
        (self.0 & 0x20) != 0
    }

    /// Whether the entry is part of a long file name: exactly the four low
    /// bits are set.
    pub fn lfn(&self) -> (b: bool)
        ensures
            b == (self.0 == ATTR_LFN),
    {
        self.0 == ATTR_LFN
    }
}

/// The metadata block of the 32-byte directory record `record`: bytes 11 to
/// 27.
pub open spec fn metadata_of(record: Seq<u8>) -> Metadata {
    Metadata {
        attributes: Attributes(record[11]),
        creation_time_tenths_seconds: record[13],
        creation_time: Time(le_u16(record, 14) as u16),
        creation_date: Date(le_u16(record, 16) as u16),
        access_date: Date(le_u16(record, 18) as u16),
        high_two_bytes_first_cluster: le_u16(record, 20) as u16,
        last_modified_time: Time(le_u16(record, 22) as u16),
        last_modified_date: Date(le_u16(record, 24) as u16),
        low_two_bytes_first_cluster: le_u16(record, 26) as u16,
    }
}

/// Metadata in which every field is zero.
pub open spec fn zero_metadata() -> Metadata {
    Metadata {
        attributes: Attributes(0),
        creation_time_tenths_seconds: 0,
        creation_time: Time(0),
        creation_date: Date(0),
        access_date: Date(0),
        high_two_bytes_first_cluster: 0,
        last_modified_time: Time(0),
        last_modified_date: Date(0),
        low_two_bytes_first_cluster: 0,
    }
}

impl Default for Metadata {
    fn default() -> (m: Metadata)
        ensures
            m == zero_metadata(),
    {
        Metadata {
            attributes: Attributes(0),
            creation_time_tenths_seconds: 0,
            creation_time: Time(0),
            creation_date: Date(0),
            access_date: Date(0),
            high_two_bytes_first_cluster: 0,
            last_modified_time: Time(0),
            last_modified_date: Date(0),
            low_two_bytes_first_cluster: 0,
        }
    }
}

impl Metadata {
    /// Reads the metadata block of a 32-byte directory record.
    pub fn parse(record: &[u8]) -> (m: Metadata)
        requires
            record@.len() >= 28,
        ensures
            m == metadata_of(record@),
    {
        Metadata {
            attributes: Attributes(record[11]),
            creation_time_tenths_seconds: record[13],
            creation_time: Time(read_u16(record, 14)),
            creation_date: Date(read_u16(record, 16)),
            access_date: Date(read_u16(record, 18)),
            high_two_bytes_first_cluster: read_u16(record, 20),
            last_modified_time: Time(read_u16(record, 22)),
            last_modified_date: Date(read_u16(record, 24)),
            low_two_bytes_first_cluster: read_u16(record, 26),
        }
    }

    /// Whether the entry is read-only.
    pub fn read_only(&self) -> (b: bool)
        ensures
            b == self.attributes.has(0x01),
    {
        self.attributes.read_only()
    }

    /// Whether the entry is hidden.
    pub fn hidden(&self) -> (b: bool)
        ensures
            b == self.attributes.has(0x02),
    {
        self.attributes.hidden()
    }

    /// Whether the entry belongs to the system.
    pub fn system(&self) -> (b: bool)
        ensures
            b == self.attributes.has(0x04),
    {
        self.attributes.system()
    }

    /// Whether the entry is the volume label.
    pub fn volume_id(&self) -> (b: bool)
        ensures
            b == self.attributes.has(0x08),
    {
        self.attributes.volume_id()
    }

    /// Whether the entry is marked for archiving.
    pub fn archive(&self) -> (b: bool)
        ensures
            b == self.attributes.has(0x20),
    {
        self.attributes.archive()
    }

    /// The timestamp that the entry was created.
    pub fn created(&self) -> (t: Timestamp)
        ensures
            t == (Timestamp { date: self.creation_date, time: self.creation_time }),
    {
        Timestamp { time: self.creation_time, date: self.creation_date }
    }

    /// The timestamp for the entry's last access: a date only, at time zero.
    pub fn accessed(&self) -> (t: Timestamp)
        ensures
            t == (Timestamp { date: self.access_date, time: Time(0) }),
    {
        Timestamp { time: Time(0), date: self.access_date }
    }

    /// The timestamp for the entry's last modification.
    pub fn modified(&self) -> (t: Timestamp)
        ensures
            t == (Timestamp { date: self.last_modified_date, time: self.last_modified_time }),
    {
        Timestamp { time: self.last_modified_time, date: self.last_modified_date }
    }

    /// The number of the entry's first cluster, for specifications.
    pub open spec fn spec_first_cluster(&self) -> u32 {
        (0x1_0000 * self.high_two_bytes_first_cluster + self.low_two_bytes_first_cluster) as u32
    }

    /// The number of the entry's first cluster: its high half and its low
    /// half, which the record stores apart.
    pub fn first_cluster(&self) -> (cluster: u32)
        ensures
            cluster == self.spec_first_cluster(),
    {
        let high = self.high_two_bytes_first_cluster;
        let low = self.low_two_bytes_first_cluster;
        assert(((high as u32) << 16) | (low as u32) == 0x1_0000 * (high as u32) + (low as u32))
            by (bit_vector);
        ((high as u32) << 16) | low as u32
    }
}

} // verus!
