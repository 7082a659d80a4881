//! Directories: the 32-byte records they are made of, long file names, and
//! the iteration that turns records into entries.

use vstd::prelude::*;
use vstd::std_specs::convert::FromSpec;
use crate::fat32::util::{le_u16, le_u32, read_u16, read_u32};
use crate::fat32::vfat::cluster::Cluster;
use crate::fat32::vfat::entry::{Entry, EntryView};
use crate::fat32::vfat::file::File;
use crate::fat32::vfat::metadata::{
    metadata_of, zero_metadata, Attributes, Metadata, ATTR_DIRECTORY, ATTR_LFN,
};
use crate::io;
use crate::fat32::traits::BlockDevice;
use crate::fat32::vfat::vfat::{VFat, Volume};
use crate::text::{decode_utf16, decoded, lowercase, push_decoded, to_lowercase, utf16_lossy};

verus! {

/// The size of a directory record in bytes.
pub const RECORD_SIZE: usize = 32;

/// The number of UTF-16 code units in which a long file name is reassembled.
pub const LFN_UNITS: usize = 260;

/// The number of UTF-16 code units that one long-file-name record carries.
pub const LFN_UNITS_PER_RECORD: usize = 13;

/// The number of long-file-name records whose content is kept.
pub const LFN_RECORDS: usize = 20;

/// The status byte that ends a directory.
pub const STATUS_END: u8 = 0x00;

/// The status byte of a deleted record.
pub const STATUS_DELETED: u8 = 0xE5;

/// The first byte that stands for 0xE5 in a short name.
pub const STATUS_E5_ESCAPE: u8 = 0x05;

/// A directory.
#[derive(Debug, Clone)]
pub struct Dir {
    pub(crate) cluster: Cluster,
    pub(crate) short_name: String,
    pub(crate) long_name: String,
    pub(crate) metadata: Metadata,
}

/// A directory record that describes a file or a directory.
#[derive(Debug, Copy, Clone)]
pub struct VFatRegularDirEntry {
    pub short_file_name: [u8; 8],
    pub short_file_extension: [u8; 3],
    pub metadata: Metadata,
    pub file_size: u32,
}

/// A directory record that carries 13 code units of a long file name.
#[derive(Debug, Copy, Clone)]
pub struct VFatLfnDirEntry {
    pub sequence_number: u8,
    pub name_characters: [u16; 5],
    pub attributes: Attributes,
    pub type_: u8,
    pub checksum_of_file_name: u8,
    pub name_characters_2: [u16; 6],
    pub always_zero: u16,
    pub name_characters_3: [u16; 2],
}

/// What every directory record has: a status byte and attributes.
#[derive(Debug, Copy, Clone, PartialEq, Eq, Structural)]
pub struct VFatUnknownDirEntry {
    pub status: u8,
    pub attributes: Attributes,
}

/// Record `index` of the directory bytes `data`.
pub open spec fn record_at(data: Seq<u8>, index: int) -> Seq<u8> {
    data.subrange(RECORD_SIZE * index, RECORD_SIZE * index + RECORD_SIZE)
}

/// `bytes` without its trailing spaces.
pub open spec fn trimmed(bytes: Seq<u8>) -> Seq<u8>
    decreases bytes.len(),
{
    if bytes.len() > 0 && bytes.last() == 0x20 {
        trimmed(bytes.drop_last())
    } else {
        bytes
    }
}

/// The 8-byte stem of a short name as it is read: a first byte of 0x05
/// stands for 0xE5.
pub open spec fn unescaped(stem: Seq<u8>) -> Seq<u8> {
    if stem.len() > 0 && stem[0] == STATUS_E5_ESCAPE {
        stem.update(0, STATUS_DELETED)
    } else {
        stem
    }
}

/// The short name made of an 8-byte stem and a 3-byte extension: each
/// without its trailing spaces, joined by a dot unless the extension is
/// empty. Each of the two is read as UTF-8, and byte by byte where it is no
/// valid UTF-8.
pub open spec fn short_name(stem: Seq<u8>, extension: Seq<u8>) -> Seq<char> {
    let name = decoded(trimmed(unescaped(stem)));
    if trimmed(extension).len() > 0 {
        name + seq!['.'] + decoded(trimmed(extension))
    } else {
        name
    }
}

/// The short name that the record `record` holds.
pub open spec fn short_name_of(record: Seq<u8>) -> Seq<char> {
    short_name(record.subrange(0, 8), record.subrange(8, 11))
}

/// Where the `k`-th of the 13 code units of a long-file-name record lies:
/// five units from byte 1, six from byte 14, two from byte 28.
pub open spec fn lfn_unit_offset(k: int) -> int {
    if k < 5 {
        1 + 2 * k
    } else if k < 11 {
        14 + 2 * (k - 5)
    } else {
        28 + 2 * (k - 11)
    }
}

/// The 13 code units that the long-file-name record `record` carries.
pub open spec fn lfn_units_of(record: Seq<u8>) -> Seq<u16> {
    Seq::new(LFN_UNITS_PER_RECORD as nat, |k: int| le_u16(record, lfn_unit_offset(k)) as u16)
}

/// The place of a long-file-name record among the records of its name: the
/// low five bits of the sequence byte, less one.
pub open spec fn lfn_ordinal(sequence_number: u8) -> int {
    (sequence_number % 32) - 1
}

/// The reassembly buffer after a long-file-name record with the given
/// sequence byte and code units: the units lie at 13 times the ordinal, if
/// the ordinal is in 0..20; else the buffer is unchanged.
pub open spec fn lfn_applied(buffer: Seq<u16>, sequence_number: u8, units: Seq<u16>) -> Seq<u16> {
    let ordinal = lfn_ordinal(sequence_number);
    if 0 <= ordinal < LFN_RECORDS {
        Seq::new(
            buffer.len(),
            |i: int|
                if LFN_UNITS_PER_RECORD * ordinal <= i < LFN_UNITS_PER_RECORD * ordinal
                    + LFN_UNITS_PER_RECORD {
                    units[i - LFN_UNITS_PER_RECORD * ordinal]
                } else {
                    buffer[i]
                },
        )
    } else {
        buffer
    }
}

/// The empty reassembly buffer: 260 zero units.
pub open spec fn empty_lfn_buffer() -> Seq<u16> {
    Seq::new(LFN_UNITS as nat, |i: int| 0u16)
}

/// The number of code units of `buffer` from `from` up to the first zero
/// unit, or to the end.
pub open spec fn units_to_nul(buffer: Seq<u16>, from: int) -> int
    decreases buffer.len() - from,
{
    if from < 0 || from >= buffer.len() || buffer[from] == 0 {
        0
    } else {
        1 + units_to_nul(buffer, from + 1)
    }
}

/// The long name that the reassembly buffer holds: its code units up to the
/// first zero unit, decoded as UTF-16.
pub open spec fn long_name_of(buffer: Seq<u16>) -> Seq<char> {
    utf16_lossy(buffer.subrange(0, units_to_nul(buffer, 0)))
}

/// The entry that the regular record `record` describes, given the long name
/// reassembled before it.
pub open spec fn entry_of(record: Seq<u8>, buffer: Seq<u16>) -> EntryView {
    let metadata = metadata_of(record);
    EntryView {
        is_dir: metadata.attributes.has(ATTR_DIRECTORY),
        cluster: Cluster::from_spec(metadata.spec_first_cluster()),
        short_name: short_name_of(record),
        long_name: long_name_of(buffer),
        metadata,
        file_size: if metadata.attributes.has(ATTR_DIRECTORY) {
            0
        } else {
            le_u32(record, 28) as u32
        },
    }
}

/// One step of directory iteration over `data`, from record `index` with the
/// reassembly buffer `buffer`: the next entry, if there is one, and the index
/// at which iteration goes on.
///
/// A record whose first byte is 0x00 ends the directory, as does the end of
/// the data. A record whose first byte is 0xE5 is deleted and skipped. A
/// record with the attribute byte 0x0F adds to the long name. Any other
/// record is an entry.
pub open spec fn scan(data: Seq<u8>, index: int, buffer: Seq<u16>) -> (Option<EntryView>, int)
    decreases data.len() - RECORD_SIZE * index,
{
    if index < 0 || RECORD_SIZE * index + RECORD_SIZE > data.len() {
        (None, index)
    } else {
        let record = record_at(data, index);
        if record[0] == STATUS_END {
            (None, index)
        } else if record[0] == STATUS_DELETED {
            scan(data, index + 1, buffer)
        } else if record[11] == ATTR_LFN {
            scan(data, index + 1, lfn_applied(buffer, record[0], lfn_units_of(record)))
        } else {
            (Some(entry_of(record, buffer)), index + 1)
        }
    }
}

/// The entry that iteration over `data` yields next from record `index`, and
/// the index at which it goes on. Each entry starts with an empty long name.
pub open spec fn next_entry(data: Seq<u8>, index: int) -> (Option<EntryView>, int) {
    scan(data, index, empty_lfn_buffer())
}

/// Iteration never moves backwards, and moves forward when it yields an
/// entry.
pub proof fn lemma_scan_advances(data: Seq<u8>, index: int, buffer: Seq<u16>)
    ensures
        scan(data, index, buffer).1 >= index,
        scan(data, index, buffer).0 is Some ==> index < scan(data, index, buffer).1
            && RECORD_SIZE * scan(data, index, buffer).1 <= data.len() && index >= 0,
    decreases data.len() - RECORD_SIZE * index,
{
    if index < 0 || RECORD_SIZE * index + RECORD_SIZE > data.len() {
    } else {
        let record = record_at(data, index);
        if record[0] == STATUS_END {
        } else if record[0] == STATUS_DELETED {
            lemma_scan_advances(data, index + 1, buffer);
        } else if record[11] == ATTR_LFN {
            lemma_scan_advances(
                data,
                index + 1,
                lfn_applied(buffer, record[0], lfn_units_of(record)),
            );
        } else {
        }
    }
}

/// All the entries that iteration over `data` yields from record `index` on,
/// in order.
pub open spec fn entries_from(data: Seq<u8>, index: int) -> Seq<EntryView>
    decreases data.len() - RECORD_SIZE * index,
    via entries_from_decreases
{
    match next_entry(data, index) {
        (Some(entry), next) => seq![entry] + entries_from(data, next),
        (None, _) => Seq::empty(),
    }
}

#[via_fn]
proof fn entries_from_decreases(data: Seq<u8>, index: int) {
    lemma_scan_advances(data, index, empty_lfn_buffer());
}

/// All the entries of the directory whose bytes are `data`.
pub open spec fn entries_of(data: Seq<u8>) -> Seq<EntryView> {
    entries_from(data, 0)
}

/// Iteration over a directory is a function of its bytes: equal bytes give
/// equal entries, in the same order.
pub proof fn lemma_iteration_is_deterministic(first: Seq<u8>, second: Seq<u8>)
    requires
        first =~= second,
    ensures
        entries_of(first) == entries_of(second),
        forall|index: int| next_entry(first, index) == next_entry(second, index),
{
}

/// Whether `entry` goes by the name `name`, without regard to case: the
/// lowercase of its name is the lowercase of `name`.
pub open spec fn name_matches(entry: EntryView, name: Seq<char>) -> bool {
    lowercase(entry.name()) == lowercase(name)
}

/// The first of `entries` that goes by the name `name`, without regard to
/// case.
pub open spec fn find_in(entries: Seq<EntryView>, name: Seq<char>) -> Option<EntryView>
    decreases entries.len(),
{
    if entries.len() == 0 {
        None
    } else if name_matches(entries[0], name) {
        Some(entries[0])
    } else {
        find_in(entries.subrange(1, entries.len() as int), name)
    }
}

/// What looking up `name` in the directory whose content starts at `cluster`
/// comes to: the first entry that goes by the name without regard to case;
/// a failure of kind `NotFound` if there is none, and of kind `InvalidData`
/// if the directory cannot be read.
pub open spec fn looked_up(volume: Volume, cluster: Cluster, name: Seq<char>) -> Result<
    EntryView,
    io::ErrorKind,
> {
    match volume.content(cluster) {
        Some(data) => match find_in(entries_of(data), name) {
            Some(entry) => Ok(entry),
            None => Err(io::ErrorKind::NotFound),
        },
        None => Err(io::ErrorKind::InvalidData),
    }
}

/// Looking up the name of an entry of a directory finds that entry, unless
/// an entry before it in the directory goes by the same name without regard
/// to case.
pub proof fn lemma_find_own_name(entries: Seq<EntryView>, index: int)
    requires
        0 <= index < entries.len(),
        forall|earlier: int|
            0 <= earlier < index ==> !name_matches(#[trigger] entries[earlier], entries[index].name()),
    ensures
        find_in(entries, entries[index].name()) == Some(entries[index]),
    decreases index,
{
    if index > 0 {
        let rest = entries.subrange(1, entries.len() as int);
        assert(!name_matches(entries[0], entries[index].name()));
        assert forall|earlier: int| 0 <= earlier < index - 1 implies !name_matches(
            #[trigger] rest[earlier],
            rest[index - 1].name(),
        ) by {
            assert(rest[earlier] == entries[earlier + 1]);
        }
        lemma_find_own_name(rest, index - 1);
    }
}

/// What a lookup finds goes by the name that was looked up, and no entry
/// before it does.
pub proof fn lemma_find_is_first_match(entries: Seq<EntryView>, name: Seq<char>)
    ensures
        match find_in(entries, name) {
            Some(found) => exists|index: int|
                0 <= index < entries.len() && entries[index] == found && name_matches(found, name)
                    && forall|earlier: int|
                    0 <= earlier < index ==> !name_matches(#[trigger] entries[earlier], name),
            None => forall|index: int|
                0 <= index < entries.len() ==> !name_matches(#[trigger] entries[index], name),
        },
    decreases entries.len(),
{
    if entries.len() == 0 {
    } else if name_matches(entries[0], name) {
        assert(entries[0] == find_in(entries, name)->0);
    } else {
        let rest = entries.subrange(1, entries.len() as int);
        lemma_find_is_first_match(rest, name);
        match find_in(rest, name) {
            Some(found) => {
                let index = choose|index: int|
                    0 <= index < rest.len() && rest[index] == found && name_matches(found, name)
                        && forall|earlier: int|
                        0 <= earlier < index ==> !name_matches(#[trigger] rest[earlier], name);
                assert(entries[index + 1] == found);
                assert forall|earlier: int| 0 <= earlier < index + 1 implies !name_matches(
                    #[trigger] entries[earlier],
                    name,
                ) by {
                    if earlier > 0 {
                        assert(rest[earlier - 1] == entries[earlier]);
                    }
                }
            },
            None => {
                assert forall|index: int| 0 <= index < entries.len() implies !name_matches(
                    #[trigger] entries[index],
                    name,
                ) by {
                    if index > 0 {
                        assert(rest[index - 1] == entries[index]);
                    }
                }
            },
        }
    }
}

impl VFatUnknownDirEntry {
    /// Reads the status byte and the attributes of a record.
    pub fn parse(record: &[u8]) -> (entry: VFatUnknownDirEntry)
        requires
            record@.len() == RECORD_SIZE,
        ensures
            entry.status == record@[0],
            entry.attributes == Attributes(record@[11]),
    {
        VFatUnknownDirEntry { status: record[0], attributes: Attributes(record[11]) }
    }
}

impl VFatRegularDirEntry {
    /// Reads a record as the description of a file or a directory.
    pub fn parse(record: &[u8]) -> (entry: VFatRegularDirEntry)
        requires
            record@.len() == RECORD_SIZE,
        ensures
            entry.short_file_name@ == record@.subrange(0, 8),
            entry.short_file_extension@ == record@.subrange(8, 11),
            entry.metadata == metadata_of(record@),
            entry.file_size == le_u32(record@, 28),
    {
        let entry = VFatRegularDirEntry {
            short_file_name: [
                record[0],
                record[1],
                record[2],
                record[3],
                record[4],
                record[5],
                record[6],
                record[7],
            ],
            short_file_extension: [record[8], record[9], record[10]],
            metadata: Metadata::parse(record),
            file_size: read_u32(record, 28),
        };
        assert(entry.short_file_name@ =~= record@.subrange(0, 8));
        assert(entry.short_file_extension@ =~= record@.subrange(8, 11));
        entry
    }

    /// The short name of the entry, for specifications.
    pub open spec fn spec_short_name(&self) -> Seq<char> {
        short_name(self.short_file_name@, self.short_file_extension@)
    }

    /// The short name of the entry: stem and extension without their
    /// trailing spaces, joined by a dot unless the extension is empty. A
    /// first byte of 0x05 is read as 0xE5. Stem and extension are read as
    /// UTF-8, and byte by byte where they are no valid UTF-8.
    pub fn short_name(&self) -> (name: String)
        ensures
            name@ == self.spec_short_name(),
    {
        let mut stem = self.short_file_name;
        if stem[0] == STATUS_E5_ESCAPE {
            stem[0] = STATUS_DELETED;
        }
        assert(stem@ =~= unescaped(self.short_file_name@));
        let stem_len = trimmed_len(stem.as_slice());
        let ext_len = trimmed_len(self.short_file_extension.as_slice());
        let mut name = String::new();
        push_decoded(&mut name, stem.as_slice(), stem_len);
        if ext_len > 0 {
            name.push('.');
            push_decoded(&mut name, self.short_file_extension.as_slice(), ext_len);
        }
        assert(name@ =~= self.spec_short_name());
        name
    }
}

/// The length of `bytes` without its trailing spaces.
pub fn trimmed_len(bytes: &[u8]) -> (len: usize)
    ensures
        len <= bytes@.len(),
        bytes@.subrange(0, len as int) == trimmed(bytes@),
{
    let mut len = bytes.len();
    assert(bytes@.subrange(0, len as int) =~= bytes@);
    while len > 0 && bytes[len - 1] == 0x20
        invariant
            len <= bytes@.len(),
            trimmed(bytes@.subrange(0, len as int)) == trimmed(bytes@),
        decreases len,
    {
        assert(bytes@.subrange(0, len as int).drop_last() =~= bytes@.subrange(0, len - 1));
        len -= 1;
    }
    len
}

impl VFatLfnDirEntry {
    /// Reads a record as a part of a long file name.
    pub fn parse(record: &[u8]) -> (entry: VFatLfnDirEntry)
        requires
            record@.len() == RECORD_SIZE,
        ensures
            entry.sequence_number == record@[0],
            entry.attributes == Attributes(record@[11]),
            entry.type_ == record@[12],
            entry.checksum_of_file_name == record@[13],
            entry.always_zero == le_u16(record@, 26),
            entry.units() == lfn_units_of(record@),
    {
        let entry = VFatLfnDirEntry {
            sequence_number: record[0],
            name_characters: [
                read_u16(record, 1),
                read_u16(record, 3),
                read_u16(record, 5),
                read_u16(record, 7),
                read_u16(record, 9),
            ],
            attributes: Attributes(record[11]),
            type_: record[12],
            checksum_of_file_name: record[13],
            name_characters_2: [
                read_u16(record, 14),
                read_u16(record, 16),
                read_u16(record, 18),
                read_u16(record, 20),
                read_u16(record, 22),
                read_u16(record, 24),
            ],
            always_zero: read_u16(record, 26),
            name_characters_3: [read_u16(record, 28), read_u16(record, 30)],
        };
        assert(entry.units() =~= lfn_units_of(record@));
        entry
    }

    /// The 13 code units of the record, in the order of the name.
    pub open spec fn units(&self) -> Seq<u16> {
        self.name_characters@ + self.name_characters_2@ + self.name_characters_3@
    }

    /// Copies the code units of this record to their place in the reassembly
    /// buffer: 13 times the ordinal of the record, which is the low five bits
    /// of the sequence byte, less one. A record whose ordinal is not in 0..20
    /// leaves the buffer as it is.
    pub fn copy_into(&self, buffer: &mut Vec<u16>)
        requires
            old(buffer)@.len() == LFN_UNITS,
        ensures
            final(buffer)@ == lfn_applied(old(buffer)@, self.sequence_number, self.units()),
    {
        let sequence = self.sequence_number;
        assert(sequence & 0x1F == sequence % 32) by (bit_vector);
        let low = (sequence & 0x1F) as usize;
        if low >= 1 && low <= LFN_RECORDS {
            let base = (low - 1) * LFN_UNITS_PER_RECORD;
            let mut k: usize = 0;
            while k < 5
                invariant
                    k <= 5,
                    base + 13 <= 260,
                    buffer@.len() == LFN_UNITS,
                    forall|i: int|
                        0 <= i < 260 ==> buffer@[i] == if base <= i < base + k {
                            self.name_characters@[i - base]
                        } else {
                            old(buffer)@[i]
                        },
                decreases 5 - k,
            {
                buffer[base + k] = self.name_characters[k];
                k += 1;
            }
            let mut k: usize = 0;
            while k < 6
                invariant
                    k <= 6,
                    base + 13 <= 260,
                    buffer@.len() == LFN_UNITS,
                    forall|i: int|
                        0 <= i < 260 ==> buffer@[i] == if base <= i < base + 5 {
                            self.name_characters@[i - base]
                        } else if base + 5 <= i < base + 5 + k {
                            self.name_characters_2@[i - base - 5]
                        } else {
                            old(buffer)@[i]
                        },
                decreases 6 - k,
            {
                buffer[base + 5 + k] = self.name_characters_2[k];
                k += 1;
            }
            let mut k: usize = 0;
            while k < 2
                invariant
                    k <= 2,
                    base + 13 <= 260,
                    buffer@.len() == LFN_UNITS,
                    forall|i: int|
                        0 <= i < 260 ==> buffer@[i] == if base <= i < base + 5 {
                            self.name_characters@[i - base]
                        } else if base + 5 <= i < base + 11 {
                            self.name_characters_2@[i - base - 5]
                        } else if base + 11 <= i < base + 11 + k {
                            self.name_characters_3@[i - base - 11]
                        } else {
                            old(buffer)@[i]
                        },
                decreases 2 - k,
            {
                buffer[base + 11 + k] = self.name_characters_3[k];
                k += 1;
            }
            assert(buffer@ =~= lfn_applied(old(buffer)@, self.sequence_number, self.units()));
        }
    }
}

/// Decodes the long name that the reassembly buffer holds: its code units up
/// to the first zero unit.
pub fn long_name(buffer: &Vec<u16>) -> (name: String)
    ensures
        name@ == long_name_of(buffer@),
{
    let mut len: usize = 0;
    while len < buffer.len() && buffer[len] != 0
        invariant
            len <= buffer@.len(),
            units_to_nul(buffer@, 0) == len + units_to_nul(buffer@, len as int),
        decreases buffer@.len() - len,
    {
        len += 1;
    }
    let (head, _) = buffer.as_slice().split_at(len);
    decode_utf16(head)
}

impl Dir {
    /// What the directory is, for specifications.
    pub closed spec fn view(&self) -> EntryView {
        EntryView {
            is_dir: true,
            cluster: self.cluster,
            short_name: self.short_name@,
            long_name: self.long_name@,
            metadata: self.metadata,
            file_size: 0,
        }
    }

    /// A directory is a directory, and has no size.
    pub proof fn lemma_is_dir(&self)
        ensures
            self@.is_dir,
            self@.file_size == 0,
    {
    }

    /// The name of the directory: its long name if it has one, else its
    /// short name.
    pub fn name(&self) -> (name: &str)
        ensures
            name@ == self@.name(),
    {
        if self.long_name.as_str().unicode_len() > 0 {
            self.long_name.as_str()
        } else {
            self.short_name.as_str()
        }
    }

    /// The metadata of the directory.
    pub fn metadata(&self) -> (metadata: &Metadata)
        ensures
            *metadata == self@.metadata,
    {
        &self.metadata
    }

    /// The first cluster of the directory.
    pub fn cluster(&self) -> (cluster: Cluster)
        ensures
            cluster == self@.cluster,
    {
        self.cluster
    }

    /// Returns an iteration over the entries in this directory, for which the
    /// whole cluster chain of the directory is read.
    pub fn entries<D: BlockDevice>(&self, fs: &mut VFat<D>) -> (r: io::Result<EntryIterator>)
        requires
            old(fs).wf(),
        ensures
            final(fs).wf(),
            final(fs)@ == old(fs)@,
            final(fs).geometry() == old(fs).geometry(),
            self@.cluster.0 < 2 || !old(fs)@.fat_entry_fits(self@.cluster) ==> (r matches Err(e) && e.kind()
                == io::ErrorKind::InvalidData && !e.is_device()),
            match r {
                Ok(iter) => {
                    &&& old(fs)@.content(self@.cluster) == Some(iter.data())
                    &&& iter.position() == 0
                    &&& iter.bytes_per_cluster() == old(fs)@.cluster_size
                },
                Err(e) => e.is_device() || (e.kind() == io::ErrorKind::InvalidData
                    && old(fs)@.content(self@.cluster) is None),
            },
    {
        let mut data: Vec<u8> = Vec::new();
        fs.read_chain(self.cluster, &mut data)?;
        let bytes_per_cluster = fs.bytes_per_cluster();
        assert(data@ =~= fs@.chain_data(self.cluster, fs@.chain_len(self.cluster).unwrap()));
        Ok(EntryIterator::new(data, bytes_per_cluster))
    }

    /// Finds the entry named `name` in `self` and returns it. Comparison is
    /// case-insensitive.
    ///
    /// If no entry with name `name` exists in `self`, an error of `NotFound`
    /// is returned, and an error of kind `InvalidData` if the chain of the
    /// directory does not end. Unless the device fails, the result is that of
    /// [`EntryIterator::find`] on the entries of the directory.
    pub fn find<D: BlockDevice>(&self, fs: &mut VFat<D>, name: &str) -> (r: io::Result<Entry>)
        requires
            old(fs).wf(),
        ensures
            final(fs).wf(),
            final(fs)@ == old(fs)@,
            final(fs).geometry() == old(fs).geometry(),
            self@.cluster.0 < 2 || !old(fs)@.fat_entry_fits(self@.cluster) ==> (r matches Err(e) && e.kind()
                == io::ErrorKind::InvalidData && !e.is_device()),
            match r {
                Ok(entry) => {
                    &&& looked_up(old(fs)@, self@.cluster, name@) == Ok::<
                        EntryView,
                        io::ErrorKind,
                    >(entry@)
                    &&& entry matches Entry::File(file) ==> file.is_fresh(
                        old(fs)@.cluster_size as u32,
                    )
                },
                Err(e) => e.is_device() || looked_up(old(fs)@, self@.cluster, name@) == Err::<
                    EntryView,
                    io::ErrorKind,
                >(e.kind()),
            },
    {
        let iter = self.entries(fs)?;
        match iter.find(name) {
            Some(entry) => Ok(entry),
            None => Err(io::Error::new(io::ErrorKind::NotFound, "entry not found")),
        }
    }

    /// The root directory of a volume whose root lies at `cluster`: it has no
    /// name and its metadata is zero.
    pub fn new_root(cluster: Cluster) -> (root: Dir)
        ensures
            root@ == root_view(cluster),
    {
        Dir {
            cluster,
            short_name: String::new(),
            long_name: String::new(),
            metadata: Metadata::default(),
        }
    }
}

/// What the root directory at `cluster` is.
pub open spec fn root_view(cluster: Cluster) -> EntryView {
    EntryView {
        is_dir: true,
        cluster,
        short_name: Seq::empty(),
        long_name: Seq::empty(),
        metadata: zero_metadata(),
        file_size: 0,
    }
}

/// An iteration over the entries of a directory whose bytes have been read.
#[derive(Debug, Clone)]
pub struct EntryIterator {
    pub(crate) data: Vec<u8>,
    pub(crate) current_index: usize,
    pub(crate) bytes_per_cluster: u32,
}

impl EntryIterator {
    /// An iteration over the records in `data`, from the first. The files it
    /// yields are read in clusters of `bytes_per_cluster` bytes.
    pub fn new(data: Vec<u8>, bytes_per_cluster: u32) -> (iter: EntryIterator)
        ensures
            iter.data() == data@,
            iter.position() == 0,
            iter.bytes_per_cluster() == bytes_per_cluster,
    {
        EntryIterator { data, current_index: 0, bytes_per_cluster }
    }

    /// The bytes of the directory.
    pub closed spec fn data(&self) -> Seq<u8> {
        self.data@
    }

    /// The index of the record at which iteration goes on.
    pub closed spec fn position(&self) -> int {
        self.current_index as int
    }

    /// The cluster size handed to the files that iteration yields.
    pub closed spec fn bytes_per_cluster(&self) -> u32 {
        self.bytes_per_cluster
    }

    /// The entries that are still to come, in order.
    pub open spec fn remaining(&self) -> Seq<EntryView> {
        entries_from(self.data(), self.position())
    }

    /// Returns the next entry of the directory, or `None` at its end.
    ///
    /// Deleted records are skipped; long-file-name records are gathered into
    /// the long name of the entry that follows them. An entry is a `Dir` if
    /// its directory attribute is set, else a `File` positioned at its start.
    pub fn next(&mut self) -> (entry: Option<Entry>)
        ensures
            final(self).data() == old(self).data(),
            final(self).bytes_per_cluster() == old(self).bytes_per_cluster(),
            next_entry(old(self).data(), old(self).position()) == (
                match entry {
                    Some(e) => Some(e@),
                    None => None,
                },
                final(self).position(),
            ),
            entry matches Some(Entry::File(file)) ==> file.is_fresh(old(self).bytes_per_cluster()),
    {
        let mut buffer: Vec<u16> = vec![0u16; 260];
        assert(buffer@ =~= empty_lfn_buffer());
        let count = self.data.len() / RECORD_SIZE;
        while self.current_index < count
            invariant
                self.data@ == old(self).data@,
                self.bytes_per_cluster == old(self).bytes_per_cluster,
                count == self.data@.len() / RECORD_SIZE as nat,
                buffer@.len() == LFN_UNITS,
                next_entry(old(self).data@, old(self).current_index as int) == scan(
                    self.data@,
                    self.current_index as int,
                    buffer@,
                ),
            decreases count - self.current_index,
        {
            let record = slice_record(self.data.as_slice(), self.current_index);
            let unknown = VFatUnknownDirEntry::parse(record);
            if unknown.status == STATUS_END {
                return None;
            } else if unknown.status == STATUS_DELETED {
                self.current_index += 1;
                continue ;
            }
            self.current_index += 1;
            if unknown.attributes.lfn() {
                let lfn = VFatLfnDirEntry::parse(record);
                lfn.copy_into(&mut buffer);
            } else {
                let regular = VFatRegularDirEntry::parse(record);
                let short_name = regular.short_name();
                let long_name = long_name(&buffer);
                let cluster = Cluster::from(regular.metadata.first_cluster());
                if regular.metadata.attributes.directory() {
                    return Some(
                        Entry::Dir(
                            Dir { cluster, short_name, long_name, metadata: regular.metadata },
                        ),
                    );
                } else {
                    return Some(
                        Entry::File(
                            File::new(
                                cluster,
                                short_name,
                                long_name,
                                regular.metadata,
                                regular.file_size,
                                self.bytes_per_cluster,
                            ),
                        ),
                    );
                }
            }
        }
        None
    }

    /// Returns the first of the entries still to come that goes by the name
    /// `name`, without regard to case, or `None` if none of them does.
    pub fn find(self, name: &str) -> (found: Option<Entry>)
        ensures
            match found {
                Some(entry) => find_in(self.remaining(), name@) == Some(entry@),
                None => find_in(self.remaining(), name@) is None,
            },
            found matches Some(Entry::File(file)) ==> file.is_fresh(self.bytes_per_cluster()),
    {
        let mut iter = self;
        let lowercase_name = to_lowercase(name);
        loop
            invariant
                iter.bytes_per_cluster() == self.bytes_per_cluster(),
                lowercase_name@ == lowercase(name@),
                find_in(self.remaining(), name@) == find_in(iter.remaining(), name@),
            decreases iter.remaining().len(),
        {
            let ghost before = iter.remaining();
            match iter.next() {
                Some(entry) => {
                    proof {
                        assert(before == seq![entry@] + iter.remaining());
                        assert(before.subrange(1, before.len() as int) =~= iter.remaining());
                    }
                    let lowercase_entry = to_lowercase(entry.name());
                    if lowercase_name == lowercase_entry {
                        return Some(entry);
                    }
                },
                None => {
                    return None;
                },
            }
        }
    }

    /// Returns all the entries that are still to come, in order.
    pub fn collect(self) -> (entries: Vec<Entry>)
        ensures
            entries@.len() == self.remaining().len(),
            forall|i: int| 0 <= i < entries@.len() ==> (#[trigger] entries@[i])@ == self.remaining()[i],
            forall|i: int|
                0 <= i < entries@.len() ==> ((#[trigger] entries@[i]) matches Entry::File(file)
                    ==> file.is_fresh(self.bytes_per_cluster())),
    {
        let mut iter = self;
        let mut entries: Vec<Entry> = Vec::new();
        let ghost all = iter.remaining();
        let ghost bytes_per_cluster = iter.bytes_per_cluster();
        loop
            invariant
                iter.bytes_per_cluster() == bytes_per_cluster,
                bytes_per_cluster == self.bytes_per_cluster(),
                all == self.remaining(),
                entries@.len() <= all.len(),
                forall|i: int| 0 <= i < entries@.len() ==> (#[trigger] entries@[i])@ == all[i],
                forall|i: int|
                    0 <= i < entries@.len() ==> ((#[trigger] entries@[i]) matches Entry::File(file)
                        ==> file.is_fresh(bytes_per_cluster)),
                all.subrange(entries@.len() as int, all.len() as int) == iter.remaining(),
            decreases all.len() - entries@.len(),
        {
            match iter.next() {
                Some(entry) => {
                    proof {
                        let rest = entries_from(iter.data(), iter.position());
                        assert(all.subrange(entries@.len() as int, all.len() as int) == seq![
                            entry@,
                        ] + rest);
                        let tail = all.subrange(entries@.len() as int, all.len() as int);
                        assert(tail.len() == 1 + rest.len());
                        assert(all[entries@.len() as int] == tail[0]);
                        assert forall|k: int| 0 <= k < rest.len() implies all.subrange(
                            entries@.len() as int + 1,
                            all.len() as int,
                        )[k] == rest[k] by {
                            assert(tail[k + 1] == rest[k]);
                        }
                        assert(all.subrange(entries@.len() as int + 1, all.len() as int) =~= rest);
                    }
                    entries.push(entry);
                },
                None => {
                    assert(all.subrange(entries@.len() as int, all.len() as int).len() == 0);
                    return entries;
                },
            }
        }
    }
}

/// Record `index` of the directory bytes `data`.
fn slice_record(data: &[u8], index: usize) -> (record: &[u8])
    requires
        index < data@.len() / RECORD_SIZE as nat,
    ensures
        record@ == record_at(data@, index as int),
{
    let len = data.len();
    assert(index * 32 + 32 <= len);
    let start = index * RECORD_SIZE;
    let (_, rest) = data.split_at(start);
    let (record, _) = rest.split_at(RECORD_SIZE);
    assert(record@ =~= record_at(data@, index as int));
    record
}

} // verus!
