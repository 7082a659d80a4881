use pi_kernel::fat32::mbr::{Error as MbrError, MasterBootRecord};
use pi_kernel::fat32::traits::{BlockDevice, MemoryDisk};
use pi_kernel::fat32::vfat::cache::{CachedDevice, Partition};
use pi_kernel::fat32::vfat::cluster::Cluster;
use pi_kernel::fat32::vfat::dir::{Dir, EntryIterator, VFatLfnDirEntry, VFatRegularDirEntry, VFatUnknownDirEntry};
use pi_kernel::fat32::vfat::ebpb::BiosParameterBlock;
use pi_kernel::fat32::vfat::entry::Entry;
use pi_kernel::fat32::vfat::error::Error as VFatError;
use pi_kernel::fat32::vfat::fat::{FatEntry, Status};
use pi_kernel::fat32::vfat::metadata::{Attributes, Date, Metadata, Time, Timestamp};
use pi_kernel::fat32::vfat::path::{canonical_path, push_component};
use pi_kernel::fat32::vfat::vfat::VFat;
use pi_kernel::io::{Error, ErrorKind, SeekFrom};

const SECTOR: usize = 512;
const FILE_SIZE: usize = 4097;

fn put_u16(image: &mut [u8], at: usize, value: u16) {
    image[at..at + 2].copy_from_slice(&value.to_le_bytes());
}

fn put_u32(image: &mut [u8], at: usize, value: u32) {
    image[at..at + 4].copy_from_slice(&value.to_le_bytes());
}

fn boot_sector() -> Vec<u8> {
    let mut sector = vec![0u8; SECTOR];
    // Partition 0: bootable, FAT32 with LBA, starts at sector 1.
    sector[446] = 0x80;
    sector[446 + 4] = 0x0C;
    put_u32(&mut sector, 446 + 8, 1);
    put_u32(&mut sector, 446 + 12, 14);
    sector[510] = 0x55;
    sector[511] = 0xAA;
    sector
}

fn parameter_block() -> Vec<u8> {
    let mut sector = vec![0u8; SECTOR];
    put_u16(&mut sector, 11, 512); // bytes per sector
    sector[13] = 1; // sectors per cluster
    put_u16(&mut sector, 14, 1); // reserved sectors
    sector[16] = 1; // number of FATs
    put_u16(&mut sector, 22, 0); // sectors per FAT, 16 bit
    put_u32(&mut sector, 36, 1); // sectors per FAT, 32 bit
    put_u32(&mut sector, 44, 2); // root directory cluster
    sector[510] = 0x55;
    sector[511] = 0xAA;
    sector
}

fn short_entry(name: &[u8; 8], ext: &[u8; 3], attributes: u8, cluster: u32, size: u32) -> [u8; 32] {
    let mut record = [0u8; 32];
    record[0..8].copy_from_slice(name);
    record[8..11].copy_from_slice(ext);
    record[11] = attributes;
    // Created 2018-03-15 12:34:56, modified 2019-12-31 23:59:58.
    put_u16(&mut record, 14, (12 << 11) | (34 << 5) | 28);
    put_u16(&mut record, 16, (38 << 9) | (3 << 5) | 15);
    put_u16(&mut record, 18, (38 << 9) | (3 << 5) | 16);
    put_u16(&mut record, 20, (cluster >> 16) as u16);
    put_u16(&mut record, 22, (23 << 11) | (59 << 5) | 29);
    put_u16(&mut record, 24, (39 << 9) | (12 << 5) | 31);
    put_u16(&mut record, 26, cluster as u16);
    put_u32(&mut record, 28, size);
    record
}

fn lfn_entry(sequence: u8, units: &[u16; 13]) -> [u8; 32] {
    let mut record = [0u8; 32];
    record[0] = sequence;
    for k in 0..5 {
        put_u16(&mut record, 1 + 2 * k, units[k]);
    }
    record[11] = 0x0F;
    for k in 0..6 {
        put_u16(&mut record, 14 + 2 * k, units[5 + k]);
    }
    for k in 0..2 {
        put_u16(&mut record, 28 + 2 * k, units[11 + k]);
    }
    record
}

fn units_of(text: &str) -> [u16; 13] {
    let mut units = [0xFFFFu16; 13];
    let mut i = 0;
    for unit in text.encode_utf16() {
        units[i] = unit;
        i += 1;
    }
    if i < 13 {
        units[i] = 0;
    }
    units
}

fn file_byte(position: usize) -> u8 {
    (position % 251) as u8
}

/// A disk of 15 sectors: boot record, parameter block, one FAT sector, and
/// the clusters 2 to 13. The root directory is cluster 2, the file
/// `longname.txt` has 4097 bytes in clusters 3 to 11, the directory `SUB` is
/// cluster 12 and its file `A.TXT` is cluster 13.
fn image() -> Vec<u8> {
    let mut image = vec![0u8; 15 * SECTOR];
    image[0..SECTOR].copy_from_slice(&boot_sector());
    image[SECTOR..2 * SECTOR].copy_from_slice(&parameter_block());
    let fat = 2 * SECTOR;
    put_u32(&mut image, fat, 0x0FFF_FFF8);
    put_u32(&mut image, fat + 4, 0x0FFF_FFFF);
    put_u32(&mut image, fat + 4 * 2, 0x0FFF_FFFF);
    for cluster in 3..11u32 {
        // The top four bits are reserved and must be ignored.
        put_u32(&mut image, fat + 4 * cluster as usize, 0xF000_0000 | (cluster + 1));
    }
    put_u32(&mut image, fat + 4 * 11, 0x0FFF_FFF8);
    put_u32(&mut image, fat + 4 * 12, 0x0FFF_FFFF);
    put_u32(&mut image, fat + 4 * 13, 0x0FFF_FFFF);
    let root = 3 * SECTOR;
    let mut records: Vec<[u8; 32]> = Vec::new();
    records.push(short_entry(b"\xE5LD     ", b"TXT", 0x20, 9, 1));
    records.push(lfn_entry(0x42, &[0xFFFF; 13]));
    records.push(lfn_entry(0x01, &units_of("longname.txt")));
    records.push(short_entry(b"LONGNA~1", b"TXT", 0x20, 3, FILE_SIZE as u32));
    records.push(short_entry(b"SUB     ", b"   ", 0x10, 12, 0));
    records.push(short_entry(b"\x05BC     ", b"D  ", 0x23, 0, 0));
    for (i, record) in records.iter().enumerate() {
        image[root + 32 * i..root + 32 * (i + 1)].copy_from_slice(record);
    }
    for position in 0..FILE_SIZE {
        image[4 * SECTOR + position] = file_byte(position);
    }
    let sub = (3 + 10) * SECTOR;
    let sub_records = [
        short_entry(b".       ", b"   ", 0x10, 12, 0),
        short_entry(b"..      ", b"   ", 0x10, 0, 0),
        short_entry(b"A       ", b"TXT", 0x20, 13, 5),
    ];
    for (i, record) in sub_records.iter().enumerate() {
        image[sub + 32 * i..sub + 32 * (i + 1)].copy_from_slice(record);
    }
    image[14 * SECTOR..14 * SECTOR + 5].copy_from_slice(b"hello");
    image
}

fn mount() -> VFat<MemoryDisk> {
    VFat::from(MemoryDisk::new(image())).unwrap()
}

fn root_entries(fs: &mut VFat<MemoryDisk>) -> Vec<Entry> {
    Dir::new_root(fs.root_dir_cluster()).entries(fs).unwrap().collect()
}

#[test]
fn mbr_with_unknown_boot_indicator_is_refused() {
    let mut sector = vec![0u8; SECTOR];
    sector[510] = 0x55;
    sector[511] = 0xAA;
    sector[446] = 0x81;
    match MasterBootRecord::parse(&sector) {
        Err(MbrError::UnknownBootIndicator(0)) => {}
        other => panic!("{:?}", other),
    }
    // The first partition with a bad indicator is named.
    sector[446] = 0x80;
    sector[446 + 32] = 0x01;
    sector[446 + 48] = 0x02;
    match MasterBootRecord::parse(&sector) {
        Err(MbrError::UnknownBootIndicator(2)) => {}
        other => panic!("{:?}", other),
    }
}

#[test]
fn mbr_with_bad_signature_is_refused() {
    let mut sector = boot_sector();
    sector[511] = 0xAB;
    assert!(matches!(MasterBootRecord::parse(&sector), Err(MbrError::BadSignature)));
    // The signature is checked before the boot indicators.
    sector[446] = 0x81;
    assert!(matches!(MasterBootRecord::parse(&sector), Err(MbrError::BadSignature)));
}

#[test]
fn mbr_of_wrong_size_is_an_io_error() {
    match MasterBootRecord::parse(&boot_sector()[..511]) {
        Err(MbrError::Io(e)) => assert_eq!(e.kind(), ErrorKind::UnexpectedEof),
        other => panic!("{:?}", other),
    }
}

#[test]
fn mbr_fields_are_read_little_endian() {
    let mut sector = boot_sector();
    put_u32(&mut sector, 446 + 16 + 8, 0x1234_5678);
    sector[446 + 16 + 4] = 0x0B;
    sector[446 + 4] = 0x83;
    let mbr = MasterBootRecord::parse(&sector).unwrap();
    assert_eq!(mbr.magic, 0xAA55);
    assert_eq!(mbr.partitions[0].boot_indicator, 0x80);
    assert_eq!(mbr.partitions[0].partition_type, 0x83);
    assert_eq!(mbr.partitions[0].first_sector_lba, 1);
    assert_eq!(mbr.partitions[0].num_sectors, 14);
    assert_eq!(mbr.partitions[1].first_sector_lba, 0x1234_5678);
    // The first FAT32 partition is the second of the table.
    assert_eq!(mbr.first_vfat_partition_lba(), Some(0x1234_5678));
}

#[test]
fn mbr_without_fat32_partition_has_no_lba() {
    let mut sector = boot_sector();
    sector[446 + 4] = 0x83;
    let mbr = MasterBootRecord::parse(&sector).unwrap();
    assert_eq!(mbr.first_vfat_partition_lba(), None);
}

#[test]
fn mbr_is_read_from_sector_zero() {
    let mut disk = MemoryDisk::new(image());
    let mbr = MasterBootRecord::from(&mut disk).unwrap();
    assert_eq!(mbr.first_vfat_partition_lba(), Some(1));
    let mut short = MemoryDisk::new(vec![0u8; 100]);
    assert!(matches!(MasterBootRecord::from(&mut short), Err(MbrError::Io(_))));
}

#[test]
fn ebpb_is_parsed() {
    let ebpb = BiosParameterBlock::parse(&parameter_block()).unwrap();
    assert_eq!(ebpb.bytes_per_sector, 512);
    assert_eq!(ebpb.sectors_per_cluster, 1);
    assert_eq!(ebpb.reserved_sectors, 1);
    assert_eq!(ebpb.number_of_fats, 1);
    assert_eq!(ebpb.root_directory_cluster, 2);
    assert_eq!(ebpb.sectors_per_fat(), 1);
    let mut disk = MemoryDisk::new(image());
    assert_eq!(BiosParameterBlock::from(&mut disk, 1).unwrap(), ebpb);
}

#[test]
fn ebpb_prefers_the_16_bit_fat_size() {
    let mut sector = parameter_block();
    put_u16(&mut sector, 22, 7);
    put_u32(&mut sector, 36, 9);
    assert_eq!(BiosParameterBlock::parse(&sector).unwrap().sectors_per_fat(), 7);
    put_u16(&mut sector, 22, 0);
    assert_eq!(BiosParameterBlock::parse(&sector).unwrap().sectors_per_fat(), 9);
}

#[test]
fn ebpb_with_bad_signature_is_refused() {
    let mut sector = parameter_block();
    sector[510] = 0;
    assert!(matches!(BiosParameterBlock::parse(&sector), Err(VFatError::BadSignature)));
    let mut disk = MemoryDisk::new(image());
    // Sector 3 is the root directory, which has no signature.
    assert!(matches!(BiosParameterBlock::from(&mut disk, 3), Err(VFatError::BadSignature)));
    assert!(matches!(BiosParameterBlock::from(&mut disk, 99), Err(VFatError::Io(_))));
}

#[test]
fn fat_entries_are_classified() {
    assert_eq!(FatEntry(0x0000_0000).status(), Status::Free);
    assert_eq!(FatEntry(0xF000_0000).status(), Status::Free);
    assert_eq!(FatEntry(0x0000_0001).status(), Status::Reserved);
    assert_eq!(FatEntry(0x0000_0002).status(), Status::Data(Cluster(2)));
    assert_eq!(FatEntry(0xA000_0005).status(), Status::Data(Cluster(5)));
    assert_eq!(FatEntry(0x0FFF_FFEF).status(), Status::Data(Cluster(0x0FFF_FFEF)));
    assert_eq!(FatEntry(0x0FFF_FFF0).status(), Status::Reserved);
    assert_eq!(FatEntry(0x0FFF_FFF6).status(), Status::Reserved);
    assert_eq!(FatEntry(0x0FFF_FFF7).status(), Status::Bad);
    assert_eq!(FatEntry(0x0FFF_FFF8).status(), Status::Eoc(0x0FFF_FFF8));
    assert_eq!(FatEntry(0xFFFF_FFFF).status(), Status::Eoc(0xFFFF_FFFF));
}

#[test]
fn cluster_numbers_have_28_bits() {
    assert_eq!(Cluster::from(0xF000_0003), Cluster(3));
    assert_eq!(Cluster::from(0x1234_5678).cluster_num(), 0x0234_5678);
    assert_eq!(Cluster::from(7).cluster_index(), 5);
    assert!(Cluster::from(2).is_valid());
    assert!(!Cluster::from(1).is_valid());
    assert!(!Cluster::from(0xF000_0000).is_valid());
}

#[test]
fn timestamps_are_decoded() {
    let stamp = Timestamp { date: Date((38 << 9) | (3 << 5) | 15), time: Time((12 << 11) | (34 << 5) | 28) };
    assert_eq!(stamp.year(), 2018);
    assert_eq!(stamp.month(), 3);
    assert_eq!(stamp.day(), 15);
    assert_eq!(stamp.hour(), 12);
    assert_eq!(stamp.minute(), 34);
    assert_eq!(stamp.second(), 56);
    let last = Timestamp { date: Date(0xFFFF), time: Time(0xFFFF) };
    assert_eq!(last.year(), 1980 + 127);
    assert_eq!(last.month(), 15);
    assert_eq!(last.day(), 31);
    assert_eq!(last.hour(), 31);
    assert_eq!(last.minute(), 63);
    assert_eq!(last.second(), 62);
}

#[test]
fn attributes_are_bits() {
    let attributes = Attributes(0x01 | 0x04 | 0x20);
    assert!(attributes.read_only());
    assert!(!attributes.hidden());
    assert!(attributes.system());
    assert!(!attributes.volume_id());
    assert!(!attributes.directory());
    assert!(attributes.archive());
    assert!(!attributes.lfn());
    assert!(Attributes(0x0F).lfn());
    assert!(!Attributes(0x1F).lfn());
    assert!(Attributes(0x10).directory());
}

#[test]
fn metadata_is_read_from_a_record() {
    let record = short_entry(b"LONGNA~1", b"TXT", 0x21, 0x0012_0034, 77);
    let metadata = Metadata::parse(&record);
    assert!(metadata.read_only());
    assert!(metadata.archive());
    assert!(!metadata.hidden());
    assert_eq!(metadata.first_cluster(), 0x0012_0034);
    assert_eq!(metadata.created().year(), 2018);
    assert_eq!(metadata.created().second(), 56);
    assert_eq!(metadata.modified().year(), 2019);
    assert_eq!(metadata.modified().month(), 12);
    assert_eq!(metadata.modified().day(), 31);
    assert_eq!(metadata.modified().hour(), 23);
    assert_eq!(metadata.modified().minute(), 59);
    assert_eq!(metadata.modified().second(), 58);
    assert_eq!(metadata.accessed().day(), 16);
    assert_eq!(metadata.accessed().hour(), 0);
    assert_eq!(Metadata::default().first_cluster(), 0);
}

#[test]
fn records_are_parsed() {
    let record = short_entry(b"LONGNA~1", b"TXT", 0x20, 3, 4097);
    let unknown = VFatUnknownDirEntry::parse(&record);
    assert_eq!(unknown.status, b'L');
    assert_eq!(unknown.attributes, Attributes(0x20));
    let regular = VFatRegularDirEntry::parse(&record);
    assert_eq!(&regular.short_file_name, b"LONGNA~1");
    assert_eq!(&regular.short_file_extension, b"TXT");
    assert_eq!(regular.file_size, 4097);
    assert_eq!(regular.short_name(), "LONGNA~1.TXT");
    let lfn = VFatLfnDirEntry::parse(&lfn_entry(0x41, &units_of("abcdefghijklm")));
    assert_eq!(lfn.sequence_number, 0x41);
    assert_eq!(lfn.name_characters, [97, 98, 99, 100, 101]);
    assert_eq!(lfn.name_characters_2, [102, 103, 104, 105, 106, 107]);
    assert_eq!(lfn.name_characters_3, [108, 109]);
}

#[test]
fn short_names_are_trimmed_and_joined() {
    let plain = VFatRegularDirEntry::parse(&short_entry(b"A       ", b"   ", 0, 0, 0));
    assert_eq!(plain.short_name(), "A");
    let dotted = VFatRegularDirEntry::parse(&short_entry(b"A B     ", b"C  ", 0, 0, 0));
    assert_eq!(dotted.short_name(), "A B.C");
    let escaped = VFatRegularDirEntry::parse(&short_entry(b"\x05BC     ", b"D  ", 0, 0, 0));
    assert_eq!(escaped.short_name(), "\u{e5}BC.D");
    let empty = VFatRegularDirEntry::parse(&short_entry(b"        ", b"   ", 0, 0, 0));
    assert_eq!(empty.short_name(), "");
}

#[test]
fn lfn_records_fill_the_buffer_at_their_ordinal() {
    let mut buffer = vec![0u16; 260];
    VFatLfnDirEntry::parse(&lfn_entry(0x42, &units_of("nopqrstuvwxyz"))).copy_into(&mut buffer);
    VFatLfnDirEntry::parse(&lfn_entry(0x01, &units_of("abcdefghijklm"))).copy_into(&mut buffer);
    let text: String = String::from_utf16(&buffer[..26]).unwrap();
    assert_eq!(text, "abcdefghijklmnopqrstuvwxyz");
    assert_eq!(buffer[26], 0);
    // Ordinals beyond 20 and the ordinal of sequence 0 are ignored.
    let before = buffer.clone();
    VFatLfnDirEntry::parse(&lfn_entry(0x15, &units_of("zzzzzzzzzzzzz"))).copy_into(&mut buffer);
    VFatLfnDirEntry::parse(&lfn_entry(0x40, &units_of("zzzzzzzzzzzzz"))).copy_into(&mut buffer);
    assert_eq!(buffer, before);
    VFatLfnDirEntry::parse(&lfn_entry(0x14, &units_of("0123456789abc"))).copy_into(&mut buffer);
    assert_eq!(String::from_utf16(&buffer[247..260]).unwrap(), "0123456789abc");
}

#[test]
fn lfn_reassembly_yields_one_file() {
    let mut data = Vec::new();
    data.extend_from_slice(&lfn_entry(0x42, &[0xFFFF; 13]));
    data.extend_from_slice(&lfn_entry(0x01, &units_of("longname.txt")));
    data.extend_from_slice(&short_entry(b"LONGNA~1", b"TXT", 0x20, 3, 10));
    let entries = EntryIterator::new(data, 512).collect();
    assert_eq!(entries.len(), 1);
    let file = entries[0].as_file().unwrap();
    assert_eq!(file.name(), "longname.txt");
    assert_eq!(entries[0].name(), "longname.txt");
    assert_eq!(file.size(), 10);
    assert!(entries[0].is_file());
    assert!(entries[0].as_dir().is_none());
}

#[test]
fn lfn_of_two_records_is_joined_in_order() {
    let mut data = Vec::new();
    data.extend_from_slice(&lfn_entry(0x42, &units_of("file.text")));
    data.extend_from_slice(&lfn_entry(0x01, &units_of("a-rather-long")));
    data.extend_from_slice(&short_entry(b"A-RATH~1", b"TEX", 0x20, 3, 10));
    data.extend_from_slice(&short_entry(b"PLAIN   ", b"   ", 0x20, 4, 10));
    let entries = EntryIterator::new(data, 512).collect();
    assert_eq!(entries.len(), 2);
    assert_eq!(entries[0].name(), "a-rather-longfile.text");
    // The long name does not carry over to the next entry.
    assert_eq!(entries[1].name(), "PLAIN");
}

#[test]
fn iteration_skips_deleted_and_stops_at_the_end_marker() {
    let mut data = Vec::new();
    data.extend_from_slice(&short_entry(b"\xE5ONE    ", b"   ", 0x20, 3, 1));
    data.extend_from_slice(&short_entry(b"ONE     ", b"   ", 0x20, 3, 1));
    data.extend_from_slice(&[0u8; 32]);
    data.extend_from_slice(&short_entry(b"BEHIND  ", b"   ", 0x20, 3, 1));
    let mut iter = EntryIterator::new(data, 512);
    assert_eq!(iter.next().unwrap().name(), "ONE");
    assert!(iter.next().is_none());
    assert!(iter.next().is_none());
}

#[test]
fn iteration_ignores_a_partial_record() {
    let mut data = Vec::new();
    data.extend_from_slice(&short_entry(b"ONE     ", b"   ", 0x20, 3, 1));
    data.extend_from_slice(&short_entry(b"TWO     ", b"   ", 0x20, 3, 1)[..31]);
    let entries = EntryIterator::new(data, 512).collect();
    assert_eq!(entries.len(), 1);
    assert!(EntryIterator::new(Vec::new(), 512).collect().is_empty());
}

#[test]
fn iteration_is_deterministic() {
    let first: Vec<String> = root_entries(&mut mount()).iter().map(|e| e.name().to_string()).collect();
    let second: Vec<String> = root_entries(&mut mount()).iter().map(|e| e.name().to_string()).collect();
    assert_eq!(first, second);
    assert_eq!(first, vec!["longname.txt", "SUB", "\u{e5}BC.D"]);
}

#[test]
fn volume_is_mounted() {
    let fs = mount();
    assert_eq!(fs.root_dir_cluster(), Cluster(2));
    assert_eq!(fs.bytes_per_cluster(), 512);
}

#[test]
fn mounting_fails_as_the_boot_sectors_say() {
    let mut bad = image();
    bad[511] = 0;
    assert!(matches!(VFat::from(MemoryDisk::new(bad)), Err(VFatError::Mbr(MbrError::BadSignature))));
    let mut bad = image();
    bad[446] = 0x81;
    assert!(matches!(
        VFat::from(MemoryDisk::new(bad)),
        Err(VFatError::Mbr(MbrError::UnknownBootIndicator(0)))
    ));
    let mut bad = image();
    bad[446 + 4] = 0x83;
    match VFat::from(MemoryDisk::new(bad)) {
        Err(VFatError::Io(e)) => assert_eq!(e.kind(), ErrorKind::NotFound),
        _ => panic!(),
    }
    let mut bad = image();
    bad[SECTOR + 510] = 0;
    assert!(matches!(VFat::from(MemoryDisk::new(bad)), Err(VFatError::BadSignature)));
    let mut bad = image();
    put_u16(&mut bad, SECTOR + 11, 0);
    match VFat::from(MemoryDisk::new(bad)) {
        Err(VFatError::Io(e)) => assert_eq!(e.kind(), ErrorKind::Other),
        _ => panic!(),
    }
    let mut bad = image();
    put_u16(&mut bad, SECTOR + 11, 768);
    assert!(matches!(VFat::from(MemoryDisk::new(bad)), Err(VFatError::Io(_))));
    let mut bad = image();
    bad[SECTOR + 13] = 0;
    assert!(matches!(VFat::from(MemoryDisk::new(bad)), Err(VFatError::Io(_))));
}

#[test]
fn fat_chain_is_followed() {
    let mut fs = mount();
    assert_eq!(fs.fat_entry(Cluster(3)).unwrap(), FatEntry(0xF000_0004));
    assert_eq!(fs.next_cluster(Cluster(3)).unwrap(), Some(Cluster(4)));
    assert_eq!(fs.next_cluster(Cluster(10)).unwrap(), Some(Cluster(11)));
    assert_eq!(fs.next_cluster(Cluster(11)).unwrap(), None);
    assert_eq!(fs.next_cluster(Cluster(1)).unwrap_err().kind(), ErrorKind::InvalidData);
    // Cluster 20 is free.
    assert_eq!(fs.next_cluster(Cluster(20)).unwrap_err().kind(), ErrorKind::InvalidData);
}

#[test]
fn walking_a_file_chain_ends_after_its_clusters() {
    let mut fs = mount();
    let steps = (FILE_SIZE + 511) / 512;
    let mut cluster = Some(Cluster(3));
    for _ in 0..steps {
        cluster = fs.next_cluster(cluster.unwrap()).unwrap();
    }
    assert_eq!(cluster, None);
}

#[test]
fn clusters_are_read() {
    let mut fs = mount();
    let mut buf = vec![0u8; 600];
    assert_eq!(fs.read_cluster(Cluster(3), 0, &mut buf).unwrap(), 512);
    for i in 0..512 {
        assert_eq!(buf[i], file_byte(i));
    }
    assert!(buf[512..].iter().all(|b| *b == 0));
    let mut buf = vec![0u8; 10];
    assert_eq!(fs.read_cluster(Cluster(4), 500, &mut buf).unwrap(), 10);
    for i in 0..10 {
        assert_eq!(buf[i], file_byte(512 + 500 + i));
    }
    let mut buf = vec![0u8; 100];
    assert_eq!(fs.read_cluster(Cluster(4), 500, &mut buf).unwrap(), 12);
    assert_eq!(fs.read_cluster(Cluster(4), 512, &mut buf).unwrap(), 0);
    assert_eq!(fs.read_cluster(Cluster(4), 9999, &mut buf).unwrap(), 0);
    assert_eq!(fs.read_cluster(Cluster(1), 0, &mut buf).unwrap_err().kind(), ErrorKind::InvalidInput);
    // Cluster 99 lies beyond the disk.
    assert!(fs.read_cluster(Cluster(99), 0, &mut buf).is_err());
}

#[test]
fn clusters_of_several_sectors_are_read() {
    let mut image = image();
    // Two sectors per cluster: cluster 2 is sectors 3 and 4.
    image[SECTOR + 13] = 2;
    let mut fs = VFat::from(MemoryDisk::new(image.clone())).unwrap();
    assert_eq!(fs.bytes_per_cluster(), 1024);
    let mut buf = vec![0u8; 1024];
    assert_eq!(fs.read_cluster(Cluster(2), 0, &mut buf).unwrap(), 1024);
    assert_eq!(&buf[..], &image[3 * SECTOR..5 * SECTOR]);
    let mut buf = vec![0u8; 700];
    assert_eq!(fs.read_cluster(Cluster(3), 500, &mut buf).unwrap(), 524);
    assert_eq!(&buf[..524], &image[5 * SECTOR + 500..7 * SECTOR]);
}

#[test]
fn chains_are_read() {
    let mut fs = mount();
    let mut buf = vec![1u8, 2, 3];
    assert_eq!(fs.read_chain(Cluster(3), &mut buf).unwrap(), 9 * 512);
    assert_eq!(buf.len(), 3 + 9 * 512);
    assert_eq!(&buf[..3], &[1, 2, 3]);
    for i in 0..FILE_SIZE {
        assert_eq!(buf[3 + i], file_byte(i));
    }
    let mut buf = Vec::new();
    assert_eq!(fs.read_chain(Cluster(13), &mut buf).unwrap(), 512);
    assert_eq!(&buf[..5], b"hello");
    assert_eq!(fs.read_chain(Cluster(0), &mut buf).unwrap_err().kind(), ErrorKind::InvalidData);
}

#[test]
fn fat_cycle_is_detected() {
    let mut image = image();
    put_u32(&mut image, 2 * SECTOR + 4 * 2, 3);
    put_u32(&mut image, 2 * SECTOR + 4 * 3, 2);
    let mut fs = VFat::from(MemoryDisk::new(image)).unwrap();
    let mut buf = Vec::new();
    assert_eq!(fs.read_chain(Cluster(2), &mut buf).unwrap_err().kind(), ErrorKind::InvalidData);
}

#[test]
fn longer_fat_cycles_are_detected() {
    let mut image = image();
    // 3 -> 4 -> ... -> 11 -> 5: a cycle that does not pass through the start.
    put_u32(&mut image, 2 * SECTOR + 4 * 11, 5);
    let mut fs = VFat::from(MemoryDisk::new(image.clone())).unwrap();
    let mut buf = Vec::new();
    assert_eq!(fs.read_chain(Cluster(3), &mut buf).unwrap_err().kind(), ErrorKind::InvalidData);
    // A cluster that follows itself.
    put_u32(&mut image, 2 * SECTOR + 4 * 13, 13);
    let mut fs = VFat::from(MemoryDisk::new(image)).unwrap();
    assert_eq!(fs.read_chain(Cluster(13), &mut buf).unwrap_err().kind(), ErrorKind::InvalidData);
}

#[test]
fn broken_chain_is_an_error() {
    let mut image = image();
    put_u32(&mut image, 2 * SECTOR + 4 * 5, 0x0FFF_FFF7);
    let mut fs = VFat::from(MemoryDisk::new(image)).unwrap();
    let mut buf = Vec::new();
    assert_eq!(fs.read_chain(Cluster(3), &mut buf).unwrap_err().kind(), ErrorKind::InvalidData);
}

#[test]
fn root_directory_is_listed() {
    let mut fs = mount();
    let entries = root_entries(&mut fs);
    assert_eq!(entries.len(), 3);
    assert_eq!(entries[0].name(), "longname.txt");
    assert!(entries[0].is_file());
    assert_eq!(entries[0].as_file().unwrap().size(), FILE_SIZE as u64);
    assert_eq!(entries[1].name(), "SUB");
    assert!(entries[1].is_dir());
    assert_eq!(entries[1].as_dir().unwrap().cluster(), Cluster(12));
    assert_eq!(entries[2].name(), "\u{e5}BC.D");
    assert!(entries[2].metadata().hidden());
    assert!(entries[2].metadata().read_only());
}

#[test]
fn names_are_found_without_regard_to_case() {
    let mut fs = mount();
    let root = Dir::new_root(fs.root_dir_cluster());
    assert_eq!(root.name(), "");
    assert_eq!(root.find(&mut fs, "LongName.TXT").unwrap().name(), "longname.txt");
    assert_eq!(root.find(&mut fs, "sub").unwrap().name(), "SUB");
    assert_eq!(root.find(&mut fs, "\u{c5}bc.d").unwrap().name(), "\u{e5}BC.D");
    // The short name of an entry with a long name is not looked at.
    assert_eq!(root.find(&mut fs, "LONGNA~1.TXT").unwrap_err().kind(), ErrorKind::NotFound);
    assert_eq!(root.find(&mut fs, "missing").unwrap_err().kind(), ErrorKind::NotFound);
}

#[test]
fn every_entry_is_found_by_its_own_name() {
    let mut fs = mount();
    let root = Dir::new_root(fs.root_dir_cluster());
    for entry in root_entries(&mut fs) {
        let found = root.find(&mut fs, entry.name()).unwrap();
        assert_eq!(found.name(), entry.name());
        assert_eq!(found.is_dir(), entry.is_dir());
        assert_eq!(found.metadata().first_cluster(), entry.metadata().first_cluster());
    }
}

#[test]
fn first_of_two_equal_names_is_found() {
    let mut data = Vec::new();
    data.extend_from_slice(&short_entry(b"SAME    ", b"   ", 0x20, 3, 1));
    data.extend_from_slice(&short_entry(b"SAME    ", b"   ", 0x20, 4, 2));
    let found = EntryIterator::new(data, 512).find("same").unwrap();
    assert_eq!(found.as_file().unwrap().size(), 1);
}

#[test]
fn paths_are_resolved() {
    let mut fs = mount();
    assert_eq!(fs.open("/").unwrap().name(), "");
    assert!(fs.open("/").unwrap().is_dir());
    assert_eq!(fs.open("/longname.txt").unwrap().name(), "longname.txt");
    assert_eq!(fs.open("/sub/a.txt").unwrap().name(), "A.TXT");
    assert_eq!(fs.open("/sub/./a.txt").unwrap().name(), "A.TXT");
    assert_eq!(fs.open("//sub//a.txt/").unwrap().name(), "A.TXT");
    assert_eq!(fs.open("/sub/../LONGNAME.TXT").unwrap().name(), "longname.txt");
    assert_eq!(fs.open("/sub/..").unwrap().name(), "");
    let entries = fs.get_entries("/sub/a.txt").unwrap();
    assert_eq!(entries.len(), 3);
    assert_eq!(entries[1].name(), "SUB");
}

#[test]
fn paths_that_lead_nowhere_are_errors() {
    let mut fs = mount();
    assert_eq!(fs.open("sub/a.txt").unwrap_err().kind(), ErrorKind::InvalidInput);
    assert_eq!(fs.open("").unwrap_err().kind(), ErrorKind::InvalidInput);
    assert_eq!(fs.open("/missing").unwrap_err().kind(), ErrorKind::NotFound);
    // A file is no directory.
    assert_eq!(fs.open("/longname.txt/x").unwrap_err().kind(), ErrorKind::NotFound);
    // Above the root there is nothing.
    assert_eq!(fs.open("/..").unwrap_err().kind(), ErrorKind::NotFound);
    assert_eq!(fs.open("/../sub").unwrap_err().kind(), ErrorKind::NotFound);
    assert_eq!(fs.open("/../..").unwrap_err().kind(), ErrorKind::NotFound);
    assert!(fs.get_entries("/..").unwrap().is_empty());
}

#[test]
fn paths_are_made_canonical() {
    let mut fs = mount();
    assert_eq!(fs.canonicalize("/").unwrap(), "/");
    assert_eq!(fs.canonicalize("/SUB/./A.txt").unwrap(), "/SUB/A.TXT");
    assert_eq!(fs.canonicalize("/sub/../LONGNAME.TXT").unwrap(), "/longname.txt");
    assert_eq!(fs.canonicalize("/sub/").unwrap(), "/SUB");
    assert_eq!(fs.canonicalize("/..").unwrap(), "/");
    assert_eq!(fs.canonicalize("relative").unwrap_err().kind(), ErrorKind::InvalidInput);
}

#[test]
fn canonicalize_is_idempotent() {
    let mut fs = mount();
    for path in ["/", "/sub/../LongName.txt", "/SUB/a.TXT", "/sub/.", "/.."] {
        let once = fs.canonicalize(path).unwrap();
        let twice = fs.canonicalize(&once).unwrap();
        assert_eq!(once, twice);
    }
}

#[test]
fn canonical_path_joins_names() {
    let mut path = String::from("/");
    push_component(&mut path, "");
    assert_eq!(path, "/");
    push_component(&mut path, "a");
    assert_eq!(path, "/a");
    push_component(&mut path, "b");
    assert_eq!(path, "/a/b");
    assert_eq!(canonical_path(&Vec::new()), "/");
}

#[test]
fn file_is_read_in_order() {
    let mut fs = mount();
    let mut file = fs.open("/longname.txt").unwrap().into_file().unwrap();
    let mut contents = Vec::new();
    let mut buf = [0u8; 300];
    loop {
        let n = file.read(&mut fs, &mut buf).unwrap();
        if n == 0 {
            break;
        }
        contents.extend_from_slice(&buf[..n]);
    }
    assert_eq!(contents.len(), FILE_SIZE);
    for i in 0..FILE_SIZE {
        assert_eq!(contents[i], file_byte(i));
    }
    // At the end nothing more is read.
    assert_eq!(file.read(&mut fs, &mut buf).unwrap(), 0);
}

#[test]
fn file_is_read_at_once() {
    let mut fs = mount();
    let mut file = fs.open("/longname.txt").unwrap().into_file().unwrap();
    let mut buf = vec![0xEEu8; 5000];
    assert_eq!(file.read(&mut fs, &mut buf).unwrap(), FILE_SIZE);
    for i in 0..FILE_SIZE {
        assert_eq!(buf[i], file_byte(i));
    }
    assert!(buf[FILE_SIZE..].iter().all(|b| *b == 0xEE));
    let mut small = fs.open("/sub/a.txt").unwrap().into_file().unwrap();
    assert_eq!(small.read(&mut fs, &mut buf).unwrap(), 5);
    assert_eq!(&buf[..5], b"hello");
}

#[test]
fn seek_then_read() {
    let mut fs = mount();
    let mut file = fs.open("/longname.txt").unwrap().into_file().unwrap();
    assert_eq!(file.seek(&mut fs, SeekFrom::Start(1024)).unwrap(), 1024);
    let mut buf = [0u8; 512];
    assert_eq!(file.read(&mut fs, &mut buf).unwrap(), 512);
    for i in 0..512 {
        assert_eq!(buf[i], file_byte(1024 + i));
    }
    // The third cluster of the chain is cluster 5, whose data is in sector 6.
    assert_eq!(&buf[..], &image()[6 * SECTOR..7 * SECTOR]);
}

#[test]
fn seek_from_every_origin() {
    let mut fs = mount();
    let mut file = fs.open("/longname.txt").unwrap().into_file().unwrap();
    let mut buf = [0u8; 10];
    assert_eq!(file.seek(&mut fs, SeekFrom::Start(100)).unwrap(), 100);
    assert_eq!(file.seek(&mut fs, SeekFrom::Current(1000)).unwrap(), 1100);
    assert_eq!(file.seek(&mut fs, SeekFrom::Current(-600)).unwrap(), 500);
    assert_eq!(file.read(&mut fs, &mut buf).unwrap(), 10);
    assert_eq!(buf[0], file_byte(500));
    assert_eq!(file.seek(&mut fs, SeekFrom::End(-1)).unwrap(), 4096);
    assert_eq!(file.read(&mut fs, &mut buf).unwrap(), 1);
    assert_eq!(buf[0], file_byte(4096));
    // A seek to the end is allowed, and nothing can be read there.
    assert_eq!(file.seek(&mut fs, SeekFrom::End(0)).unwrap(), 4097);
    assert_eq!(file.seek(&mut fs, SeekFrom::Start(4097)).unwrap(), 4097);
    assert_eq!(file.read(&mut fs, &mut buf).unwrap(), 0);
    assert_eq!(file.seek(&mut fs, SeekFrom::Start(0)).unwrap(), 0);
    assert_eq!(file.read(&mut fs, &mut buf).unwrap(), 10);
    assert_eq!(buf[9], file_byte(9));
}

#[test]
fn seek_outside_the_file_is_refused() {
    let mut fs = mount();
    let mut file = fs.open("/longname.txt").unwrap().into_file().unwrap();
    file.seek(&mut fs, SeekFrom::Start(700)).unwrap();
    assert_eq!(file.seek(&mut fs, SeekFrom::Start(4098)).unwrap_err().kind(), ErrorKind::InvalidInput);
    assert_eq!(file.seek(&mut fs, SeekFrom::Start(u64::MAX)).unwrap_err().kind(), ErrorKind::InvalidInput);
    assert_eq!(file.seek(&mut fs, SeekFrom::Start(1 << 32)).unwrap_err().kind(), ErrorKind::InvalidInput);
    assert_eq!(file.seek(&mut fs, SeekFrom::Current(-701)).unwrap_err().kind(), ErrorKind::InvalidInput);
    assert_eq!(file.seek(&mut fs, SeekFrom::Current(i64::MIN)).unwrap_err().kind(), ErrorKind::InvalidInput);
    assert_eq!(file.seek(&mut fs, SeekFrom::End(1)).unwrap_err().kind(), ErrorKind::InvalidInput);
    assert_eq!(file.seek(&mut fs, SeekFrom::End(-4098)).unwrap_err().kind(), ErrorKind::InvalidInput);
    // The position is where it was.
    let mut buf = [0u8; 1];
    file.read(&mut fs, &mut buf).unwrap();
    assert_eq!(buf[0], file_byte(700));
}

#[test]
fn seek_to_the_end_of_a_file_of_whole_clusters() {
    let mut image = image();
    put_u32(&mut image, 3 * SECTOR + 3 * 32 + 28, 9 * 512);
    let mut fs = VFat::from(MemoryDisk::new(image)).unwrap();
    let mut file = fs.open("/longname.txt").unwrap().into_file().unwrap();
    assert_eq!(file.seek(&mut fs, SeekFrom::End(0)).unwrap(), 9 * 512);
    let mut buf = [0u8; 4];
    assert_eq!(file.read(&mut fs, &mut buf).unwrap(), 0);
    assert_eq!(file.seek(&mut fs, SeekFrom::Current(-2)).unwrap(), 9 * 512 - 2);
    assert_eq!(file.read(&mut fs, &mut buf).unwrap(), 2);
    assert_eq!(buf[1], 0);
}

#[test]
fn file_longer_than_its_chain_is_an_error() {
    let mut image = image();
    put_u32(&mut image, 3 * SECTOR + 3 * 32 + 28, 20 * 512);
    let mut fs = VFat::from(MemoryDisk::new(image)).unwrap();
    let mut file = fs.open("/longname.txt").unwrap().into_file().unwrap();
    let mut buf = vec![0u8; 20 * 512];
    assert_eq!(file.read(&mut fs, &mut buf).unwrap_err().kind(), ErrorKind::InvalidData);
    assert_eq!(file.seek(&mut fs, SeekFrom::Start(15 * 512)).unwrap_err().kind(), ErrorKind::InvalidData);
    // What the chain holds can still be read.
    assert_eq!(file.seek(&mut fs, SeekFrom::Start(0)).unwrap(), 0);
    assert_eq!(file.read(&mut fs, &mut buf[..100]).unwrap(), 100);
}

#[test]
fn memory_disk_reads_sectors() {
    let data: Vec<u8> = (0..1000u32).map(|i| (i % 256) as u8).collect();
    let mut disk = MemoryDisk::with_sector_size(data.clone(), 100);
    assert_eq!(disk.sector_size(), 100);
    let mut buf = [0xAAu8; 120];
    assert_eq!(disk.read_sector(3, &mut buf).unwrap(), 100);
    assert_eq!(&buf[..100], &data[300..400]);
    assert!(buf[100..].iter().all(|b| *b == 0xAA));
    let mut small = [0u8; 7];
    assert_eq!(disk.read_sector(9, &mut small).unwrap(), 7);
    assert_eq!(&small[..], &data[900..907]);
    assert_eq!(disk.read_sector(10, &mut small).unwrap_err().kind(), ErrorKind::UnexpectedEof);
    assert_eq!(disk.read_sector(u64::MAX, &mut small).unwrap_err().kind(), ErrorKind::UnexpectedEof);
    assert_eq!(MemoryDisk::new(data).sector_size(), 512);
}

#[test]
fn cached_sectors_hold_what_the_disk_holds() {
    let data: Vec<u8> = (0..4096u32).map(|i| (i * 7 % 256) as u8).collect();
    let disk = MemoryDisk::with_sector_size(data.clone(), 128);
    let mut cached = CachedDevice::new(disk, Partition { start: 2, sector_size: 512 });
    assert_eq!(cached.sector_size(), 512);
    // Before the partition a sector is a physical sector.
    assert_eq!(cached.get(0).unwrap(), &data[0..128]);
    assert_eq!(cached.get(1).unwrap(), &data[128..256]);
    // In the partition a sector is four physical sectors.
    assert_eq!(cached.get(2).unwrap(), &data[256..768]);
    assert_eq!(cached.get(3).unwrap(), &data[768..1280]);
    assert_eq!(cached.get(8).unwrap(), &data[256 + 6 * 512..256 + 7 * 512]);
    assert_eq!(cached.virtual_to_physical(1).unwrap(), (1, 1));
    assert_eq!(cached.virtual_to_physical(2).unwrap(), (2, 4));
    assert_eq!(cached.virtual_to_physical(5).unwrap(), (14, 4));
    // The next logical sector does not fit on the disk.
    assert!(cached.get(9).is_err());
    assert_eq!(cached.virtual_to_physical(u64::MAX).unwrap_err().kind(), ErrorKind::InvalidInput);
    // A second read gives the same.
    assert_eq!(cached.get(3).unwrap(), &data[768..1280]);
}

#[test]
fn cached_device_reads_through_the_cache() {
    let data: Vec<u8> = (0..2048u32).map(|i| (i % 256) as u8).collect();
    let mut cached = CachedDevice::new(MemoryDisk::new(data.clone()), Partition { start: 0, sector_size: 512 });
    let mut buf = [0u8; 512];
    assert_eq!(cached.read_sector(1, &mut buf).unwrap(), 512);
    assert_eq!(&buf[..], &data[512..1024]);
    let mut small = [0u8; 3];
    assert_eq!(cached.read_sector(1, &mut small).unwrap(), 3);
    assert_eq!(&small[..], &data[512..515]);
    let mut large = [0xEEu8; 600];
    assert_eq!(cached.read_sector(3, &mut large).unwrap(), 512);
    assert_eq!(&large[..512], &data[1536..2048]);
    assert!(large[512..].iter().all(|byte| *byte == 0xEE));
    // What was written to the cached sector is what is read.
    cached.get_mut(1).unwrap()[0] = 0xAB;
    assert_eq!(cached.read_sector(1, &mut small).unwrap(), 3);
    assert_eq!(small, [0xAB, data[513], data[514]]);
    assert!(cached.read_sector(4, &mut buf).is_err());
}

#[test]
fn writes_to_a_cached_sector_stay_in_the_cache() {
    let data = vec![7u8; 1024];
    let mut cached = CachedDevice::new(MemoryDisk::new(data), Partition { start: 0, sector_size: 512 });
    {
        let sector = cached.get_mut(1).unwrap();
        assert_eq!(sector.len(), 512);
        sector[0] = 9;
    }
    assert_eq!(cached.get(1).unwrap()[0], 9);
    assert_eq!(cached.get(1).unwrap()[1], 7);
    assert_eq!(cached.get(0).unwrap()[0], 7);
    assert!(cached.get_mut(2).is_err());
}

#[test]
fn errors_keep_kind_and_message() {
    let error = Error::new(ErrorKind::TimedOut, "too late");
    assert_eq!(error.kind(), ErrorKind::TimedOut);
    assert_eq!(error.message(), "too late");
}

#[test]
fn io_errors_become_mbr_errors() {
    let error: MbrError = Error::new(ErrorKind::TimedOut, "late").into();
    match error {
        MbrError::Io(e) => {
            assert_eq!(e.kind(), ErrorKind::TimedOut);
            assert_eq!(e.message(), "late");
        }
        other => panic!("{:?}", other),
    }
}

#[test]
fn short_names_are_read_as_utf8_where_they_are() {
    let accented = VFatRegularDirEntry::parse(&short_entry(b"caf\xC3\xA9   ", b"\xC3\xA9 ", 0, 0, 0));
    assert_eq!(accented.short_name(), "caf\u{e9}.\u{e9}");
    // 0x05 stands for 0xE5, which here begins a character of three bytes.
    let escaped = VFatRegularDirEntry::parse(&short_entry(b"\x05\x90\x8D     ", b"   ", 0, 0, 0));
    assert_eq!(escaped.short_name(), "\u{540d}");
    // Bytes that are no UTF-8 are read one by one.
    let single = VFatRegularDirEntry::parse(&short_entry(b"caf\xE9    ", b"\xFF  ", 0, 0, 0));
    assert_eq!(single.short_name(), "caf\u{e9}.\u{ff}");
}

#[test]
fn paths_without_names_read_no_directory() {
    // A volume whose root directory cannot be read: its cluster lies behind the image.
    let mut image = image();
    image.truncate(3 * SECTOR);
    let mut fs = VFat::from(MemoryDisk::new(image)).unwrap();
    assert_eq!(fs.open("/").unwrap().name(), "");
    assert_eq!(fs.canonicalize("/./.").unwrap(), "/");
    assert_eq!(fs.get_entries("//").unwrap().len(), 1);
    assert_eq!(fs.get_entries("/..").unwrap().len(), 0);
    let above = fs.open("/..").unwrap_err();
    assert_eq!(above.kind(), ErrorKind::NotFound);
    assert!(!above.is_device());
    let twice = fs.canonicalize("/../..").unwrap_err();
    assert_eq!(twice.kind(), ErrorKind::NotFound);
    assert!(!twice.is_device());
    let relative = fs.open("etc").unwrap_err();
    assert_eq!(relative.kind(), ErrorKind::InvalidInput);
    assert!(!relative.is_device());
    // A name is looked up on the disk, which fails here.
    assert!(fs.open("/a").unwrap_err().is_device());
}

#[test]
fn nothing_is_read_for_an_empty_read_or_a_seek_in_the_first_cluster() {
    let mut file = mount().open("/longname.txt").unwrap().into_file().unwrap();
    // The same volume on a disk that has lost everything behind its boot sectors.
    let mut image = image();
    image.truncate(2 * SECTOR);
    let mut broken = VFat::from(MemoryDisk::new(image)).unwrap();
    assert_eq!(file.read(&mut broken, &mut []).unwrap(), 0);
    assert_eq!(file.seek(&mut broken, SeekFrom::Start(5)).unwrap(), 5);
    let mut byte = [0u8; 1];
    assert!(file.read(&mut broken, &mut byte).unwrap_err().is_device());
    assert!(file.seek(&mut broken, SeekFrom::Start(512)).unwrap_err().is_device());
    let outside = file.seek(&mut broken, SeekFrom::Start(4098)).unwrap_err();
    assert_eq!(outside.kind(), ErrorKind::InvalidInput);
    assert!(!outside.is_device());
    let below = broken.next_cluster(Cluster::from(1)).unwrap_err();
    assert_eq!(below.kind(), ErrorKind::InvalidData);
    assert!(!below.is_device());
    assert!(!broken.next_cluster(Cluster::from(0)).unwrap_err().is_device());
    assert!(broken.next_cluster(Cluster::from(2)).unwrap_err().is_device());
    let mut out = Vec::new();
    assert!(!broken.read_chain(Cluster::from(1), &mut out).unwrap_err().is_device());
}

#[test]
fn a_sector_that_cannot_be_read_is_not_cached() {
    let mut cached = CachedDevice::new(MemoryDisk::new(vec![7u8; 1024]), Partition { start: 0, sector_size: 512 });
    assert!(!cached.is_cached(1));
    assert!(cached.get_mut(2).unwrap_err().is_device());
    assert!(!cached.is_cached(2));
    assert!(cached.get(3).is_err());
    assert!(!cached.is_cached(3));
    let mut buf = [0u8; 512];
    assert!(cached.read_sector(4, &mut buf).is_err());
    assert!(!cached.is_cached(4));
    cached.get_mut(1).unwrap();
    assert!(cached.is_cached(1));
    assert!(!cached.is_cached(0));
    // A sector whose physical sectors have no number is refused before anything is read.
    let mut wide = CachedDevice::new(MemoryDisk::new(vec![7u8; 1024]), Partition { start: 1, sector_size: 1024 });
    let refused = wide.get(u64::MAX).unwrap_err();
    assert_eq!(refused.kind(), ErrorKind::InvalidInput);
    assert!(!refused.is_device());
}
