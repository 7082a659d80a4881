use pi_kernel::aarch64::{affinity, current_el, in_backtrace, sp_sel};
use pi_kernel::allocator::bin::Allocator;
use pi_kernel::bootloader::{after_transfer, Next, BINARY_START_ADDR, BOOTLOADER_START_ADDR, MAX_BINARY_SIZE};
use pi_kernel::dwarf::{get_function_from_pc, get_function_from_pc_gimli, place, Attribute, Error as DwarfError, Place};
use pi_kernel::fat32::traits::MemoryDisk;
use pi_kernel::fat32::vfat::error::Error as VFatError;
use pi_kernel::fs::sd::{wait_time, Error as SdError, Sd};
use pi_kernel::fs::system::FileSystem;
use pi_kernel::io::{Error, ErrorKind};
use pi_kernel::pi::gpio::{Function, Gpio};
use pi_kernel::pi::timer::generic_timer::Timer as GenericTimer;
use pi_kernel::pi::timer::system_timer::{spin_sleep_ms, spin_sleep_us, Registers, Timer};
use pi_kernel::pi::uart::{write_str, MiniUart, Wait};
use pi_kernel::process::process::Process;
use pi_kernel::process::scheduler::GlobalScheduler;
use pi_kernel::process::stack::Stack;
use pi_kernel::process::state::State;
use pi_kernel::traps::trap_frame::TrapFrame;
use pi_kernel::ttywrite::{
    parse_baud_rate, parse_flow_control, parse_stop_bits, parse_width, progress, FlowControl, PACKET_SIZE,
};
use pi_kernel::user::files::{list, report, show, Failure};
use pi_kernel::user::shell::LsRequest;

fn abbreviations() -> Vec<u8> {
    vec![
        1, 0x11, 1, 0, 0, // compile unit, with children
        2, 0x2e, 0, 0x11, 0x01, 0x12, 0x07, 0x03, 0x0e, 0, 0, // subprogram: low_pc, high_pc, name
        3, 0x2e, 0, 0x11, 0x01, 0x12, 0x07, 0, 0, // subprogram without a name
        4, 0x34, 0, 0x03, 0x0e, 0, 0, // variable: name
        0,
    ]
}

fn strings() -> Vec<u8> {
    b"main\0kinit\0late\0".to_vec()
}

fn named(low: u64, size: u64, name: u32) -> Vec<u8> {
    let mut die = vec![2];
    die.extend(low.to_le_bytes());
    die.extend(size.to_le_bytes());
    die.extend(name.to_le_bytes());
    die
}

fn unnamed(low: u64, size: u64) -> Vec<u8> {
    let mut die = vec![3];
    die.extend(low.to_le_bytes());
    die.extend(size.to_le_bytes());
    die
}

fn unit(children: &[Vec<u8>]) -> Vec<u8> {
    let mut body = vec![4, 0]; // version 4
    body.extend(0u32.to_le_bytes()); // offset of the abbreviations
    body.push(8); // address size
    body.push(1); // the compile unit
    for child in children {
        body.extend(child);
    }
    body.push(0); // end of the children
    let mut unit = (body.len() as u32).to_le_bytes().to_vec();
    unit.extend(body);
    unit
}

fn debug_info() -> Vec<u8> {
    let variable = {
        let mut die = vec![4];
        die.extend(11u32.to_le_bytes());
        die
    };
    let mut info = unit(&[named(0x1000, 0x100, 0), variable, unnamed(0x2000, 0x10), named(0x3000, 0x80, 5)]);
    info.extend(unit(&[named(0x5000, 0x10, 11), named(0x4000, 0x10, 0)]));
    info
}

fn name_at(pc: u64) -> Result<String, DwarfError> {
    get_function_from_pc_gimli(&debug_info(), &abbreviations(), &strings(), pc)
}

#[test]
fn functions_are_found_by_address() {
    assert_eq!(name_at(0x1000), Ok(String::from("main")));
    assert_eq!(name_at(0x10ff), Ok(String::from("main")));
    assert_eq!(name_at(0x3010), Ok(String::from("kinit")));
    // The second unit is searched once the first is through.
    assert_eq!(name_at(0x5001), Ok(String::from("late")));
    assert_eq!(get_function_from_pc(&debug_info(), &abbreviations(), &strings(), 0x307f), Some(String::from("kinit")));
}

#[test]
fn addresses_without_a_function_have_no_name() {
    assert_eq!(name_at(0xfff), Err(DwarfError::NoEntryAtGivenOffset));
    assert_eq!(name_at(0x1100), Err(DwarfError::NoEntryAtGivenOffset));
    assert_eq!(name_at(0x3080), Err(DwarfError::NoEntryAtGivenOffset));
    assert_eq!(name_at(u64::MAX), Err(DwarfError::NoEntryAtGivenOffset));
    // A function without a name ends the search.
    assert_eq!(name_at(0x2005), Err(DwarfError::NoEntryAtGivenOffset));
    // A function that starts behind the address ends the search of its unit,
    // so a function behind it in the unit is not found.
    assert_eq!(name_at(0x4008), Err(DwarfError::NoEntryAtGivenOffset));
    assert_eq!(get_function_from_pc(&debug_info(), &abbreviations(), &strings(), 0x4008), None);
    assert_eq!(get_function_from_pc_gimli(&[], &[], &[], 0), Err(DwarfError::NoEntryAtGivenOffset));
}

#[test]
fn sections_that_cannot_be_read_are_errors() {
    assert_eq!(
        get_function_from_pc_gimli(&[1, 2, 3], &abbreviations(), &strings(), 0x1000),
        Err(DwarfError::Unreadable)
    );
    // Without abbreviations the entries cannot be read.
    assert_eq!(get_function_from_pc_gimli(&debug_info(), &[], &strings(), 0x1000), Err(DwarfError::Unreadable));
    // The name lies beyond the strings.
    assert_eq!(get_function_from_pc_gimli(&debug_info(), &abbreviations(), &[], 0x1000), Err(DwarfError::Unreadable));
    let mut cut = debug_info();
    cut.truncate(20);
    assert_eq!(get_function_from_pc_gimli(&cut, &abbreviations(), &strings(), 0x1000), Err(DwarfError::Unreadable));
}

#[test]
fn places_of_entries() {
    let low = Attribute::Addr(0x100);
    let size = Attribute::Udata(0x10);
    assert_eq!(place(0x2e, low, size, 0x100), Place::Here);
    assert_eq!(place(0x2e, low, size, 0x10f), Place::Here);
    assert_eq!(place(0x2e, low, size, 0x110), Place::Elsewhere);
    assert_eq!(place(0x2e, low, size, 0xff), Place::Behind);
    assert_eq!(place(0x34, low, size, 0x100), Place::Elsewhere);
    assert_eq!(place(0x2e, Attribute::Udata(0x100), size, 0x100), Place::Elsewhere);
    assert_eq!(place(0x2e, low, Attribute::Addr(0x110), 0x100), Place::Elsewhere);
    assert_eq!(place(0x2e, low, Attribute::Missing, 0x100), Place::Elsewhere);
    assert_eq!(place(0x2e, Attribute::Addr(u64::MAX), Attribute::Udata(u64::MAX), u64::MAX), Place::Here);
    assert_eq!(place(0x2e, Attribute::Addr(5), Attribute::Udata(0), 5), Place::Elsewhere);
}

fn disk() -> MemoryDisk {
    let mut image = vec![0u8; 6 * 512];
    image[446] = 0x80;
    image[446 + 4] = 0x0B;
    image[446 + 8] = 1;
    image[510] = 0x55;
    image[511] = 0xAA;
    let ebpb = 512;
    image[ebpb + 11..ebpb + 13].copy_from_slice(&512u16.to_le_bytes());
    image[ebpb + 13] = 1;
    image[ebpb + 14] = 1;
    image[ebpb + 16] = 1;
    image[ebpb + 36] = 1;
    image[ebpb + 44] = 2;
    image[ebpb + 510] = 0x55;
    image[ebpb + 511] = 0xAA;
    let fat = 2 * 512;
    for cluster in 0..4 {
        image[fat + 4 * cluster..fat + 4 * cluster + 4].copy_from_slice(&0x0FFF_FFFFu32.to_le_bytes());
    }
    let root = 3 * 512;
    image[root..root + 11].copy_from_slice(b"README  MD ");
    image[root + 11] = 0x20;
    image[root + 26] = 3;
    image[root + 28] = 6;
    image[root + 32..root + 43].copy_from_slice(b"ETC        ");
    image[root + 32 + 11] = 0x10;
    image[root + 32 + 26] = 4;
    image[4 * 512..4 * 512 + 6].copy_from_slice(b"hello\n");
    MemoryDisk::new(image)
}

#[test]
fn file_system_is_there_once_initialized() {
    let mut fs: FileSystem<MemoryDisk> = FileSystem::uninitialized();
    assert!(!fs.is_initialized());
    assert!(matches!(fs.initialize(MemoryDisk::new(vec![0u8; 512])), Err(VFatError::Mbr(_))));
    assert!(!fs.is_initialized());
    fs.initialize(disk()).unwrap();
    assert!(fs.is_initialized());
    assert_eq!(fs.open("/readme.md").unwrap().name(), "README.MD");
    assert_eq!(fs.canonicalize("/etc/../README.md").unwrap(), "/README.MD");
    let mut file = fs.open_file("/README.MD").unwrap();
    let mut buf = [0u8; 16];
    assert_eq!(fs.read(&mut file, &mut buf).unwrap(), 6);
    assert_eq!(&buf[..6], b"hello\n");
    assert_eq!(fs.open_file("/etc").unwrap_err().kind(), ErrorKind::Other);
    assert_eq!(fs.open_file("/none").unwrap_err().kind(), ErrorKind::NotFound);
    let root = fs.open_dir("/").unwrap();
    let names: Vec<String> = fs.entries(&root).unwrap().iter().map(|e| e.name().to_string()).collect();
    assert_eq!(names, vec!["README.MD", "ETC"]);
    assert_eq!(fs.open_dir("/etc").unwrap().name(), "ETC");
    assert_eq!(fs.open_dir("/readme.md").unwrap_err().kind(), ErrorKind::Other);
    assert_eq!(fs.open_dir("etc").unwrap_err().kind(), ErrorKind::InvalidInput);
}

#[test]
fn sd_answers_are_understood() {
    assert_eq!(Sd::new(0, 0), Ok(Sd));
    assert_eq!(Sd::new(-1, 5), Err(SdError::TimedOut));
    assert_eq!(Sd::new(-2, 5), Err(SdError::SendingCommandFailed));
    assert_eq!(Sd::new(-3, -7), Err(SdError::UnknownError(-7)));
    assert_eq!(Sd::new(1, 9), Err(SdError::UnknownError(9)));
    assert_eq!(Sd.request(0, 512).unwrap(), 0);
    assert_eq!(Sd.request(0x7FFF_FFFF, 4096).unwrap(), 0x7FFF_FFFF);
    assert_eq!(Sd.request(0x8000_0000, 512).unwrap_err().kind(), ErrorKind::InvalidInput);
    assert_eq!(Sd.request(0, 511).unwrap_err().kind(), ErrorKind::InvalidInput);
    assert_eq!(Sd.response(512, 0).unwrap(), 512);
    assert_eq!(Sd.response(0, -1).unwrap_err().kind(), ErrorKind::TimedOut);
    assert_eq!(Sd.response(0, -2).unwrap_err().kind(), ErrorKind::Other);
    assert_eq!(Sd.response(-5, -9).unwrap_err().kind(), ErrorKind::Other);
    assert_eq!(Sd::error(-1), SdError::TimedOut);
    assert_eq!(Sd::error(-2), SdError::SendingCommandFailed);
    assert_eq!(Sd::error(0), SdError::UnknownError(0));
    assert_eq!(SdError::TimedOut.into_io().kind(), ErrorKind::TimedOut);
    assert_eq!(Error::from(SdError::UnknownError(3)).kind(), ErrorKind::Other);
    assert_eq!(wait_time(7), 700);
    assert_eq!(wait_time(u32::MAX), u32::MAX as u64 * 100);
}

#[test]
fn system_timer_counts_microseconds() {
    let registers = Registers { cs: 0b0100, clo: 0xFFFF_FFF0, chi: 2, compare: [1, 2, 3, 4] };
    let mut timer = Timer::new(registers);
    assert_eq!(timer.read(), 0x2_FFFF_FFF0);
    timer.tick_in(0x20);
    // The compare register wraps around as the low half of the counter does.
    assert_eq!(timer.registers.compare, [1, 0x10, 3, 4]);
    assert_eq!(timer.registers.cs, 0b0110);
    assert_eq!(timer.read(), 0x2_FFFF_FFF0);
    assert!(!spin_sleep_us(10, 100, 109));
    assert!(spin_sleep_us(10, 100, 110));
    assert!(!spin_sleep_us(10, 100, 50));
    assert!(!spin_sleep_us(u64::MAX, 1, u64::MAX));
    assert!(spin_sleep_us(0, 7, 7));
    assert!(!spin_sleep_ms(2, 0, 1_999));
    assert!(spin_sleep_ms(2, 0, 2_000));
    assert!(!spin_sleep_ms(u64::MAX, 0, u64::MAX));
}

#[test]
fn generic_timer_counts_at_its_frequency() {
    let timer = GenericTimer::new(62_500_000, 125_000_000, 0b10);
    assert_eq!(timer.read(), 2_000_000);
    assert!(timer.is_pending());
    assert!(!GenericTimer::new(1, 0, 0b101).is_pending());
    assert_eq!(GenericTimer::new(3, 10, 0).read(), 3_333_333);
    assert_eq!(GenericTimer::new(1, u64::MAX, 0).read(), u64::MAX.wrapping_mul(1_000_000));
}

#[test]
fn uart_waits_until_a_byte_or_the_timeout() {
    let mut uart = MiniUart::new(0x20);
    assert!(!uart.has_byte());
    assert!(uart.can_write());
    assert_eq!(uart.wait_for_byte(0, u64::MAX), Wait::Pending);
    uart.set_read_timeout(750);
    assert_eq!(uart.timeout, Some(750));
    assert_eq!(uart.wait_for_byte(1_000, 751_000), Wait::Pending);
    assert_eq!(uart.wait_for_byte(1_000, 751_001), Wait::TimedOut);
    assert_eq!(uart.wait_for_byte(1_000, 5), Wait::Pending);
    let ready = MiniUart { line_status: 0x01, timeout: Some(0) };
    assert!(ready.has_byte());
    assert!(!ready.can_write());
    // The deadline comes first: a byte that is ready after it is not waited for.
    assert_eq!(ready.wait_for_byte(0, u64::MAX), Wait::TimedOut);
    assert_eq!(ready.wait_for_byte(0, 1), Wait::TimedOut);
    assert_eq!(ready.wait_for_byte(0, 0), Wait::Ready);
    assert_eq!(ready.wait_for_byte(7, 3), Wait::Ready);
    let late = MiniUart { line_status: 0x01, timeout: Some(1) };
    assert_eq!(late.wait_for_byte(0, 5000), Wait::TimedOut);
    assert_eq!(late.wait_for_byte(0, 1000), Wait::Ready);
    assert_eq!(late.wait_for_byte(0, 1001), Wait::TimedOut);
    let patient = MiniUart { line_status: 0x01, timeout: None };
    assert_eq!(patient.wait_for_byte(0, u64::MAX), Wait::Ready);
}

#[test]
fn line_feeds_get_carriage_returns() {
    assert_eq!(write_str(b"a\nb\n\n"), b"a\r\nb\r\n\r\n");
    assert_eq!(write_str(b"plain\r"), b"plain\r");
    assert_eq!(write_str(b""), b"");
}

#[test]
fn system_registers_are_decoded() {
    assert_eq!(current_el(0b0100), 1);
    assert_eq!(current_el(0b1000), 2);
    assert_eq!(current_el(0xFFFF_FFFF_FFFF_FFF3), 0);
    assert_eq!(current_el(0b1111), 3);
    assert_eq!(sp_sel(1), 1);
    assert_eq!(sp_sel(0xFFFF_FFFE), 0);
    assert_eq!(affinity(0x8000_0003), 3);
    assert_eq!(affinity(0x8000_0004), 0);
    assert!(in_backtrace(0x8_0000, 0x7_0000, 0x8_0000, 0x9_0000));
    assert!(in_backtrace(0x9_0000, 1, 0x8_0000, 0x9_0000));
    assert!(!in_backtrace(0x9_0001, 1, 0x8_0000, 0x9_0000));
    assert!(!in_backtrace(0x7_ffff, 1, 0x8_0000, 0x9_0000));
    assert!(!in_backtrace(0x8_0000, 0, 0x8_0000, 0x9_0000));
}

#[test]
fn machine_starts_with_two_processes() {
    let mut allocator = Allocator::new(0x10_0000, 0x40_0000);
    let mut scheduler = GlobalScheduler::uninitialized();
    assert!(!scheduler.is_initialized());
    let mut frame = scheduler.start(&mut allocator, 0x8_1000, 0x8_2000).unwrap();
    assert!(scheduler.is_initialized());
    assert_eq!(frame.tpidr, 1);
    assert_eq!(frame.elr, 0x8_1000);
    assert_eq!(frame.spsr, 0b1101_00_0000);
    assert_eq!(frame.sp, 0x10_0000 + (1 << 20));
    assert_eq!(allocator.allocated_bytes(), 2 << 20);
    // The first tick switches to the second process.
    assert_eq!(scheduler.switch(State::Ready, &mut frame, 10_000), Some(2));
    assert_eq!(frame.elr, 0x8_2000);
    assert_eq!(frame.sp, 0x20_0000 + (1 << 20));
    let third = Process { trap_frame: Box::new(TrapFrame::default()), stack: Stack { base: 0 }, state: State::Ready };
    assert_eq!(scheduler.add(third), Some(3));
}

#[test]
fn machine_does_not_start_without_memory() {
    let mut allocator = Allocator::new(0x10_0000, 0x28_0000);
    let mut scheduler = GlobalScheduler::uninitialized();
    assert!(scheduler.start(&mut allocator, 1, 2).is_none());
    assert!(!scheduler.is_initialized());
    // The stack of the first process was given back.
    assert_eq!(allocator.allocated_bytes(), 0);
}

#[test]
fn whole_files_are_read_to_their_end() {
    let mut fs: FileSystem<MemoryDisk> = FileSystem::uninitialized();
    fs.initialize(disk()).unwrap();
    let mut file = fs.open_file("/README.MD").unwrap();
    let mut out = vec![b'>'];
    assert_eq!(fs.read_to_end(&mut file, &mut out).unwrap(), 6);
    assert_eq!(out, b">hello\n");
    assert_eq!(fs.read_to_end(&mut file, &mut out).unwrap(), 0);
    assert_eq!(out, b">hello\n");
}

#[test]
fn directories_are_listed_line_by_line() {
    let mut fs: FileSystem<MemoryDisk> = FileSystem::uninitialized();
    fs.initialize(disk()).unwrap();
    let request = LsRequest { all: false, path: String::from("/") };
    assert_eq!(
        list(&mut fs, &request).unwrap(),
        "wv--fa\t1980-00-00 00:00:00\t1980-00-00 00:00:00\t6\tREADME.MD\n\
         wv--d-\t1980-00-00 00:00:00\t1980-00-00 00:00:00\t0\tETC/\n"
    );
    let request = LsRequest { all: false, path: String::from("/readme.md") };
    match list(&mut fs, &request) {
        Err(Failure::Opening(e)) => {
            assert_eq!(e.kind(), ErrorKind::Other);
            assert_eq!(report("Error opening directory", &e), format!("Error opening directory: {}\n", e.message()));
        }
        other => panic!("{:?}", other),
    }
    let request = LsRequest { all: true, path: String::from("/none") };
    assert!(matches!(list(&mut fs, &request), Err(Failure::Opening(e)) if e.kind() == ErrorKind::NotFound));
}

#[test]
fn files_are_shown_as_text() {
    let mut fs: FileSystem<MemoryDisk> = FileSystem::uninitialized();
    fs.initialize(disk()).unwrap();
    assert_eq!(show(&mut fs, "/readme.md").unwrap(), "hello\n\n");
    assert!(matches!(show(&mut fs, "/etc"), Err(Failure::Opening(e)) if e.kind() == ErrorKind::Other));
    assert!(matches!(show(&mut fs, "/none"), Err(Failure::Opening(e)) if e.kind() == ErrorKind::NotFound));
    assert_eq!(report("Error", &Error::new(ErrorKind::NotFound, "file not found")), "Error: file not found\n");
}

#[test]
fn controller_failures_are_failures_of_the_device() {
    let timed_out: Error = SdError::TimedOut.into();
    assert_eq!(timed_out.kind(), ErrorKind::TimedOut);
    assert!(timed_out.is_device());
    assert_eq!(timed_out.message(), "SD card operation timed out");
    let failed = SdError::SendingCommandFailed.into_io();
    assert_eq!(failed.kind(), ErrorKind::Other);
    assert!(failed.is_device());
    let unknown = Error::from(SdError::UnknownError(7));
    assert_eq!(unknown.kind(), ErrorKind::Other);
    assert_eq!(unknown.message(), "Got unknown card error");
    assert!(!Error::new(ErrorKind::Other, "no device").is_device());
    assert!(Error::device(ErrorKind::Other, "device").is_device());
}

#[test]
fn pins_have_their_bits_in_the_registers() {
    assert!(Gpio::new(54).is_none());
    let pin = Gpio::new(53).unwrap();
    assert_eq!(pin.select_register(), 5);
    assert_eq!(pin.select_shift(), 9);
    assert_eq!(pin.bank(), 1);
    assert_eq!(pin.mask(), 1 << 21);
    let pin = Gpio::new(14).unwrap();
    assert_eq!(pin.select_register(), 1);
    assert_eq!(pin.select_shift(), 12);
    assert_eq!(pin.into_alt(Function::Alt5, 0xFFFF_FFFF), 0xFFFF_AFFF);
    assert_eq!(pin.into_output(0), 0x1000);
    assert_eq!(pin.into_input(0xFFFF_FFFF), 0xFFFF_8FFF);
    assert_eq!(pin.into_alt(Function::Alt0, 0), 0x4000);
    assert_eq!(pin.bank(), 0);
    assert_eq!(pin.mask(), 1 << 14);
    assert!(pin.level(0x4000));
    assert!(!pin.level(!0x4000));
    assert_eq!(Function::Alt3.code(), 0b111);
    assert_eq!(Function::Alt4.code(), 0b011);
    assert_eq!(Function::Alt1.code(), 0b101);
    assert_eq!(Function::Alt2.code(), 0b110);
}

#[test]
fn line_settings_are_read_from_text() {
    assert_eq!(parse_width("5"), Some(5));
    assert_eq!(parse_width("8"), Some(8));
    assert_eq!(parse_width("4"), None);
    assert_eq!(parse_width("9"), None);
    assert_eq!(parse_width("eight"), None);
    assert_eq!(parse_width(""), None);
    assert_eq!(parse_stop_bits("1"), Some(1));
    assert_eq!(parse_stop_bits("2"), Some(2));
    assert_eq!(parse_stop_bits("0"), None);
    assert_eq!(parse_stop_bits("3"), None);
    assert_eq!(parse_flow_control("none"), Some(FlowControl::FlowNone));
    assert_eq!(parse_flow_control("software"), Some(FlowControl::FlowSoftware));
    assert_eq!(parse_flow_control("hardware"), Some(FlowControl::FlowHardware));
    assert_eq!(parse_flow_control("None"), None);
    assert_eq!(parse_flow_control(""), None);
    assert_eq!(parse_baud_rate("115200"), Some(115200));
    assert_eq!(parse_baud_rate("0"), Some(0));
    assert_eq!(parse_baud_rate("-1"), None);
    assert_eq!(parse_baud_rate("99999999999999999999999"), None);
}

#[test]
fn progress_counts_packets() {
    assert_eq!(PACKET_SIZE, 128);
    assert_eq!(progress(0), 128);
    assert_eq!(progress(128), 256);
    assert_eq!(progress(u64::MAX - 127), u64::MAX);
    assert_eq!(progress(u64::MAX), u64::MAX);
}

#[test]
fn bootloader_starts_what_arrived_whole() {
    assert_eq!(BINARY_START_ADDR, 0x8_0000);
    assert_eq!(MAX_BINARY_SIZE, BOOTLOADER_START_ADDR - BINARY_START_ADDR);
    assert_eq!(after_transfer(None), Next::Jump);
    assert_eq!(after_transfer(Some(ErrorKind::TimedOut)), Next::Retry);
    assert_eq!(after_transfer(Some(ErrorKind::InvalidData)), Next::Retry);
    assert_eq!(after_transfer(Some(ErrorKind::Interrupted)), Next::Report);
    assert_eq!(after_transfer(Some(ErrorKind::Other)), Next::Report);
    assert_eq!(after_transfer(Some(ErrorKind::NotFound)), Next::Report);
}
