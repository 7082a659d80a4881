use pi_kernel::atags::{Atag, Atags, Core, Mem};
use pi_kernel::fat32::vfat::dir::EntryIterator;
use pi_kernel::text::{parse_number, push_decimal, push_decoded, push_hex, push_latin1, same_text};
use pi_kernel::user::line::{line_text, read_line, LineEditor};
use pi_kernel::user::shell::{
    builtin, cat, cd, echo, echohex, gpio, gpio_done, join, list_entry, ls, pwd, shell, sleep, slept, unknown, uptime,
    Builtin, Command, Error, GpioOperation, GpioRequest, Step,
};

fn command(line: &str) -> Command {
    Command::parse(line).unwrap()
}

fn type_bytes(editor: &mut LineEditor, bytes: &[u8], history: &Vec<Vec<u8>>) -> (Vec<u8>, bool) {
    let mut output = Vec::new();
    let mut done = false;
    for byte in bytes {
        done = editor.feed(*byte, history, &mut output);
    }
    (output, done)
}

#[test]
fn commands_are_split_at_spaces() {
    let parsed = command("  echo   hello world ");
    assert_eq!(parsed.args, vec!["echo", "hello", "world"]);
    assert_eq!(parsed.path(), "echo");
    assert_eq!(parsed.len(), 3);
    assert_eq!(parsed.arg(2), "world");
    assert_eq!(command("ls").args, vec!["ls"]);
    assert_eq!(command("a\tb c").args, vec!["a\tb", "c"]);
    assert_eq!(Command::parse("").unwrap_err(), Error::Empty);
    assert_eq!(Command::parse("    ").unwrap_err(), Error::Empty);
}

#[test]
fn builtins_go_by_their_names() {
    let names = [
        ("atags", Builtin::Atags),
        ("brk", Builtin::Brk),
        ("bt", Builtin::Bt),
        ("cat", Builtin::Cat),
        ("cd", Builtin::Cd),
        ("current_el", Builtin::CurrentEl),
        ("echo", Builtin::Echo),
        ("echohex", Builtin::Echohex),
        ("exit", Builtin::Exit),
        ("gpio", Builtin::Gpio),
        ("ls", Builtin::Ls),
        ("memstat", Builtin::Memstat),
        ("panic", Builtin::Panic),
        ("pwd", Builtin::Pwd),
        ("sleep", Builtin::Sleep),
        ("uptime", Builtin::Uptime),
    ];
    for (name, expected) in names {
        assert_eq!(builtin(name), Some(expected));
    }
    assert_eq!(builtin("Echo"), None);
    assert_eq!(builtin("ech"), None);
    assert_eq!(builtin(""), None);
}

#[test]
fn lines_are_dispatched() {
    assert!(matches!(shell(""), Step::Nothing));
    assert!(matches!(shell("   "), Step::Nothing));
    match shell("echo a b") {
        Step::Run(Builtin::Echo, command) => assert_eq!(command.args, vec!["echo", "a", "b"]),
        other => panic!("{:?}", other),
    }
    match shell("frobnicate now") {
        Step::Unknown(command) => assert_eq!(unknown(&command), "unknown command: frobnicate\n"),
        other => panic!("{:?}", other),
    }
}

#[test]
fn echo_joins_its_arguments() {
    assert_eq!(echo(&command("echo")), "\n");
    assert_eq!(echo(&command("echo one")), "one\n");
    assert_eq!(echo(&command("echo  one   two three")), "one two three\n");
}

#[test]
fn echohex_adds_the_bytes() {
    assert_eq!(echohex(&command("echohex")), "\n\n");
    assert_eq!(echohex(&command("echohex AZ")), "AZ\n415A\n");
    assert_eq!(echohex(&command("echohex a \u{e9} 0")), "a \u{e9} 0\n61 C3A9 30\n");
}

#[test]
fn uptime_counts_days_hours_minutes_seconds() {
    assert_eq!(uptime(0), "Uptime: 0 day(s), 00:00:00\n");
    assert_eq!(uptime(999_999), "Uptime: 0 day(s), 00:00:00\n");
    assert_eq!(uptime(59_000_000), "Uptime: 0 day(s), 00:00:59\n");
    let time = ((3 * 24 + 4) * 3600 + 5 * 60 + 6) * 1_000_000u64 + 17;
    assert_eq!(uptime(time), "Uptime: 3 day(s), 04:05:06\n");
    assert_eq!(uptime(u64::MAX), "Uptime: 213503982 day(s), 08:01:49\n");
}

#[test]
fn pwd_says_the_working_directory() {
    assert_eq!(pwd("/"), "/\n");
    assert_eq!(pwd("/a/b"), "/a/b\n");
}

#[test]
fn paths_are_joined() {
    assert_eq!(join("/", "a"), "/a");
    assert_eq!(join("/a", "b/c"), "/a/b/c");
    assert_eq!(join("/a/", "b"), "/a/b");
    assert_eq!(join("/a", "/b"), "/b");
    assert_eq!(join("/a", ""), "/a/");
    assert_eq!(join("", "b"), "/b");
}

#[test]
fn sleep_takes_a_number_or_a_second() {
    assert_eq!(sleep(&command("sleep")).time, 1000);
    assert!(sleep(&command("sleep")).usage.is_none());
    assert_eq!(sleep(&command("sleep 250")).time, 250);
    assert_eq!(sleep(&command("sleep +7")).time, 7);
    assert_eq!(sleep(&command("sleep 0")).time, 0);
    assert_eq!(sleep(&command("sleep soon")).time, 1000);
    assert_eq!(sleep(&command("sleep -5")).time, 1000);
    assert_eq!(sleep(&command("sleep 18446744073709551615")).time, u64::MAX);
    assert_eq!(sleep(&command("sleep 18446744073709551616")).time, 1000);
    let many = sleep(&command("sleep 5 6"));
    assert_eq!(many.time, 5);
    assert_eq!(many.usage.unwrap(), "Usage: sleep [time] \n");
    assert_eq!(slept(0, 250), "Slept for 250 msec\n");
    assert_eq!(slept(1, 250), "Failed with 1\n");
}

#[test]
fn gpio_needs_a_pin_and_an_operation() {
    assert_eq!(
        gpio(&command("gpio 16 set")),
        Ok(GpioRequest { pin: 16, operation: GpioOperation::SetPin })
    );
    assert_eq!(
        gpio(&command("gpio 0 clear")),
        Ok(GpioRequest { pin: 0, operation: GpioOperation::ClearPin })
    );
    assert_eq!(
        gpio(&command("gpio 255 level")),
        Ok(GpioRequest { pin: 255, operation: GpioOperation::ReadLevel })
    );
    assert_eq!(gpio(&command("gpio")).unwrap_err(), "Usage: gpio [pin] [set|clear|level]\n");
    assert_eq!(gpio(&command("gpio 1 set now")).unwrap_err(), "Usage: gpio [pin] [set|clear|level]\n");
    assert_eq!(gpio(&command("gpio 256 set")).unwrap_err(), "Unsupported pin number: 256\n");
    assert_eq!(gpio(&command("gpio x set")).unwrap_err(), "Unsupported pin number: x\n");
    assert_eq!(gpio(&command("gpio 1 toggle")).unwrap_err(), "Unsupported operation toggle\n");
    assert_eq!(gpio_done(GpioRequest { pin: 16, operation: GpioOperation::SetPin }, false), "Pin 16 set\n");
    assert_eq!(gpio_done(GpioRequest { pin: 7, operation: GpioOperation::ClearPin }, true), "Pin 7 cleared\n");
    assert_eq!(gpio_done(GpioRequest { pin: 7, operation: GpioOperation::ReadLevel }, true), "Pin 7 level: true\n");
    assert_eq!(gpio_done(GpioRequest { pin: 7, operation: GpioOperation::ReadLevel }, false), "Pin 7 level: false\n");
}

#[test]
fn ls_takes_a_flag_and_a_directory() {
    let plain = ls(&command("ls"), "/home").unwrap();
    assert_eq!((plain.all, plain.path.as_str()), (false, "/home"));
    let all = ls(&command("ls -a"), "/home").unwrap();
    assert_eq!((all.all, all.path.as_str()), (true, "/home"));
    let dir = ls(&command("ls sub"), "/home").unwrap();
    assert_eq!((dir.all, dir.path.as_str()), (false, "/home/sub"));
    let both = ls(&command("ls -a /etc"), "/home").unwrap();
    assert_eq!((both.all, both.path.as_str()), (true, "/etc"));
    assert_eq!(ls(&command("ls sub -a"), "/").unwrap_err(), "Wrong arg sub! Usage: ls [-a] [directory]\n");
    assert_eq!(
        ls(&command("ls -a b c"), "/").unwrap_err(),
        "Wrong number of args! Usage: ls [-a] [directory]\n"
    );
}

fn record(name: &[u8; 8], ext: &[u8; 3], attributes: u8, size: u32) -> Vec<u8> {
    let mut record = vec![0u8; 32];
    record[0..8].copy_from_slice(name);
    record[8..11].copy_from_slice(ext);
    record[11] = attributes;
    record[14..16].copy_from_slice(&(((1u16) << 11) | (2 << 5) | 3).to_le_bytes());
    record[16..18].copy_from_slice(&(((20u16) << 9) | (1 << 5) | 2).to_le_bytes());
    record[22..24].copy_from_slice(&(((23u16) << 11) | (59 << 5) | 29).to_le_bytes());
    record[24..26].copy_from_slice(&(((39u16) << 9) | (12 << 5) | 31).to_le_bytes());
    record[28..32].copy_from_slice(&size.to_le_bytes());
    record
}

#[test]
fn ls_lines_show_flags_times_size_and_name() {
    let mut data = record(b"NOTES   ", b"TXT", 0x21, 1234);
    data.extend(record(b"BIN     ", b"   ", 0x10, 0));
    data.extend(record(b"SECRET  ", b"   ", 0x06, 5));
    let entries = EntryIterator::new(data, 512).collect();
    assert_eq!(
        list_entry(&entries[0], false).unwrap(),
        "rv--fa\t2000-01-02 01:02:06\t2019-12-31 23:59:58\t1234\tNOTES.TXT\n"
    );
    assert_eq!(
        list_entry(&entries[1], false).unwrap(),
        "wv--d-\t2000-01-02 01:02:06\t2019-12-31 23:59:58\t0\tBIN/\n"
    );
    assert!(list_entry(&entries[2], false).is_none());
    assert_eq!(
        list_entry(&entries[2], true).unwrap(),
        "whs-f-\t2000-01-02 01:02:06\t2019-12-31 23:59:58\t5\tSECRET\n"
    );
}

#[test]
fn cd_and_cat_join_their_arguments() {
    assert_eq!(cd(&command("cd sub"), "/home"), Ok(String::from("/home/sub")));
    assert_eq!(cd(&command("cd /"), "/home"), Ok(String::from("/")));
    assert_eq!(cd(&command("cd"), "/home"), Err(String::from("Wrong number of args for cd\n")));
    assert_eq!(cd(&command("cd a b"), "/home"), Err(String::from("Wrong number of args for cd\n")));
    assert_eq!(cat(&command("cat a /b c/d"), "/x"), vec!["/x/a", "/b", "/x/c/d"]);
    assert!(cat(&command("cat"), "/x").is_empty());
}

#[test]
fn typed_characters_are_echoed() {
    let history = Vec::new();
    let mut editor = LineEditor::new(0);
    assert_eq!(type_bytes(&mut editor, b"ls", &history), (b"ls".to_vec(), false));
    assert_eq!(type_bytes(&mut editor, b"\r", &history), (b"\r\n".to_vec(), true));
    assert_eq!(editor.into_line(), b"ls");
}

#[test]
fn characters_go_in_at_the_cursor() {
    let history = Vec::new();
    let mut editor = LineEditor::new(0);
    type_bytes(&mut editor, b"ac", &history);
    // Left arrow, then a character in the middle: the rest is redrawn.
    assert_eq!(type_bytes(&mut editor, b"\x1b[D", &history).0, b"\x1b[D");
    assert_eq!(type_bytes(&mut editor, b"b", &history).0, b"bc\x08");
    assert_eq!(type_bytes(&mut editor, b"\x1b[C", &history).0, b"\x1b[C");
    // At the end of the line there is nowhere to go.
    assert_eq!(type_bytes(&mut editor, b"\x1b[C", &history).0, b"\x07");
    type_bytes(&mut editor, b"\n", &history);
    assert_eq!(editor.into_line(), b"abc");
}

#[test]
fn backspace_removes_before_the_cursor() {
    let history = Vec::new();
    let mut editor = LineEditor::new(0);
    assert_eq!(type_bytes(&mut editor, b"\x08", &history).0, b"\x07");
    type_bytes(&mut editor, b"abc", &history);
    assert_eq!(type_bytes(&mut editor, b"\x7f", &history).0, b"\x08 \x08");
    type_bytes(&mut editor, b"\x1b[D", &history);
    assert_eq!(type_bytes(&mut editor, b"\x08", &history).0, b"\x08b \x08\x08");
    assert_eq!(type_bytes(&mut editor, b"\x08", &history).0, b"\x07");
    type_bytes(&mut editor, b"\r", &history);
    assert_eq!(editor.into_line(), b"b");
}

#[test]
fn bytes_that_cannot_be_used_ring_the_bell() {
    let history = Vec::new();
    let mut editor = LineEditor::new(0);
    assert_eq!(type_bytes(&mut editor, &[0x00, 0x09, 0x80, 0xff], &history).0, vec![7, 7, 7, 7]);
    assert_eq!(type_bytes(&mut editor, b"\x1bx", &history).0, b"\x07");
    assert_eq!(type_bytes(&mut editor, b"\x1b[Z", &history).0, b"\x07");
    assert_eq!(type_bytes(&mut editor, b"\x1b[D", &history).0, b"\x07");
    assert_eq!(type_bytes(&mut editor, b"\x1b[A", &history).0, b"\x07");
    assert_eq!(type_bytes(&mut editor, b"\x1b[B", &history).0, b"\x07");
    assert_eq!(type_bytes(&mut editor, b" ~", &history).0, b" ~");
    type_bytes(&mut editor, b"\r", &history);
    assert_eq!(editor.into_line(), b" ~");
}

#[test]
fn arrows_walk_the_history() {
    let history = vec![b"first".to_vec(), b"second".to_vec()];
    let mut editor = LineEditor::new(2);
    type_bytes(&mut editor, b"xy", &history);
    // Up: the line is wiped out and the last line of the history is drawn.
    assert_eq!(type_bytes(&mut editor, b"\x1b[A", &history).0, b"\x08\x08  \x08\x08second");
    assert_eq!(
        type_bytes(&mut editor, b"\x1b[A", &history).0,
        b"\x08\x08\x08\x08\x08\x08      \x08\x08\x08\x08\x08\x08first"
    );
    assert_eq!(type_bytes(&mut editor, b"\x1b[A", &history).0, b"\x07");
    assert_eq!(
        type_bytes(&mut editor, b"\x1b[B", &history).0,
        b"\x08\x08\x08\x08\x08     \x08\x08\x08\x08\x08second"
    );
    assert_eq!(type_bytes(&mut editor, b"\x1b[B", &history).0, b"\x07");
    type_bytes(&mut editor, b"!\r", &history);
    assert_eq!(editor.into_line(), b"second!");
}

#[test]
fn lines_are_read_from_bytes() {
    let mut history = Vec::new();
    let read = read_line(b"echo hi\rrest", &mut history);
    assert_eq!(read.line.unwrap(), "echo hi");
    assert_eq!(read.output, b"echo hi\r\n");
    assert_eq!(read.taken, 8);
    assert_eq!(history, vec![b"echo hi".to_vec()]);
    let read = read_line(b"\x1b[A!\n", &mut history);
    assert_eq!(read.line.unwrap(), "echo hi!");
    assert_eq!(history.len(), 2);
    let read = read_line(b"unfinished", &mut history);
    assert!(read.line.is_none());
    assert_eq!(read.taken, 10);
    assert_eq!(read.output, b"unfinished");
    assert_eq!(history.len(), 2);
    let read = read_line(b"", &mut history);
    assert!(read.line.is_none());
    assert_eq!(read.taken, 0);
}

#[test]
fn line_text_is_utf8_or_empty() {
    assert_eq!(line_text(b"plain".to_vec()), "plain");
    assert_eq!(line_text(vec![0xc3, 0xa9]), "\u{e9}");
    assert_eq!(line_text(vec![b'a', 0xff]), "");
    assert_eq!(line_text(Vec::new()), "");
}

#[test]
fn numbers_are_written_and_read() {
    let mut text = String::from("n=");
    push_decimal(&mut text, 0, 0);
    push_decimal(&mut text, 7, 3);
    push_decimal(&mut text, 1234, 2);
    push_decimal(&mut text, u64::MAX, 0);
    assert_eq!(text, "n=0007123418446744073709551615");
    let mut hex = String::new();
    push_hex(&mut hex, 0x00);
    push_hex(&mut hex, 0x9a);
    push_hex(&mut hex, 0xff);
    assert_eq!(hex, "009AFF");
    assert_eq!(parse_number("0"), Some(0));
    assert_eq!(parse_number("007"), Some(7));
    assert_eq!(parse_number("+12"), Some(12));
    assert_eq!(parse_number(""), None);
    assert_eq!(parse_number("+"), None);
    assert_eq!(parse_number("1+"), None);
    assert_eq!(parse_number("12a"), None);
    assert_eq!(parse_number(" 1"), None);
    assert_eq!(parse_number("\u{664}"), None);
    assert!(same_text("abc", "abc"));
    assert!(!same_text("abc", "abd"));
    assert!(!same_text("abc", "ab"));
    assert!(same_text("", ""));
    let mut latin = String::new();
    push_latin1(&mut latin, &[b'a', 0xe5, b'z'], 2);
    assert_eq!(latin, "a\u{e5}");
}

fn tag_list() -> Vec<u32> {
    let mut words = vec![5, 0x5441_0001, 1, 4096, 0];
    words.extend([4, 0x5441_0002, 0x3c00_0000, 0]);
    words.extend([2, 0x5441_0005]);
    // "bcm=1 x" and its end, in four-byte words.
    words.extend([4, 0x5441_0009, u32::from_le_bytes(*b"bcm="), u32::from_le_bytes(*b"1 x\0")]);
    words.extend([0, 0]);
    words
}

#[test]
fn atags_are_iterated() {
    let mut atags = Atags::new(tag_list());
    // The core tag that starts the list is skipped.
    assert_eq!(atags.next().unwrap().mem(), Some(Mem { size: 0x3c00_0000, start: 0 }));
    assert!(matches!(atags.next(), Some(Atag::Unknown(0x5441_0005))));
    assert_eq!(atags.next().unwrap().cmd().unwrap(), "bcm=1 x");
    assert!(matches!(atags.next(), Some(Atag::Null)));
    assert!(atags.next().is_none());
    assert!(atags.next().is_none());
}

#[test]
fn atags_stop_at_malformed_tags() {
    assert!(Atags::new(Vec::new()).next().is_none());
    assert!(Atags::new(vec![5]).next().is_none());
    // A tag that is smaller than its header.
    assert!(Atags::new(vec![1, 0x5441_0001, 0, 0]).next().is_none());
    // A tag that reaches beyond the words.
    assert!(Atags::new(vec![9, 0x5441_0001, 0, 0]).next().is_none());
    // A command line without an end is cut at the end of its tag.
    let mut atags = Atags::new(vec![2, 0x5441_0001, 3, 0x5441_0009, u32::from_le_bytes(*b"abcd"), 0, 0]);
    assert_eq!(atags.next().unwrap().cmd().unwrap(), "abcd");
    // A core tag behind the first is read.
    let mut atags = Atags::new(vec![2, 0x5441_0001, 5, 0x5441_0001, 1, 2, 3, 0, 0]);
    assert_eq!(atags.next().unwrap().core_tag(), Some(Core { flags: 1, page_size: 2, root_dev: 3 }));
}

#[test]
fn tags_answer_only_for_their_kind() {
    assert_eq!(Atag::Null.core_tag(), None);
    assert_eq!(Atag::Unknown(1).mem(), None);
    assert_eq!(Atag::Mem(Mem { size: 1, start: 2 }).cmd(), None);
    assert_eq!(Atag::Cmd(String::from("x")).cmd(), Some(String::from("x")));
}

#[test]
fn bytes_are_decoded_as_utf8_or_one_by_one() {
    let mut text = String::from(">");
    push_decoded(&mut text, b"a\xC3\xA9z", 3);
    assert_eq!(text, ">a\u{e9}");
    push_decoded(&mut text, b"a\xC3\xA9z", 2);
    assert_eq!(text, ">a\u{e9}a\u{c3}");
    push_decoded(&mut text, b"", 0);
    assert_eq!(text, ">a\u{e9}a\u{c3}");
}
