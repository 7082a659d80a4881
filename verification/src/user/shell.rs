//! The commands of the interactive shell: how a line is taken apart, which
//! command it names, and what each command says.

use vstd::prelude::*;
use vstd::string::*;
use crate::fat32::vfat::entry::Entry;
use crate::fat32::vfat::metadata::Timestamp;
use crate::text::{
    decimal, hex_byte, parse_number, parsed_number, push_decimal, push_hex, same_text, zero_padded,
};

verus! {

/// Error type for `Command` parse failures.
#[derive(Debug, Clone, Copy, PartialEq, Eq, Structural)]
pub enum Error {
    /// The line holds no argument.
    Empty,
}

/// A structure representing a single shell command.
#[derive(Debug)]
pub struct Command {
    pub args: Vec<String>,
}

/// The words of `text` that are complete, and the word that is under way at
/// its end: a word is a run of characters other than the space.
pub open spec fn scanned_words(text: Seq<char>) -> (Seq<Seq<char>>, Seq<char>)
    decreases text.len(),
{
    if text.len() == 0 {
        (Seq::empty(), Seq::empty())
    } else {
        let (done, current) = scanned_words(text.drop_last());
        if text.last() == ' ' {
            (
                if current.len() > 0 {
                    done.push(current)
                } else {
                    done
                },
                Seq::empty(),
            )
        } else {
            (done, current.push(text.last()))
        }
    }
}

/// The words of `text`: its runs of characters other than the space, in
/// order.
pub open spec fn words(text: Seq<char>) -> Seq<Seq<char>> {
    let (done, current) = scanned_words(text);
    if current.len() > 0 {
        done.push(current)
    } else {
        done
    }
}

/// The texts of `args`.
pub open spec fn texts(args: Seq<String>) -> Seq<Seq<char>> {
    Seq::new(args.len(), |i: int| args[i]@)
}

impl Command {
    /// The arguments of the command, the first of which is its name.
    pub open spec fn view(&self) -> Seq<Seq<char>> {
        texts(self.args@)
    }

    /// Parse a command from a string `s`: its arguments are the words of
    /// `s`.
    ///
    /// If `s` contains no arguments, returns `Error::Empty`.
    pub fn parse(s: &str) -> (r: Result<Command, Error>)
        ensures
            match r {
                Ok(command) => command@ == words(s@) && command@.len() > 0,
                Err(Error::Empty) => words(s@).len() == 0,
            },
    {
        let len = s.unicode_len();
        let mut args: Vec<String> = Vec::new();
        let mut start: usize = 0;
        let mut i: usize = 0;
        assert(s@.subrange(0, 0) =~= Seq::<char>::empty());
        assert(texts(args@) =~= Seq::<Seq<char>>::empty());
        while i < len
            invariant
                start <= i <= len,
                len == s@.len(),
                scanned_words(s@.subrange(0, i as int)) == (
                    texts(args@),
                    s@.subrange(start as int, i as int),
                ),
            decreases len - i,
        {
            let ghost next = s@.subrange(0, i + 1);
            proof {
                assert(next.drop_last() =~= s@.subrange(0, i as int));
                assert(next.last() == s@[i as int]);
            }
            if s.get_char(i) == ' ' {
                if i > start {
                    let ghost before = texts(args@);
                    let word = s.substring_char(start, i);
                    args.push(String::from_str(word));
                    assert(texts(args@) =~= before.push(word@));
                }
                start = i + 1;
                assert(s@.subrange(start as int, i + 1) =~= Seq::<char>::empty());
            } else {
                assert(s@.subrange(start as int, i + 1) =~= s@.subrange(
                    start as int,
                    i as int,
                ).push(s@[i as int]));
            }
            i += 1;
        }
        assert(s@.subrange(0, len as int) =~= s@);
        if len > start {
            let ghost before = texts(args@);
            let word = s.substring_char(start, len);
            args.push(String::from_str(word));
            assert(texts(args@) =~= before.push(word@));
        }
        if args.len() == 0 {
            return Err(Error::Empty);
        }
        Ok(Command { args })
    }

    /// Returns this command's path. This is equivalent to the first
    /// argument.
    pub fn path(&self) -> (path: &str)
        requires
            self@.len() > 0,
        ensures
            path@ == self@[0],
    {
        self.args[0].as_str()
    }

    /// The number of arguments, the name of the command among them.
    pub fn len(&self) -> (count: usize)
        ensures
            count == self@.len(),
    {
        self.args.len()
    }

    /// Argument `index` of the command.
    pub fn arg(&self, index: usize) -> (arg: &str)
        requires
            index < self@.len(),
        ensures
            arg@ == self@[index as int],
    {
        self.args[index].as_str()
    }
}

/// The commands that the shell knows.
#[derive(Debug, Clone, Copy, PartialEq, Eq, Structural)]
pub enum Builtin {
    Atags,
    Brk,
    Bt,
    Cat,
    Cd,
    CurrentEl,
    Echo,
    Echohex,
    Exit,
    Gpio,
    Ls,
    Memstat,
    Panic,
    Pwd,
    Sleep,
    Uptime,
}

/// The command that goes by the name `name`, if there is one.
pub open spec fn builtin_of(name: Seq<char>) -> Option<Builtin> {
    if name == "atags"@ {
        Some(Builtin::Atags)
    } else if name == "brk"@ {
        Some(Builtin::Brk)
    } else if name == "bt"@ {
        Some(Builtin::Bt)
    } else if name == "cat"@ {
        Some(Builtin::Cat)
    } else if name == "cd"@ {
        Some(Builtin::Cd)
    } else if name == "current_el"@ {
        Some(Builtin::CurrentEl)
    } else if name == "echo"@ {
        Some(Builtin::Echo)
    } else if name == "echohex"@ {
        Some(Builtin::Echohex)
    } else if name == "exit"@ {
        Some(Builtin::Exit)
    } else if name == "gpio"@ {
        Some(Builtin::Gpio)
    } else if name == "ls"@ {
        Some(Builtin::Ls)
    } else if name == "memstat"@ {
        Some(Builtin::Memstat)
    } else if name == "panic"@ {
        Some(Builtin::Panic)
    } else if name == "pwd"@ {
        Some(Builtin::Pwd)
    } else if name == "sleep"@ {
        Some(Builtin::Sleep)
    } else if name == "uptime"@ {
        Some(Builtin::Uptime)
    } else {
        None
    }
}

/// Returns the command that goes by the name `name`, if there is one.
pub fn builtin(name: &str) -> (command: Option<Builtin>)
    ensures
        command == builtin_of(name@),
{
    if same_text(name, "atags") {
        Some(Builtin::Atags)
    } else if same_text(name, "brk") {
        Some(Builtin::Brk)
    } else if same_text(name, "bt") {
        Some(Builtin::Bt)
    } else if same_text(name, "cat") {
        Some(Builtin::Cat)
    } else if same_text(name, "cd") {
        Some(Builtin::Cd)
    } else if same_text(name, "current_el") {
        Some(Builtin::CurrentEl)
    } else if same_text(name, "echo") {
        Some(Builtin::Echo)
    } else if same_text(name, "echohex") {
        Some(Builtin::Echohex)
    } else if same_text(name, "exit") {
        Some(Builtin::Exit)
    } else if same_text(name, "gpio") {
        Some(Builtin::Gpio)
    } else if same_text(name, "ls") {
        Some(Builtin::Ls)
    } else if same_text(name, "memstat") {
        Some(Builtin::Memstat)
    } else if same_text(name, "panic") {
        Some(Builtin::Panic)
    } else if same_text(name, "pwd") {
        Some(Builtin::Pwd)
    } else if same_text(name, "sleep") {
        Some(Builtin::Sleep)
    } else if same_text(name, "uptime") {
        Some(Builtin::Uptime)
    } else {
        None
    }
}

/// What the shell does with a line.
#[derive(Debug)]
pub enum Step {
    /// The line is empty: nothing is done.
    Nothing,
    /// The line asks for the command `builtin` with the arguments `command`.
    Run(Builtin, Command),
    /// The line names no command that the shell knows.
    Unknown(Command),
}

/// Takes one line of input and says what the shell does with it: the first
/// word of the line names the command, and the words are its arguments.
pub fn shell(line: &str) -> (step: Step)
    ensures
        match step {
            Step::Nothing => words(line@).len() == 0,
            Step::Run(found, command) => command@ == words(line@) && command@.len() > 0
                && builtin_of(command@[0]) == Some(found),
            Step::Unknown(command) => command@ == words(line@) && command@.len() > 0
                && builtin_of(command@[0]) is None,
        },
{
    match Command::parse(line) {
        Ok(command) => {
            match builtin(command.path()) {
                Some(found) => Step::Run(found, command),
                None => Step::Unknown(command),
            }
        },
        Err(Error::Empty) => Step::Nothing,
    }
}

/// What is said of a command that the shell does not know.
pub fn unknown(command: &Command) -> (text: String)
    requires
        command@.len() > 0,
    ensures
        text@ == "unknown command: "@ + command@[0] + "\n"@,
{
    let mut text = String::from_str("unknown command: ");
    text.append(command.path());
    text.append("\n");
    text
}

/// `words` from position `from` on, with one space between them.
pub open spec fn spaced(words: Seq<Seq<char>>, from: int) -> Seq<char>
    decreases words.len() - from,
{
    if from >= words.len() {
        Seq::empty()
    } else if from + 1 == words.len() {
        words[from]
    } else {
        words[from] + seq![' '] + spaced(words, from + 1)
    }
}

/// What `echo` says: its arguments with one space between them, and the end
/// of the line.
pub open spec fn echoed(command: Seq<Seq<char>>) -> Seq<char> {
    spaced(command, 1) + seq!['\n']
}

/// Appends to `out` the arguments of `command` from position `from` on, with
/// one space between them.
fn push_spaced(out: &mut String, command: &Command, from: usize)
    ensures
        final(out)@ == old(out)@ + spaced(command@, from as int),
    decreases command@.len() - from,
{
    if from < command.len() {
        out.append(command.arg(from));
        if from + 1 < command.len() {
            out.push(' ');
            push_spaced(out, command, from + 1);
            assert(out@ =~= old(out)@ + spaced(command@, from as int));
        }
    } else {
        assert(out@ =~= old(out)@ + spaced(command@, from as int));
    }
}

/// The `echo` command: says its arguments, with one space between them, on
/// one line.
pub fn echo(command: &Command) -> (text: String)
    ensures
        text@ == echoed(command@),
{
    let mut text = String::new();
    push_spaced(&mut text, command, 1);
    text.push('\n');
    assert(text@ =~= echoed(command@));
    text
}

/// The bytes `bytes` from position `from` on, each as two hexadecimal digits
/// in upper case.
pub open spec fn hex(bytes: Seq<u8>, from: int) -> Seq<char>
    decreases bytes.len() - from,
{
    if from >= bytes.len() || from < 0 {
        Seq::empty()
    } else {
        hex_byte(bytes[from]) + hex(bytes, from + 1)
    }
}

/// `words` from position `from` on, each as the hexadecimal digits of its
/// bytes, with one space between them.
pub open spec fn spaced_hex(words: Seq<Seq<u8>>, from: int) -> Seq<char>
    decreases words.len() - from,
{
    if from >= words.len() {
        Seq::empty()
    } else if from + 1 == words.len() {
        hex(words[from], 0)
    } else {
        hex(words[from], 0) + seq![' '] + spaced_hex(words, from + 1)
    }
}

/// The bytes of each of the arguments `args`, which are encoded in UTF-8.
pub open spec fn bytes_of(args: Seq<Seq<char>>) -> Seq<Seq<u8>> {
    Seq::new(args.len(), |i: int| vstd::utf8::encode_utf8(args[i]))
}

/// Appends to `out` the bytes `bytes` from position `from` on, each as two
/// hexadecimal digits.
fn push_hex_bytes(out: &mut String, bytes: &Vec<u8>, from: usize)
    ensures
        final(out)@ == old(out)@ + hex(bytes@, from as int),
    decreases bytes@.len() - from,
{
    if from < bytes.len() {
        push_hex(out, bytes[from]);
        push_hex_bytes(out, bytes, from + 1);
        assert(out@ =~= old(out)@ + hex(bytes@, from as int));
    } else {
        assert(out@ =~= old(out)@ + hex(bytes@, from as int));
    }
}

/// Appends to `out` the arguments of `command` from position `from` on, each
/// as the hexadecimal digits of its bytes, with one space between them.
fn push_spaced_hex(out: &mut String, command: &Command, from: usize)
    ensures
        final(out)@ == old(out)@ + spaced_hex(bytes_of(command@), from as int),
    decreases command@.len() - from,
{
    if from < command.len() {
        let bytes = command.arg(from).as_bytes_vec();
        assert(bytes@ == bytes_of(command@)[from as int]);
        push_hex_bytes(out, &bytes, 0);
        if from + 1 < command.len() {
            out.push(' ');
            push_spaced_hex(out, command, from + 1);
            assert(out@ =~= old(out)@ + spaced_hex(bytes_of(command@), from as int));
        }
    } else {
        assert(out@ =~= old(out)@ + spaced_hex(bytes_of(command@), from as int));
    }
}

/// The `echohex` command: says what `echo` says, and on a second line the
/// bytes of each argument as hexadecimal digits, with one space between the
/// arguments.
pub fn echohex(command: &Command) -> (text: String)
    ensures
        text@ == echoed(command@) + spaced_hex(bytes_of(command@), 1) + seq!['\n'],
{
    let mut text = echo(command);
    push_spaced_hex(&mut text, command, 1);
    text.push('\n');
    text
}

/// What `uptime` says of the time `time`, in microseconds since the start:
/// the whole days, and the hours, minutes and seconds of the day that is
/// under way, each in two digits.
pub open spec fn uptime_text(time: u64) -> Seq<char> {
    let seconds = (time / 1000 / 1000) as nat;
    let minutes = seconds / 60;
    let hours = minutes / 60;
    let days = hours / 24;
    "Uptime: "@ + decimal(days) + " day(s), "@ + zero_padded(decimal(hours % 24), 2) + seq![':']
        + zero_padded(decimal(minutes % 60), 2) + seq![':'] + zero_padded(decimal(seconds % 60), 2)
        + seq!['\n']
}

/// The `uptime` command: says for how long the machine has been running,
/// where `time` is the time in microseconds since its start.
pub fn uptime(time: u64) -> (text: String)
    ensures
        text@ == uptime_text(time),
{
    let sec = time / 1000 / 1000;
    let min = sec / 60;
    let hour = min / 60;
    let day = hour / 24;
    let mut text = String::from_str("Uptime: ");
    push_decimal(&mut text, day, 0);
    assert(zero_padded(decimal(day as nat), 0) == decimal(day as nat));
    text.append(" day(s), ");
    push_decimal(&mut text, hour % 24, 2);
    text.push(':');
    push_decimal(&mut text, min % 60, 2);
    text.push(':');
    push_decimal(&mut text, sec % 60, 2);
    text.push('\n');
    assert(text@ =~= uptime_text(time));
    text
}

/// The `pwd` command: says the working directory `cwd`.
pub fn pwd(cwd: &str) -> (text: String)
    ensures
        text@ == cwd@ + seq!['\n'],
{
    let mut text = String::from_str(cwd);
    text.push('\n');
    text
}

/// The path `path` as seen from the directory `cwd`: `path` itself if it
/// starts at the root, else `path` behind `cwd` and a slash, which is left
/// out where `cwd` ends with one.
pub open spec fn joined(cwd: Seq<char>, path: Seq<char>) -> Seq<char> {
    if path.len() > 0 && path[0] == '/' {
        path
    } else if cwd.len() > 0 && cwd.last() == '/' {
        cwd + path
    } else {
        cwd + seq!['/'] + path
    }
}

/// Returns the path `path` as seen from the directory `cwd`.
pub fn join(cwd: &str, path: &str) -> (text: String)
    ensures
        text@ == joined(cwd@, path@),
{
    if path.unicode_len() > 0 && path.get_char(0) == '/' {
        return String::from_str(path);
    }
    let mut text = String::from_str(cwd);
    let len = cwd.unicode_len();
    if !(len > 0 && cwd.get_char(len - 1) == '/') {
        text.push('/');
    }
    text.append(path);
    text
}

/// The time for which `sleep` sleeps when it is given none, or none that is
/// a number: one second, in milliseconds.
pub const DEFAULT_SLEEP: u64 = 1000;

/// The number of milliseconds that the `sleep` command with the arguments
/// `command` sleeps for: its argument if that is a number that fits in 64
/// bits, else one second.
pub open spec fn sleep_time(command: Seq<Seq<char>>) -> u64 {
    if command.len() < 2 {
        DEFAULT_SLEEP
    } else {
        match parsed_number(command[1]) {
            Some(value) => if value <= u64::MAX {
                value as u64
            } else {
                DEFAULT_SLEEP
            },
            None => DEFAULT_SLEEP,
        }
    }
}

/// What is asked of the kernel for a `sleep` command.
#[derive(Debug)]
pub struct SleepRequest {
    /// What is said before sleeping, if too many arguments were given.
    pub usage: Option<String>,
    /// The number of milliseconds to sleep.
    pub time: u64,
}

/// The `sleep` command: asks to sleep for the number of milliseconds given,
/// or for one second. More than one argument is answered with the usage of
/// the command, and the sleep takes place nevertheless.
pub fn sleep(command: &Command) -> (request: SleepRequest)
    requires
        command@.len() > 0,
    ensures
        request.time == sleep_time(command@),
        match request.usage {
            Some(text) => command@.len() > 2 && text@ == "Usage: sleep [time] \n"@,
            None => command@.len() <= 2,
        },
{
    let usage = if command.len() > 2 {
        Some(String::from_str("Usage: sleep [time] \n"))
    } else {
        None
    };
    let time = if command.len() == 1 {
        DEFAULT_SLEEP
    } else {
        match parse_number(command.arg(1)) {
            Some(time) => time,
            None => DEFAULT_SLEEP,
        }
    };
    SleepRequest { usage, time }
}

/// What is said once a sleep is over: the time slept, or the status with
/// which it failed.
pub fn slept(error: u64, time_elapsed: u64) -> (text: String)
    ensures
        text@ == if error != 0 {
            "Failed with "@ + decimal(error as nat) + seq!['\n']
        } else {
            "Slept for "@ + decimal(time_elapsed as nat) + " msec\n"@
        },
{
    if error != 0 {
        let mut text = String::from_str("Failed with ");
        push_decimal(&mut text, error, 0);
        text.push('\n');
        text
    } else {
        let mut text = String::from_str("Slept for ");
        push_decimal(&mut text, time_elapsed, 0);
        text.append(" msec\n");
        text
    }
}

/// What a `gpio` command does to its pin.
#[derive(Debug, Clone, Copy, PartialEq, Eq, Structural)]
pub enum GpioOperation {
    /// Make the pin an output and set it.
    SetPin,
    /// Make the pin an output and clear it.
    ClearPin,
    /// Make the pin an input and say its level.
    ReadLevel,
}

/// What is asked of the hardware for a `gpio` command.
#[derive(Debug, Clone, Copy, PartialEq, Eq, Structural)]
pub struct GpioRequest {
    pub pin: u8,
    pub operation: GpioOperation,
}

/// The operation that goes by the name `name`, if there is one.
pub open spec fn gpio_operation_of(name: Seq<char>) -> Option<GpioOperation> {
    if name == "set"@ {
        Some(GpioOperation::SetPin)
    } else if name == "clear"@ {
        Some(GpioOperation::ClearPin)
    } else if name == "level"@ {
        Some(GpioOperation::ReadLevel)
    } else {
        None
    }
}

/// The pin that `text` names: a number below 256.
pub open spec fn pin_of(text: Seq<char>) -> Option<u8> {
    match parsed_number(text) {
        Some(value) => if value <= u8::MAX {
            Some(value as u8)
        } else {
            None
        },
        None => None,
    }
}

/// The `gpio` command: `gpio [pin] [set|clear|level]`.
///
/// Fails with the usage of the command unless there are two arguments, with
/// a complaint about the pin unless the first is a number below 256, and
/// with a complaint about the operation unless the second names one.
pub fn gpio(command: &Command) -> (r: Result<GpioRequest, String>)
    ensures
        match r {
            Ok(request) => {
                &&& command@.len() == 3
                &&& pin_of(command@[1]) == Some(request.pin)
                &&& gpio_operation_of(command@[2]) == Some(request.operation)
            },
            Err(text) => if command@.len() != 3 {
                text@ == "Usage: gpio [pin] [set|clear|level]\n"@
            } else if pin_of(command@[1]) is None {
                text@ == "Unsupported pin number: "@ + command@[1] + seq!['\n']
            } else {
                gpio_operation_of(command@[2]) is None && text@ == "Unsupported operation "@
                    + command@[2] + seq!['\n']
            },
        },
{
    if command.len() != 3 {
        return Err(String::from_str("Usage: gpio [pin] [set|clear|level]\n"));
    }
    let pin = match parse_number(command.arg(1)) {
        Some(pin) if pin <= 255 => pin as u8,
        _ => {
            let mut text = String::from_str("Unsupported pin number: ");
            text.append(command.arg(1));
            text.push('\n');
            return Err(text);
        },
    };
    let name = command.arg(2);
    let operation = if same_text(name, "set") {
        GpioOperation::SetPin
    } else if same_text(name, "clear") {
        GpioOperation::ClearPin
    } else if same_text(name, "level") {
        GpioOperation::ReadLevel
    } else {
        let mut text = String::from_str("Unsupported operation ");
        text.append(name);
        text.push('\n');
        return Err(text);
    };
    Ok(GpioRequest { pin, operation })
}

/// What is said once a `gpio` command is done, where `level` is the level
/// of the pin if that was asked for.
pub fn gpio_done(request: GpioRequest, level: bool) -> (text: String)
    ensures
        text@ == "Pin "@ + decimal(request.pin as nat) + match request.operation {
            GpioOperation::SetPin => " set\n"@,
            GpioOperation::ClearPin => " cleared\n"@,
            GpioOperation::ReadLevel => if level {
                " level: true\n"@
            } else {
                " level: false\n"@
            },
        },
{
    let mut text = String::from_str("Pin ");
    push_decimal(&mut text, request.pin as u64, 0);
    match request.operation {
        GpioOperation::SetPin => text.append(" set\n"),
        GpioOperation::ClearPin => text.append(" cleared\n"),
        GpioOperation::ReadLevel => if level {
            text.append(" level: true\n")
        } else {
            text.append(" level: false\n")
        },
    }
    text
}

/// What is asked of the file system for an `ls` command.
#[derive(Debug)]
pub struct LsRequest {
    /// Whether hidden entries are listed too.
    pub all: bool,
    /// The directory to list.
    pub path: String,
}

/// The `ls` command: `ls [-a] [directory]`, which lists the working
/// directory `cwd` if no directory is given.
///
/// With one argument, `-a` asks for all entries of the working directory and
/// anything else is the directory to list. With two arguments the first
/// must be `-a`. More than two arguments are answered with the usage of the
/// command.
pub fn ls(command: &Command, cwd: &str) -> (r: Result<LsRequest, String>)
    requires
        command@.len() > 0,
    ensures
        match r {
            Ok(request) => if command@.len() == 1 {
                !request.all && request.path@ == cwd@
            } else if command@.len() == 2 {
                if command@[1] == "-a"@ {
                    request.all && request.path@ == cwd@
                } else {
                    !request.all && request.path@ == joined(cwd@, command@[1])
                }
            } else {
                &&& command@.len() == 3
                &&& command@[1] == "-a"@
                &&& request.all
                &&& request.path@ == joined(cwd@, command@[2])
            },
            Err(text) => if command@.len() > 3 {
                text@ == "Wrong number of args! Usage: ls [-a] [directory]\n"@
            } else {
                &&& command@.len() == 3
                &&& command@[1] != "-a"@
                &&& text@ == "Wrong arg "@ + command@[1] + "! Usage: ls [-a] [directory]\n"@
            },
        },
{
    if command.len() > 3 {
        Err(String::from_str("Wrong number of args! Usage: ls [-a] [directory]\n"))
    } else if command.len() == 2 {
        if same_text(command.arg(1), "-a") {
            Ok(LsRequest { all: true, path: String::from_str(cwd) })
        } else {
            Ok(LsRequest { all: false, path: join(cwd, command.arg(1)) })
        }
    } else if command.len() == 3 {
        if !same_text(command.arg(1), "-a") {
            let mut text = String::from_str("Wrong arg ");
            text.append(command.arg(1));
            text.append("! Usage: ls [-a] [directory]\n");
            Err(text)
        } else {
            Ok(LsRequest { all: true, path: join(cwd, command.arg(2)) })
        }
    } else {
        Ok(LsRequest { all: false, path: String::from_str(cwd) })
    }
}

/// A timestamp as `ls` shows it: `YYYY-MM-DD hh:mm:ss`.
pub open spec fn timestamp_text(year: nat, month: nat, day: nat, hour: nat, minute: nat, second: nat) -> Seq<
    char,
> {
    zero_padded(decimal(year), 4) + seq!['-'] + zero_padded(decimal(month), 2) + seq!['-']
        + zero_padded(decimal(day), 2) + seq![' '] + zero_padded(decimal(hour), 2) + seq![':']
        + zero_padded(decimal(minute), 2) + seq![':'] + zero_padded(decimal(second), 2)
}

/// What `timestamp` is shown as.
pub open spec fn shown(timestamp: Timestamp) -> Seq<char> {
    timestamp_text(
        (1980 + timestamp.date.0 / 512) as nat,
        ((timestamp.date.0 / 32) % 16) as nat,
        (timestamp.date.0 % 32) as nat,
        (timestamp.time.0 / 2048) as nat,
        ((timestamp.time.0 / 32) % 64) as nat,
        (2 * (timestamp.time.0 % 32)) as nat,
    )
}

/// Appends `timestamp` to `out` as `YYYY-MM-DD hh:mm:ss`.
pub fn push_timestamp(out: &mut String, timestamp: Timestamp)
    ensures
        final(out)@ == old(out)@ + shown(timestamp),
{
    push_decimal(out, timestamp.year() as u64, 4);
    out.push('-');
    push_decimal(out, timestamp.month() as u64, 2);
    out.push('-');
    push_decimal(out, timestamp.day() as u64, 2);
    out.push(' ');
    push_decimal(out, timestamp.hour() as u64, 2);
    out.push(':');
    push_decimal(out, timestamp.minute() as u64, 2);
    out.push(':');
    push_decimal(out, timestamp.second() as u64, 2);
    assert(out@ =~= old(out)@ + shown(timestamp));
}

/// The flags of an entry as `ls` shows them: read-only or writable, hidden
/// or visible, system, volume label, directory or file, archive.
pub open spec fn flags_text(entry: crate::fat32::vfat::entry::EntryView) -> Seq<char> {
    let attributes = entry.metadata.attributes;
    seq![
        if attributes.has(0x01) {
            'r'
        } else {
            'w'
        },
        if attributes.has(0x02) {
            'h'
        } else {
            'v'
        },
        if attributes.has(0x04) {
            's'
        } else {
            '-'
        },
        if attributes.has(0x08) {
            'i'
        } else {
            '-'
        },
        if entry.is_dir {
            'd'
        } else {
            'f'
        },
        if attributes.has(0x20) {
            'a'
        } else {
            '-'
        },
    ]
}

/// The line that `ls` writes for an entry: its flags, when it was created
/// and modified, its size and its name, with tabs between them; a directory
/// has the size 0 and a slash behind its name.
pub open spec fn listed(entry: crate::fat32::vfat::entry::EntryView) -> Seq<char> {
    flags_text(entry) + seq!['\t'] + shown(
        Timestamp { date: entry.metadata.creation_date, time: entry.metadata.creation_time },
    ) + seq!['\t'] + shown(
        Timestamp {
            date: entry.metadata.last_modified_date,
            time: entry.metadata.last_modified_time,
        },
    ) + seq!['\t'] + if entry.is_dir {
        seq!['0', '\t'] + entry.name() + seq!['/', '\n']
    } else {
        decimal(entry.file_size as nat) + seq!['\t'] + entry.name() + seq!['\n']
    }
}

/// Returns the line that `ls` writes for `entry`, or `None` if the entry is
/// hidden and `all` is not set.
pub fn list_entry(entry: &Entry, all: bool) -> (line: Option<String>)
    ensures
        match line {
            Some(text) => (all || !entry@.metadata.attributes.has(0x02)) && text@ == listed(entry@),
            None => !all && entry@.metadata.attributes.has(0x02),
        },
{
    let metadata = entry.metadata();
    if metadata.hidden() && !all {
        return None;
    }
    let mut text = String::new();
    text.push(if metadata.read_only() { 'r' } else { 'w' });
    text.push(if metadata.hidden() { 'h' } else { 'v' });
    text.push(if metadata.system() { 's' } else { '-' });
    text.push(if metadata.volume_id() { 'i' } else { '-' });
    text.push(if entry.is_dir() { 'd' } else { 'f' });
    text.push(if metadata.archive() { 'a' } else { '-' });
    proof {
        entry.lemma_kind();
    }
    assert(text@ =~= flags_text(entry@));
    text.push('\t');
    push_timestamp(&mut text, metadata.created());
    text.push('\t');
    push_timestamp(&mut text, metadata.modified());
    text.push('\t');
    match entry {
        Entry::Dir(_) => {
            text.push('0');
            text.push('\t');
            text.append(entry.name());
            text.push('/');
            text.push('\n');
        },
        Entry::File(file) => {
            push_decimal(&mut text, file.size(), 0);
            text.push('\t');
            text.append(entry.name());
            text.push('\n');
        },
    }
    assert(text@ =~= listed(entry@));
    Some(text)
}

/// The `cd` command: `cd [directory]`. Returns the path that is to become
/// the working directory once the file system has made it canonical, or
/// what is said if the number of arguments is wrong.
pub fn cd(command: &Command, cwd: &str) -> (r: Result<String, String>)
    ensures
        match r {
            Ok(path) => command@.len() == 2 && path@ == joined(cwd@, command@[1]),
            Err(text) => command@.len() != 2 && text@ == "Wrong number of args for cd\n"@,
        },
{
    if command.len() != 2 {
        return Err(String::from_str("Wrong number of args for cd\n"));
    }
    Ok(join(cwd, command.arg(1)))
}

/// The paths of the files that `cat` with the arguments `command` writes
/// out, as seen from the directory `cwd`.
pub open spec fn cat_paths(command: Seq<Seq<char>>, cwd: Seq<char>) -> Seq<Seq<char>> {
    Seq::new((command.len() - 1) as nat, |i: int| joined(cwd, command[i + 1]))
}

/// The `cat` command: `cat [file]...`. Returns the paths of the files to
/// write out, in order.
pub fn cat(command: &Command, cwd: &str) -> (paths: Vec<String>)
    requires
        command@.len() > 0,
    ensures
        texts(paths@) == cat_paths(command@, cwd@),
{
    let mut paths: Vec<String> = Vec::new();
    let mut i: usize = 1;
    assert(texts(paths@) =~= Seq::<Seq<char>>::empty());
    while i < command.len()
        invariant
            1 <= i <= command@.len(),
            paths@.len() == i - 1,
            forall|j: int| 0 <= j < paths@.len() ==> (#[trigger] paths@[j])@ == joined(
                cwd@,
                command@[j + 1],
            ),
        decreases command@.len() - i,
    {
        paths.push(join(cwd, command.arg(i)));
        i += 1;
    }
    assert(texts(paths@) =~= cat_paths(command@, cwd@));
    paths
}

} // verus!
