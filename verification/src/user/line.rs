//! The line editor of the shell: what each byte from the console does to
//! the line under way, and what is written back to the console.

use vstd::prelude::*;
use crate::text::text_from_utf8;

verus! {

/// The bell: what is written when a byte cannot be used.
pub const BEL: u8 = 0x07;

/// Backspace, which also moves the cursor of the console one place left.
pub const BS: u8 = 0x08;

/// Line feed.
pub const LF: u8 = 0x0a;

/// Carriage return.
pub const CR: u8 = 0x0d;

/// Escape, which starts the sequence of an arrow key.
pub const ESC: u8 = 0x1b;

/// Delete.
pub const DEL: u8 = 0x7f;

/// How far the sequence of an arrow key has come.
#[derive(Debug, Clone, Copy, PartialEq, Eq, Structural)]
pub enum Mode {
    /// No sequence is under way.
    Plain,
    /// An escape was read.
    Escaped,
    /// An escape and an opening bracket were read.
    Bracketed,
}

/// A line under way.
pub struct Editing {
    /// The bytes of the line.
    pub line: Seq<u8>,
    /// The position in the line at which the next byte goes in.
    pub cursor: int,
    /// The position in the history of the line that was called up last; the
    /// length of the history if none was.
    pub history_index: int,
    /// How far the sequence of an arrow key has come.
    pub mode: Mode,
}

/// What a byte from the console leads to.
pub struct Outcome {
    /// The line afterwards.
    pub state: Editing,
    /// The bytes to write to the console.
    pub output: Seq<u8>,
    /// Whether the line is complete.
    pub done: bool,
}

/// `count` times the byte `byte`.
pub open spec fn repeated(byte: u8, count: int) -> Seq<u8> {
    Seq::new(count as nat, |i: int| byte)
}

/// Whether `byte` is a character that can stand in a line: a space or a
/// visible ASCII character.
pub open spec fn printable(byte: u8) -> bool {
    0x20 <= byte <= 0x7e
}

/// A byte that cannot be used rings the bell and changes nothing but the
/// mode.
pub open spec fn refused(state: Editing) -> Outcome {
    Outcome { state: Editing { mode: Mode::Plain, ..state }, output: seq![BEL], done: false }
}

/// What the byte `byte` leads to outside of an arrow-key sequence.
///
/// Backspace and delete remove the character before the cursor and redraw
/// the rest of the line. Carriage return and line feed complete the line.
/// Escape starts a sequence. A printable character goes in at the cursor,
/// and the rest of the line is redrawn behind it.
pub open spec fn plain_step(state: Editing, byte: u8) -> Outcome {
    if byte == BS || byte == DEL {
        if state.cursor > 0 {
            let line = state.line.remove(state.cursor - 1);
            let cursor = state.cursor - 1;
            Outcome {
                state: Editing { line, cursor, ..state },
                output: seq![BS] + line.subrange(cursor, line.len() as int) + seq![0x20u8]
                    + repeated(BS, line.len() - cursor) + seq![BS],
                done: false,
            }
        } else {
            refused(state)
        }
    } else if byte == CR || byte == LF {
        Outcome { state, output: seq![CR, LF], done: true }
    } else if byte == ESC {
        Outcome { state: Editing { mode: Mode::Escaped, ..state }, output: Seq::empty(), done: false }
    } else if printable(byte) {
        let line = state.line.insert(state.cursor, byte);
        let cursor = state.cursor + 1;
        Outcome {
            state: Editing { line, cursor, ..state },
            output: line.subrange(state.cursor, line.len() as int) + repeated(
                BS,
                line.len() - cursor,
            ),
            done: false,
        }
    } else {
        refused(state)
    }
}

/// What the last byte `byte` of an arrow-key sequence leads to.
///
/// `D` and `C` move the cursor left and right inside the line. `A` and `B`
/// go back and forth in the history: the line on the console is wiped out,
/// and the line from the history takes its place, with the cursor at its
/// end.
pub open spec fn arrow_step(state: Editing, byte: u8, history: Seq<Seq<u8>>) -> Outcome {
    let plain = Editing { mode: Mode::Plain, ..state };
    if byte == 0x44 {
        if state.cursor > 0 {
            Outcome {
                state: Editing { cursor: state.cursor - 1, ..plain },
                output: seq![ESC, 0x5bu8, 0x44u8],
                done: false,
            }
        } else {
            refused(state)
        }
    } else if byte == 0x43 {
        if state.cursor < state.line.len() {
            Outcome {
                state: Editing { cursor: state.cursor + 1, ..plain },
                output: seq![ESC, 0x5bu8, 0x43u8],
                done: false,
            }
        } else {
            refused(state)
        }
    } else if byte == 0x41 || byte == 0x42 {
        let index = if byte == 0x41 && state.history_index > 0 {
            Some(state.history_index - 1)
        } else if byte == 0x42 && history.len() > 0 && state.history_index < history.len() - 1 {
            Some(state.history_index + 1)
        } else {
            None
        };
        match index {
            Some(index) => {
                let old_len = state.line.len() as int;
                let line = history[index];
                Outcome {
                    state: Editing {
                        line,
                        cursor: line.len() as int,
                        history_index: index,
                        mode: Mode::Plain,
                    },
                    output: repeated(BS, old_len) + repeated(0x20u8, old_len) + repeated(
                        BS,
                        old_len,
                    ) + line,
                    done: false,
                }
            },
            None => refused(state),
        }
    } else {
        refused(state)
    }
}

/// What the byte `byte` from the console leads to, where `history` holds the
/// lines entered before.
pub open spec fn stepped(state: Editing, byte: u8, history: Seq<Seq<u8>>) -> Outcome {
    match state.mode {
        Mode::Plain => plain_step(state, byte),
        Mode::Escaped => if byte == 0x5b {
            Outcome {
                state: Editing { mode: Mode::Bracketed, ..state },
                output: Seq::empty(),
                done: false,
            }
        } else {
            refused(state)
        },
        Mode::Bracketed => arrow_step(state, byte, history),
    }
}

/// The lines of `history`.
pub open spec fn lines(history: Seq<Vec<u8>>) -> Seq<Seq<u8>> {
    Seq::new(history.len(), |i: int| history[i]@)
}

/// The editor of one line.
#[derive(Debug)]
pub struct LineEditor {
    line: Vec<u8>,
    cursor: usize,
    history_index: usize,
    mode: Mode,
}

/// Appends `count` times the byte `byte` to `out`.
fn push_repeated(out: &mut Vec<u8>, byte: u8, count: usize)
    ensures
        final(out)@ == old(out)@ + repeated(byte, count as int),
{
    let mut i: usize = 0;
    assert(out@ =~= old(out)@ + repeated(byte, 0));
    while i < count
        invariant
            i <= count,
            out@ == old(out)@ + repeated(byte, i as int),
        decreases count - i,
    {
        out.push(byte);
        assert(out@ =~= old(out)@ + repeated(byte, i + 1));
        i += 1;
    }
}

/// Appends the bytes of `line` from position `from` on to `out`.
fn push_rest(out: &mut Vec<u8>, line: &Vec<u8>, from: usize)
    requires
        from <= line@.len(),
    ensures
        final(out)@ == old(out)@ + line@.subrange(from as int, line@.len() as int),
{
    let mut i: usize = from;
    assert(out@ =~= old(out)@ + line@.subrange(from as int, from as int));
    while i < line.len()
        invariant
            from <= i <= line@.len(),
            out@ == old(out)@ + line@.subrange(from as int, i as int),
        decreases line@.len() - i,
    {
        out.push(line[i]);
        assert(out@ =~= old(out)@ + line@.subrange(from as int, i + 1));
        i += 1;
    }
}

impl LineEditor {
    /// The line under way, for specifications.
    pub closed spec fn view(&self) -> Editing {
        Editing {
            line: self.line@,
            cursor: self.cursor as int,
            history_index: self.history_index as int,
            mode: self.mode,
        }
    }

    /// The invariant of the editor, where the history has `history_len`
    /// lines: the cursor is inside the line or at its end, and the position in
    /// the history is inside the history or at its end.
    pub open spec fn wf(&self, history_len: nat) -> bool {
        &&& 0 <= self@.cursor <= self@.line.len()
        &&& 0 <= self@.history_index <= history_len
    }

    /// An editor with an empty line, for a history of `history_len` lines.
    pub fn new(history_len: usize) -> (editor: LineEditor)
        ensures
            editor.wf(history_len as nat),
            editor@ == (Editing {
                line: Seq::empty(),
                cursor: 0,
                history_index: history_len as int,
                mode: Mode::Plain,
            }),
    {
        LineEditor { line: Vec::new(), cursor: 0, history_index: history_len, mode: Mode::Plain }
    }

    /// Takes the byte `byte` from the console, where `history` holds the
    /// lines entered before. Appends to `output` what is to be written to the
    /// console, and returns whether the line is complete.
    pub fn feed(&mut self, byte: u8, history: &Vec<Vec<u8>>, output: &mut Vec<u8>) -> (done: bool)
        requires
            old(self).wf(history@.len()),
        ensures
            final(self).wf(history@.len()),
            final(self)@ == stepped(old(self)@, byte, lines(history@)).state,
            final(output)@ == old(output)@ + stepped(old(self)@, byte, lines(history@)).output,
            done == stepped(old(self)@, byte, lines(history@)).done,
    {
        match self.mode {
            Mode::Plain => {
                if byte == BS || byte == DEL {
                    if self.cursor > 0 {
                        self.cursor -= 1;
                        self.line.remove(self.cursor);
                        output.push(BS);
                        push_rest(output, &self.line, self.cursor);
                        output.push(0x20);
                        push_repeated(output, BS, self.line.len() - self.cursor);
                        output.push(BS);
                        assert(output@ =~= old(output)@ + stepped(
                            old(self)@,
                            byte,
                            lines(history@),
                        ).output);
                    } else {
                        output.push(BEL);
                        assert(output@ =~= old(output)@ + seq![BEL]);
                    }
                    false
                } else if byte == CR || byte == LF {
                    output.push(CR);
                    output.push(LF);
                    assert(output@ =~= old(output)@ + seq![CR, LF]);
                    true
                } else if byte == ESC {
                    self.mode = Mode::Escaped;
                    assert(output@ =~= old(output)@ + Seq::<u8>::empty());
                    false
                } else if byte >= 0x20 && byte <= 0x7e {
                    self.line.insert(self.cursor, byte);
                    push_rest(output, &self.line, self.cursor);
                    assert(self.cursor < self.line.len());
                    self.cursor += 1;
                    push_repeated(output, BS, self.line.len() - self.cursor);
                    false
                } else {
                    output.push(BEL);
                    assert(output@ =~= old(output)@ + seq![BEL]);
                    false
                }
            },
            Mode::Escaped => {
                if byte == 0x5b {
                    self.mode = Mode::Bracketed;
                    assert(output@ =~= old(output)@ + Seq::<u8>::empty());
                } else {
                    self.mode = Mode::Plain;
                    output.push(BEL);
                    assert(output@ =~= old(output)@ + seq![BEL]);
                }
                false
            },
            Mode::Bracketed => {
                self.mode = Mode::Plain;
                if byte == 0x44 {
                    if self.cursor > 0 {
                        self.cursor -= 1;
                        output.push(ESC);
                        output.push(0x5b);
                        output.push(0x44);
                        assert(output@ =~= old(output)@ + seq![ESC, 0x5bu8, 0x44u8]);
                    } else {
                        output.push(BEL);
                        assert(output@ =~= old(output)@ + seq![BEL]);
                    }
                } else if byte == 0x43 {
                    if self.cursor < self.line.len() {
                        self.cursor += 1;
                        output.push(ESC);
                        output.push(0x5b);
                        output.push(0x43);
                        assert(output@ =~= old(output)@ + seq![ESC, 0x5bu8, 0x43u8]);
                    } else {
                        output.push(BEL);
                        assert(output@ =~= old(output)@ + seq![BEL]);
                    }
                } else if byte == 0x41 || byte == 0x42 {
                    if byte == 0x41 && self.history_index > 0 {
                        self.history_index -= 1;
                    } else if byte == 0x42 && history.len() > 0 && self.history_index
                        < history.len() - 1 {
                        self.history_index += 1;
                    } else {
                        output.push(BEL);
                        assert(output@ =~= old(output)@ + seq![BEL]);
                        return false;
                    }
                    let old_len = self.line.len();
                    push_repeated(output, BS, old_len);
                    push_repeated(output, 0x20, old_len);
                    push_repeated(output, BS, old_len);
                    let mut line: Vec<u8> = Vec::new();
                    push_rest(&mut line, &history[self.history_index], 0);
                    assert(line@ =~= history@[self.history_index as int]@);
                    push_rest(output, &line, 0);
                    assert(line@.subrange(0, line@.len() as int) =~= line@);
                    self.cursor = line.len();
                    self.line = line;
                    assert(lines(history@)[self.history_index as int] == self.line@);
                } else {
                    output.push(BEL);
                    assert(output@ =~= old(output)@ + seq![BEL]);
                }
                false
            },
        }
    }

    /// The bytes of the line.
    pub fn into_line(self) -> (line: Vec<u8>)
        ensures
            line@ == self@.line,
    {
        self.line
    }
}

/// The text of a line: the text that its bytes encode in UTF-8, and the
/// empty text if they encode none.
pub open spec fn text_of(line: Seq<u8>) -> Seq<char> {
    if vstd::utf8::valid_utf8(line) {
        vstd::utf8::decode_utf8(line)
    } else {
        Seq::empty()
    }
}

/// Returns the text of a line.
pub fn line_text(line: Vec<u8>) -> (text: String)
    ensures
        text@ == text_of(line@),
{
    match text_from_utf8(line) {
        Some(text) => text,
        None => String::new(),
    }
}

/// Where editing stands after the bytes `input`, taken in order from the
/// state `state`: the state reached, what was written to the console, and
/// how many bytes were taken. Editing stops at the byte that completes the
/// line.
pub open spec fn edited(state: Editing, input: Seq<u8>, history: Seq<Seq<u8>>) -> (
    Editing,
    Seq<u8>,
    int,
    bool,
)
    decreases input.len(),
{
    if input.len() == 0 {
        (state, Seq::empty(), 0, false)
    } else {
        let outcome = stepped(state, input[0], history);
        if outcome.done {
            (outcome.state, outcome.output, 1, true)
        } else {
            let (last, output, taken, done) = edited(
                outcome.state,
                input.subrange(1, input.len() as int),
                history,
            );
            (last, outcome.output + output, taken + 1, done)
        }
    }
}

/// What reading a line from some bytes gives.
#[derive(Debug)]
pub struct LineRead {
    /// The line, if the bytes held a whole one.
    pub line: Option<String>,
    /// What is to be written to the console.
    pub output: Vec<u8>,
    /// The number of bytes that were taken.
    pub taken: usize,
}

/// Reads a line from the bytes `input`, which come from the console, and
/// adds it to `history`.
///
/// The bytes are taken in order up to the carriage return or line feed that
/// completes the line. If `input` ends before the line is complete, there is
/// no line and `history` is unchanged.
pub fn read_line(input: &[u8], history: &mut Vec<Vec<u8>>) -> (read: LineRead)
    ensures
        ({
            let (last, output, taken, done) = edited(
                Editing {
                    line: Seq::empty(),
                    cursor: 0,
                    history_index: old(history)@.len() as int,
                    mode: Mode::Plain,
                },
                input@,
                lines(old(history)@),
            );
            &&& read.output@ == output
            &&& read.taken == taken
            &&& match read.line {
                Some(text) => done && text@ == text_of(last.line) && lines(final(history)@)
                    == lines(old(history)@).push(last.line),
                None => !done && final(history)@ == old(history)@,
            }
        }),
{
    let mut editor = LineEditor::new(history.len());
    let mut output: Vec<u8> = Vec::new();
    let ghost start = editor@;
    let ghost past = lines(history@);
    let mut i: usize = 0;
    proof {
        assert(input@.subrange(0, input@.len() as int) =~= input@);
        let (last, rest, taken, done) = edited(start, input@, past);
        assert(output@ + rest =~= rest);
    }
    while i < input.len()
        invariant
            i <= input@.len(),
            history@ == old(history)@,
            past == lines(history@),
            start == (Editing {
                line: Seq::empty(),
                cursor: 0,
                history_index: old(history)@.len() as int,
                mode: Mode::Plain,
            }),
            editor.wf(history@.len()),
            edited(start, input@, past) == ({
                let (last, rest, taken, done) = edited(
                    editor@,
                    input@.subrange(i as int, input@.len() as int),
                    past,
                );
                (last, output@ + rest, taken + i, done)
            }),
        decreases input@.len() - i,
    {
        let ghost before = editor@;
        let ghost written = output@;
        let ghost rest = input@.subrange(i as int, input@.len() as int);
        let done = editor.feed(input[i], history, &mut output);
        proof {
            assert(rest[0] == input@[i as int]);
            assert(rest.subrange(1, rest.len() as int) =~= input@.subrange(
                i + 1,
                input@.len() as int,
            ));
            let outcome = stepped(before, input@[i as int], past);
            assert(edited(before, rest, past) == if outcome.done {
                (outcome.state, outcome.output, 1int, true)
            } else {
                let (last, more, taken, finished) = edited(
                    outcome.state,
                    rest.subrange(1, rest.len() as int),
                    past,
                );
                (last, outcome.output + more, taken + 1, finished)
            });
            if !done {
                let (last, more, taken, finished) = edited(
                    outcome.state,
                    input@.subrange(i + 1, input@.len() as int),
                    past,
                );
                assert(written + (outcome.output + more) =~= written + outcome.output + more);
            }
        }
        if done {
            let line = editor.into_line();
            let mut copy: Vec<u8> = Vec::new();
            push_rest(&mut copy, &line, 0);
            assert(copy@ =~= line@);
            history.push(copy);
            assert(lines(history@) =~= past.push(line@));
            return LineRead { line: Some(line_text(line)), output, taken: i + 1 };
        }
        i += 1;
    }
    proof {
        assert(input@.subrange(i as int, input@.len() as int) =~= Seq::<u8>::empty());
        assert(output@ + Seq::<u8>::empty() =~= output@);
    }
    LineRead { line: None, output, taken: i }
}

} // verus!
