//! ATAGS: the list of tags in which the firmware describes the machine.
//!
//! The list is a sequence of 32-bit words. Each tag starts with its size in
//! words and its kind, which are followed by what the tag holds. The tag of
//! kind 0 ends the list.

use vstd::prelude::*;
use crate::text::latin1;

verus! {

/// The kind of the tag that ends the list.
pub const NONE: u32 = 0x0000_0000;

/// The kind of the core tag, which starts the list.
pub const CORE: u32 = 0x5441_0001;

/// The kind of a tag that describes a range of memory.
pub const MEM: u32 = 0x5441_0002;

/// The kind of the tag that holds the command line.
pub const CMDLINE: u32 = 0x5441_0009;

/// The number of words in the header of a tag.
pub const HEADER_WORDS: usize = 2;

/// What the core tag holds.
#[derive(Debug, Copy, Clone, PartialEq, Eq, Structural)]
pub struct Core {
    pub flags: u32,
    pub page_size: u32,
    pub root_dev: u32,
}

/// What a memory tag holds.
#[derive(Debug, Copy, Clone, PartialEq, Eq, Structural)]
pub struct Mem {
    pub size: u32,
    pub start: u32,
}

/// An ATAG.
#[derive(Debug, Clone)]
pub enum Atag {
    Core(Core),
    Mem(Mem),
    Cmd(String),
    Unknown(u32),
    /// The tag that ends the list.
    Null,
}

/// What a tag is, for specifications.
pub enum Tag {
    Core(Core),
    Mem(Mem),
    Cmd(Seq<char>),
    Unknown(u32),
    Null,
}

/// Word `index` of `words`, or 0 beyond their end.
pub open spec fn word_at(words: Seq<u32>, index: int) -> u32 {
    if 0 <= index < words.len() {
        words[index]
    } else {
        0
    }
}

/// Byte `index` of `words`, each of which holds four bytes, the lowest
/// first.
pub open spec fn byte_at(words: Seq<u32>, index: int) -> u8 {
    let word = word_at(words, index / 4) as int;
    let place = index % 4;
    (if place == 0 {
        word % 0x100
    } else if place == 1 {
        (word / 0x100) % 0x100
    } else if place == 2 {
        (word / 0x1_0000) % 0x100
    } else {
        word / 0x100_0000
    }) as u8
}

/// The bytes of `words` from byte `from` up to the first zero byte, or up to
/// byte `to`.
pub open spec fn c_string(words: Seq<u32>, from: int, to: int) -> Seq<u8>
    decreases to - from,
{
    if from >= to || byte_at(words, from) == 0 {
        Seq::empty()
    } else {
        seq![byte_at(words, from)] + c_string(words, from + 1, to)
    }
}

/// The tag that starts at word `position` of `words`.
///
/// A tag of a kind other than core, memory, command line and the end of the
/// list is unknown. What a tag holds beyond the end of the words is read as
/// zero. The command line is the bytes of the tag up to the first zero byte.
pub open spec fn tag_at(words: Seq<u32>, position: int) -> Tag {
    let size = word_at(words, position);
    let kind = word_at(words, position + 1);
    if kind == CORE {
        Tag::Core(
            Core {
                flags: word_at(words, position + 2),
                page_size: word_at(words, position + 3),
                root_dev: word_at(words, position + 4),
            },
        )
    } else if kind == MEM {
        Tag::Mem(Mem { size: word_at(words, position + 2), start: word_at(words, position + 3) })
    } else if kind == CMDLINE {
        Tag::Cmd(latin1(c_string(words, 4 * (position + 2), 4 * (position + size))))
    } else if kind == NONE {
        Tag::Null
    } else {
        Tag::Unknown(kind)
    }
}

/// Where the tag behind the tag at word `position` starts, if there is one:
/// the tag at `position` must not be the last, must have at least the size
/// of its header, and the header of the next must lie inside the words.
pub open spec fn next_position(words: Seq<u32>, position: int) -> Option<int> {
    let size = word_at(words, position) as int;
    let kind = word_at(words, position + 1);
    if 0 <= position && position + HEADER_WORDS <= words.len() && kind != NONE && size
        >= HEADER_WORDS && position + size + HEADER_WORDS <= words.len() {
        Some(position + size)
    } else {
        None
    }
}

impl Atag {
    /// What the tag is, for specifications.
    pub open spec fn view(&self) -> Tag {
        match self {
            Atag::Core(tag) => Tag::Core(*tag),
            Atag::Mem(mem) => Tag::Mem(*mem),
            Atag::Cmd(cmd) => Tag::Cmd(cmd@),
            Atag::Unknown(kind) => Tag::Unknown(*kind),
            Atag::Null => Tag::Null,
        }
    }

    /// Returns `Some` if this is a `Core` ATAG. Otherwise returns `None`.
    pub fn core_tag(self) -> (tag: Option<Core>)
        ensures
            tag == match self {
                Atag::Core(tag) => Some(tag),
                _ => None,
            },
    {
        match self {
            Atag::Core(tag) => Some(tag),
            _ => None,
        }
    }

    /// Returns `Some` if this is a `Mem` ATAG. Otherwise returns `None`.
    pub fn mem(self) -> (mem: Option<Mem>)
        ensures
            mem == match self {
                Atag::Mem(mem) => Some(mem),
                _ => None,
            },
    {
        match self {
            Atag::Mem(mem) => Some(mem),
            _ => None,
        }
    }

    /// Returns `Some` with the command line string if this is a `Cmd` ATAG.
    /// Otherwise returns `None`.
    pub fn cmd(self) -> (cmd: Option<String>)
        ensures
            cmd == match self {
                Atag::Cmd(cmd) => Some(cmd),
                _ => None,
            },
    {
        match self {
            Atag::Cmd(cmd) => Some(cmd),
            _ => None,
        }
    }
}

/// An iterator over the ATAGS in a list of words. It stands at a tag, at
/// first at the one that starts the list, and yields the tags behind it.
#[derive(Debug, Clone)]
pub struct Atags {
    words: Vec<u32>,
    position: usize,
}

/// Reads the word `offset` words behind word `position` of `words`, or 0
/// beyond their end.
fn word(words: &Vec<u32>, position: usize, offset: usize) -> (value: u32)
    ensures
        value == word_at(words@, position + offset),
{
    if position < words.len() && offset < words.len() - position {
        words[position + offset]
    } else {
        0
    }
}

/// Returns byte `place` of the word `word`, the lowest first.
fn byte_of(word: u32, place: usize) -> (value: u8)
    requires
        place < 4,
    ensures
        value as int == if place == 0 {
            word as int % 0x100
        } else if place == 1 {
            (word as int / 0x100) % 0x100
        } else if place == 2 {
            (word as int / 0x1_0000) % 0x100
        } else {
            word as int / 0x100_0000
        },
{
    let w = word;
    assert(w & 0xFF == w % 0x100 && (w >> 8) & 0xFF == (w / 0x100) % 0x100 && (w >> 16) & 0xFF == (w
        / 0x1_0000) % 0x100 && (w >> 24) == w / 0x100_0000 && (w >> 24) < 0x100 && w & 0xFF < 0x100
        && (w >> 8) & 0xFF < 0x100 && (w >> 16) & 0xFF < 0x100) by (bit_vector);
    if place == 0 {
        (w & 0xFF) as u8
    } else if place == 1 {
        ((w >> 8) & 0xFF) as u8
    } else if place == 2 {
        ((w >> 16) & 0xFF) as u8
    } else {
        (w >> 24) as u8
    }
}

impl Atags {
    /// The words of the list.
    pub closed spec fn words(&self) -> Seq<u32> {
        self.words@
    }

    /// The word at which the tag starts that the iterator stands at.
    pub closed spec fn position(&self) -> int {
        self.position as int
    }

    /// Returns an iterator over the ATAGS in `words`, which stands at the
    /// first tag.
    pub fn new(words: Vec<u32>) -> (atags: Atags)
        ensures
            atags.words() == words@,
            atags.position() == 0,
    {
        Atags { words, position: 0 }
    }

    /// Moves to the next tag of the list and returns it. Returns `None`,
    /// and stays where it is, if there is no next tag.
    pub fn next(&mut self) -> (atag: Option<Atag>)
        ensures
            final(self).words() == old(self).words(),
            match next_position(old(self).words(), old(self).position()) {
                Some(position) => {
                    &&& final(self).position() == position
                    &&& atag matches Some(tag)
                    &&& tag@ == tag_at(old(self).words(), position)
                },
                None => atag is None && final(self).position() == old(self).position(),
            },
    {
        let len = self.words.len();
        if self.position > len || len - self.position < HEADER_WORDS {
            return None;
        }
        let size = self.words[self.position] as usize;
        let kind = self.words[self.position + 1];
        if kind == NONE || size < HEADER_WORDS || size > len - self.position || len
            - self.position - size < HEADER_WORDS {
            return None;
        }
        self.position += size;
        let position = self.position;
        let size = self.words[position] as usize;
        let kind = self.words[position + 1];
        assert(size == word_at(self.words@, position as int));
        if kind == CORE {
            Some(
                Atag::Core(
                    Core {
                        flags: word(&self.words, position, 2),
                        page_size: word(&self.words, position, 3),
                        root_dev: word(&self.words, position, 4),
                    },
                ),
            )
        } else if kind == MEM {
            Some(
                Atag::Mem(
                    Mem {
                        size: word(&self.words, position, 2),
                        start: word(&self.words, position, 3),
                    },
                ),
            )
        } else if kind == CMDLINE {
            let mut text = String::new();
            let mut bytes: Vec<u8> = Vec::new();
            let stop = if size > len - position {
                len
            } else {
                position + size
            };
            let ghost from = 4 * (position + 2);
            let ghost end = 4 * (position + size);
            let mut at = position + 2;
            let mut place: usize = 0;
            assert(bytes@ + c_string(self.words@, from, end) =~= c_string(self.words@, from, end));
            loop
                invariant
                    len == self.words@.len(),
                    position + 2 <= at,
                    at <= stop || stop < position + 2,
                    stop <= len,
                    stop == position + size || (stop == len && len < position + size),
                    place < 4,
                    at >= stop ==> place == 0,
                    from == 4 * (position + 2),
                    end == 4 * (position + size),
                    c_string(self.words@, from, end) == bytes@ + c_string(
                        self.words@,
                        4 * at + place,
                        end,
                    ),
                ensures
                    c_string(self.words@, from, end) == bytes@,
                decreases 4 * (len - at) + 4 - place,
            {
                if at >= stop {
                    proof {
                        if stop < position + size {
                            assert((4 * at) / 4 == at);
                            assert(byte_at(self.words@, 4 * at) == 0);
                        }
                        assert(bytes@ + Seq::<u8>::empty() =~= bytes@);
                    }
                    break ;
                }
                let value = byte_of(self.words[at], place);
                proof {
                    assert((4 * at + place) / 4 == at && (4 * at + place) % 4 == place);
                    assert(byte_at(self.words@, 4 * at + place) == value);
                }
                if value == 0 {
                    proof {
                        assert(bytes@ + Seq::<u8>::empty() =~= bytes@);
                    }
                    break ;
                }
                let ghost before = bytes@;
                bytes.push(value);
                proof {
                    assert(before + (seq![value] + c_string(self.words@, 4 * at + place + 1, end))
                        =~= bytes@ + c_string(self.words@, 4 * at + place + 1, end));
                }
                place += 1;
                if place == 4 {
                    place = 0;
                    at += 1;
                }
            }
            crate::text::push_latin1(&mut text, bytes.as_slice(), bytes.len());
            assert(bytes@.subrange(0, bytes@.len() as int) =~= bytes@);
            assert(text@ =~= latin1(bytes@));
            Some(Atag::Cmd(text))
        } else if kind == NONE {
            Some(Atag::Null)
        } else {
            Some(Atag::Unknown(kind))
        }
    }
}

} // verus!
