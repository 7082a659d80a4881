//! The names of functions by the addresses of their code, as the DWARF debug
//! information of the kernel gives them. The sections are read with `gimli`.

use vstd::prelude::*;

verus! {

/// The tag of a debugging information entry that describes a function:
/// `DW_TAG_subprogram`.
pub const DW_TAG_SUBPROGRAM: u16 = 0x2e;

/// The attribute that holds the name of what an entry describes:
/// `DW_AT_name`.
pub const DW_AT_NAME: u16 = 0x03;

/// The attribute that holds the address at which the code of a function
/// starts: `DW_AT_low_pc`.
pub const DW_AT_LOW_PC: u16 = 0x11;

/// The attribute that holds the size of the code of a function:
/// `DW_AT_high_pc`.
pub const DW_AT_HIGH_PC: u16 = 0x12;

/// The value of an attribute of a debugging information entry, as far as it
/// is looked at.
#[derive(Debug, Clone, Copy, PartialEq, Eq, Structural)]
pub enum Attribute {
    /// An address of the program.
    Addr(u64),
    /// An unsigned number.
    Udata(u64),
    /// The offset of a text in the section `.debug_str`.
    DebugStrRef(usize),
    /// A value of another kind.
    Other,
    /// The entry has no attribute of the name.
    Missing,
}

/// Why no name was found.
#[derive(Debug, Clone, Copy, PartialEq, Eq, Structural)]
pub enum Error {
    /// No function is known at the address.
    NoEntryAtGivenOffset,
    /// The sections do not lead on: a unit or an entry ends before it starts
    /// or behind what holds it.
    Malformed,
    /// The sections could not be read.
    Unreadable,
}

/// What `gimli` reads as the unit header at `offset` of the section
/// `.debug_info`: the length of the unit with its header, and the offset in
/// the unit of its first entry. `None` if the header cannot be read.
pub uninterp spec fn unit_at(debug_info: Seq<u8>, offset: usize) -> Option<(usize, usize)>;

/// What `gimli` finds as the next entry that is not null, reading the unit at
/// `unit` from its offset `at` on: the offset of the entry, and the offset at
/// which reading goes on. `Some(None)` if only null entries are left, `None`
/// if the entries cannot be read.
pub uninterp spec fn entry_after(
    debug_info: Seq<u8>,
    debug_abbrev: Seq<u8>,
    unit: usize,
    at: usize,
) -> Option<Option<(usize, usize)>>;

/// What `gimli` reads as the tag of the entry at `offset` of the unit at
/// `unit`. `None` if the entry cannot be read.
pub uninterp spec fn tag_at(
    debug_info: Seq<u8>,
    debug_abbrev: Seq<u8>,
    unit: usize,
    offset: usize,
) -> Option<u16>;

/// What `gimli` reads as the value of the first attribute with the name
/// `name` of the entry at `offset` of the unit at `unit`. `None` if the entry
/// cannot be read.
pub uninterp spec fn attribute_at(
    debug_info: Seq<u8>,
    debug_abbrev: Seq<u8>,
    unit: usize,
    offset: usize,
    name: u16,
) -> Option<Attribute>;

/// What `gimli` reads as the text at `offset` of the section `.debug_str`.
/// `None` if there is no text there, or none that is UTF-8.
pub uninterp spec fn string_at(debug_str: Seq<u8>, offset: usize) -> Option<Seq<char>>;

/// Reads the unit header at `offset` of the section `.debug_info` with
/// `DebugInfo::header_from_offset`, and returns what
/// `UnitHeader::length_including_self` and `UnitHeader::root_offset` say of
/// it. The result is a function of the section and the offset alone; the
/// contract gives it the name [`unit_at`].
#[verifier::external_body]
fn read_unit(debug_info: &[u8], offset: usize) -> (r: Option<(usize, usize)>)
    ensures
        r == unit_at(debug_info@, offset),
{
    let info = gimli::DebugInfo::new(debug_info, gimli::LittleEndian);
    let unit = info.header_from_offset(gimli::DebugInfoOffset(offset)).ok()?;
    Some((unit.length_including_self(), unit.root_offset().0))
}

/// Moves a cursor that `UnitHeader::entries_at_offset` places at the offset
/// `at` of the unit at `unit` with `EntriesCursor::next_dfs`, and returns
/// the offset of the entry that it comes to and what
/// `EntriesCursor::next_offset` then says. The result is a function of the
/// two sections and the two offsets alone; the contract gives it the name
/// [`entry_after`].
#[verifier::external_body]
fn next_entry(debug_info: &[u8], debug_abbrev: &[u8], unit: usize, at: usize) -> (r: Option<
    Option<(usize, usize)>,
>)
    ensures
        r == entry_after(debug_info@, debug_abbrev@, unit, at),
{
    let info = gimli::DebugInfo::new(debug_info, gimli::LittleEndian);
    let abbrev = gimli::DebugAbbrev::new(debug_abbrev, gimli::LittleEndian);
    let unit = info.header_from_offset(gimli::DebugInfoOffset(unit)).ok()?;
    let abbrevs = unit.abbreviations(&abbrev).ok()?;
    let mut cursor = unit.entries_at_offset(&abbrevs, gimli::UnitOffset(at)).ok()?;
    let found = cursor.next_dfs().ok()?.map(|entry| entry.offset().0);
    Some(found.map(|offset| (offset, cursor.next_offset().0)))
}

/// Reads the entry at `offset` of the unit at `unit` with
/// `UnitHeader::entry`, and returns its tag. The result is a function of the
/// two sections and the two offsets alone; the contract gives it the name
/// [`tag_at`].
#[verifier::external_body]
fn read_tag(debug_info: &[u8], debug_abbrev: &[u8], unit: usize, offset: usize) -> (r: Option<u16>)
    ensures
        r == tag_at(debug_info@, debug_abbrev@, unit, offset),
{
    let info = gimli::DebugInfo::new(debug_info, gimli::LittleEndian);
    let abbrev = gimli::DebugAbbrev::new(debug_abbrev, gimli::LittleEndian);
    let unit = info.header_from_offset(gimli::DebugInfoOffset(unit)).ok()?;
    let abbrevs = unit.abbreviations(&abbrev).ok()?;
    Some(unit.entry(&abbrevs, gimli::UnitOffset(offset)).ok()?.tag().0)
}

/// Reads the entry at `offset` of the unit at `unit` with
/// `UnitHeader::entry`, and returns what
/// `DebuggingInformationEntry::attr_value` gives for the attribute `name`.
/// The result is a function of the two sections, the two offsets and the
/// name alone; the contract gives it the name [`attribute_at`].
#[verifier::external_body]
fn read_attribute(
    debug_info: &[u8],
    debug_abbrev: &[u8],
    unit: usize,
    offset: usize,
    name: u16,
) -> (r: Option<Attribute>)
    ensures
        r == attribute_at(debug_info@, debug_abbrev@, unit, offset, name),
{
    let info = gimli::DebugInfo::new(debug_info, gimli::LittleEndian);
    let abbrev = gimli::DebugAbbrev::new(debug_abbrev, gimli::LittleEndian);
    let unit = info.header_from_offset(gimli::DebugInfoOffset(unit)).ok()?;
    let abbrevs = unit.abbreviations(&abbrev).ok()?;
    let entry = unit.entry(&abbrevs, gimli::UnitOffset(offset)).ok()?;
    Some(
        match entry.attr_value(gimli::DwAt(name)) {
            Some(gimli::AttributeValue::Addr(address)) => Attribute::Addr(address),
            Some(gimli::AttributeValue::Udata(number)) => Attribute::Udata(number),
            Some(gimli::AttributeValue::DebugStrRef(place)) => Attribute::DebugStrRef(place.0),
            Some(_) => Attribute::Other,
            None => Attribute::Missing,
        },
    )
}

/// Reads the text at `offset` of the section `.debug_str` with
/// `DebugStr::get_str` and `EndianSlice::to_string`. The result is a
/// function of the section and the offset alone; the contract gives it the
/// name [`string_at`].
#[verifier::external_body]
fn read_string(debug_str: &[u8], offset: usize) -> (r: Option<String>)
    ensures
        match r {
            Some(text) => string_at(debug_str@, offset) == Some(text@),
            None => string_at(debug_str@, offset) is None,
        },
{
    let strings = gimli::DebugStr::new(debug_str, gimli::LittleEndian);
    Some(strings.get_str(gimli::DebugStrOffset(offset)).ok()?.to_string().ok()?.to_string())
}

/// Where the code of a function lies with regard to an address.
#[derive(Debug, Clone, Copy, PartialEq, Eq, Structural)]
pub enum Place {
    /// The code of the function holds the address.
    Here,
    /// The function starts behind the address.
    Behind,
    /// The entry is no function, says too little of it, or the function
    /// ends before the address.
    Elsewhere,
}

/// Where the entry with the tag `tag`, the start `low_pc` and the size
/// `high_pc` lies with regard to the address `pc`.
///
/// Only a subprogram whose start is an address and whose size is a number
/// counts. Its code holds the address if it starts at or before the address
/// and ends behind it.
pub open spec fn place_of(tag: u16, low_pc: Attribute, high_pc: Attribute, pc: u64) -> Place {
    if tag != DW_TAG_SUBPROGRAM {
        Place::Elsewhere
    } else {
        match (low_pc, high_pc) {
            (Attribute::Addr(low), Attribute::Udata(size)) => if low <= pc < low + size {
                Place::Here
            } else if low > pc {
                Place::Behind
            } else {
                Place::Elsewhere
            },
            _ => Place::Elsewhere,
        }
    }
}

/// Returns where the entry with the tag `tag`, the start `low_pc` and the
/// size `high_pc` lies with regard to the address `pc`.
pub fn place(tag: u16, low_pc: Attribute, high_pc: Attribute, pc: u64) -> (place: Place)
    ensures
        place == place_of(tag, low_pc, high_pc, pc),
{
    if tag != DW_TAG_SUBPROGRAM {
        return Place::Elsewhere;
    }
    match (low_pc, high_pc) {
        (Attribute::Addr(low), Attribute::Udata(size)) => {
            if low <= pc && pc - low < size {
                Place::Here
            } else if low > pc {
                Place::Behind
            } else {
                Place::Elsewhere
            }
        },
        _ => Place::Elsewhere,
    }
}

/// What the look at one entry comes to.
pub enum Step {
    /// The search is over, with the name of the function or a failure.
    Done(Result<Seq<char>, Error>),
    /// The search goes on in the next unit.
    NextUnit,
    /// The search goes on with the next entry.
    NextEntry,
}

/// What the look at the entry at `offset` of the unit at `unit` comes to.
///
/// A function that holds the address ends the search: with its name, if its
/// name is a text of the section `.debug_str`, and with a failure if not. A
/// function that starts behind the address ends the search of its unit.
pub open spec fn examined(
    debug_info: Seq<u8>,
    debug_abbrev: Seq<u8>,
    debug_str: Seq<u8>,
    unit: usize,
    offset: usize,
    pc: u64,
) -> Step {
    match (
        tag_at(debug_info, debug_abbrev, unit, offset),
        attribute_at(debug_info, debug_abbrev, unit, offset, DW_AT_LOW_PC),
        attribute_at(debug_info, debug_abbrev, unit, offset, DW_AT_HIGH_PC),
    ) {
        (Some(tag), Some(low_pc), Some(high_pc)) => match place_of(tag, low_pc, high_pc, pc) {
            Place::Here => match attribute_at(debug_info, debug_abbrev, unit, offset, DW_AT_NAME) {
                Some(Attribute::DebugStrRef(place)) => match string_at(debug_str, place) {
                    Some(name) => Step::Done(Ok(name)),
                    None => Step::Done(Err(Error::Unreadable)),
                },
                Some(_) => Step::Done(Err(Error::NoEntryAtGivenOffset)),
                None => Step::Done(Err(Error::Unreadable)),
            },
            Place::Behind => Step::NextUnit,
            Place::Elsewhere => Step::NextEntry,
        },
        _ => Step::Done(Err(Error::Unreadable)),
    }
}

/// What the search of the unit at `unit`, which has `length` bytes, comes
/// to from its offset `at` on.
///
/// The entries are taken in order. The search of the unit ends at its end,
/// and where only null entries are left. An entry that does not lead on
/// towards the end of the unit ends the search with a failure.
pub open spec fn searched_unit(
    debug_info: Seq<u8>,
    debug_abbrev: Seq<u8>,
    debug_str: Seq<u8>,
    unit: usize,
    length: usize,
    at: usize,
    pc: u64,
) -> Step
    decreases length - at,
{
    if at >= length {
        Step::NextUnit
    } else {
        match entry_after(debug_info, debug_abbrev, unit, at) {
            None => Step::Done(Err(Error::Unreadable)),
            Some(None) => Step::NextUnit,
            Some(Some((offset, next))) => if next <= at || next > length {
                Step::Done(Err(Error::Malformed))
            } else {
                match examined(debug_info, debug_abbrev, debug_str, unit, offset, pc) {
                    Step::NextEntry => searched_unit(
                        debug_info,
                        debug_abbrev,
                        debug_str,
                        unit,
                        length,
                        next,
                        pc,
                    ),
                    other => other,
                }
            },
        }
    }
}

/// What the search of the units of the section `.debug_info` comes to from
/// the unit at `unit` on: the name of the function whose code holds the
/// address `pc`, or why there is none.
///
/// The units are taken in order. A unit that does not lie inside the
/// section ends the search with a failure; the end of the section ends it
/// without a name.
pub open spec fn searched(
    debug_info: Seq<u8>,
    debug_abbrev: Seq<u8>,
    debug_str: Seq<u8>,
    unit: int,
    pc: u64,
) -> Result<Seq<char>, Error>
    decreases debug_info.len() - unit,
{
    if unit < 0 || unit >= debug_info.len() || unit > usize::MAX {
        Err(Error::NoEntryAtGivenOffset)
    } else {
        match unit_at(debug_info, unit as usize) {
            None => Err(Error::Unreadable),
            Some((length, root)) => if length == 0 || length > debug_info.len() - unit {
                Err(Error::Malformed)
            } else {
                match searched_unit(
                    debug_info,
                    debug_abbrev,
                    debug_str,
                    unit as usize,
                    length,
                    root,
                    pc,
                ) {
                    Step::Done(answer) => answer,
                    _ => searched(debug_info, debug_abbrev, debug_str, unit + length, pc),
                }
            },
        }
    }
}

/// What the look at one entry comes to.
enum Looked {
    Done(Result<String, Error>),
    NextUnit,
    NextEntry,
}

impl Looked {
    spec fn view(&self) -> Step {
        match self {
            Looked::Done(Ok(name)) => Step::Done(Ok(name@)),
            Looked::Done(Err(e)) => Step::Done(Err(*e)),
            Looked::NextUnit => Step::NextUnit,
            Looked::NextEntry => Step::NextEntry,
        }
    }
}

/// Looks at the entry at `offset` of the unit at `unit`.
fn examine(
    debug_info: &[u8],
    debug_abbrev: &[u8],
    debug_str: &[u8],
    unit: usize,
    offset: usize,
    pc: u64,
) -> (looked: Looked)
    ensures
        looked@ == examined(debug_info@, debug_abbrev@, debug_str@, unit, offset, pc),
{
    let tag = read_tag(debug_info, debug_abbrev, unit, offset);
    let low_pc = read_attribute(debug_info, debug_abbrev, unit, offset, DW_AT_LOW_PC);
    let high_pc = read_attribute(debug_info, debug_abbrev, unit, offset, DW_AT_HIGH_PC);
    match (tag, low_pc, high_pc) {
        (Some(tag), Some(low_pc), Some(high_pc)) => match place(tag, low_pc, high_pc, pc) {
            Place::Here => match read_attribute(debug_info, debug_abbrev, unit, offset, DW_AT_NAME) {
                Some(Attribute::DebugStrRef(place)) => match read_string(debug_str, place) {
                    Some(name) => Looked::Done(Ok(name)),
                    None => Looked::Done(Err(Error::Unreadable)),
                },
                Some(_) => Looked::Done(Err(Error::NoEntryAtGivenOffset)),
                None => Looked::Done(Err(Error::Unreadable)),
            },
            Place::Behind => Looked::NextUnit,
            Place::Elsewhere => Looked::NextEntry,
        },
        _ => Looked::Done(Err(Error::Unreadable)),
    }
}

/// Searches the unit at `unit`, which has `length` bytes and whose first
/// entry lies at its offset `root`.
fn search_unit(
    debug_info: &[u8],
    debug_abbrev: &[u8],
    debug_str: &[u8],
    unit: usize,
    length: usize,
    root: usize,
    pc: u64,
) -> (looked: Looked)
    ensures
        looked@ == searched_unit(debug_info@, debug_abbrev@, debug_str@, unit, length, root, pc),
{
    let mut at = root;
    while at < length
        invariant
            searched_unit(debug_info@, debug_abbrev@, debug_str@, unit, length, root, pc)
                == searched_unit(debug_info@, debug_abbrev@, debug_str@, unit, length, at, pc),
        decreases length - at,
    {
        let (offset, next) = match next_entry(debug_info, debug_abbrev, unit, at) {
            Some(Some(found)) => found,
            Some(None) => {
                return Looked::NextUnit;
            },
            None => {
                return Looked::Done(Err(Error::Unreadable));
            },
        };
        if next <= at || next > length {
            return Looked::Done(Err(Error::Malformed));
        }
        match examine(debug_info, debug_abbrev, debug_str, unit, offset, pc) {
            Looked::NextEntry => {},
            other => {
                return other;
            },
        }
        at = next;
    }
    Looked::NextUnit
}

/// Returns the name of the function whose code holds the address `pc`,
/// where `debug_info`, `debug_abbrev` and `debug_str` are the sections of
/// those names of the debug information.
///
/// The units of `.debug_info` are taken in order, and in each unit the
/// entries in depth-first order. The first subprogram whose code holds the
/// address gives the result: its name, or `NoEntryAtGivenOffset` if it has
/// none. A subprogram that starts behind the address ends the search of its
/// unit. If no subprogram holds the address, the result is
/// `NoEntryAtGivenOffset`.
pub fn get_function_from_pc_gimli(
    debug_info: &[u8],
    debug_abbrev: &[u8],
    debug_str: &[u8],
    pc: u64,
) -> (r: Result<String, Error>)
    ensures
        match r {
            Ok(name) => searched(debug_info@, debug_abbrev@, debug_str@, 0, pc) == Ok::<
                Seq<char>,
                Error,
            >(name@),
            Err(e) => searched(debug_info@, debug_abbrev@, debug_str@, 0, pc) == Err::<
                Seq<char>,
                Error,
            >(e),
        },
{
    let len = debug_info.len();
    let mut unit: usize = 0;
    while unit < len
        invariant
            len == debug_info@.len(),
            searched(debug_info@, debug_abbrev@, debug_str@, 0, pc) == searched(
                debug_info@,
                debug_abbrev@,
                debug_str@,
                unit as int,
                pc,
            ),
        decreases len - unit,
    {
        let (length, root) = match read_unit(debug_info, unit) {
            Some(bounds) => bounds,
            None => {
                return Err(Error::Unreadable);
            },
        };
        if length == 0 || length > len - unit {
            return Err(Error::Malformed);
        }
        match search_unit(debug_info, debug_abbrev, debug_str, unit, length, root, pc) {
            Looked::Done(answer) => {
                return answer;
            },
            _ => {},
        }
        unit += length;
    }
    Err(Error::NoEntryAtGivenOffset)
}

/// Returns the name of the function whose code holds the address `pc`, or
/// `None` if the debug information gives none.
pub fn get_function_from_pc(
    debug_info: &[u8],
    debug_abbrev: &[u8],
    debug_str: &[u8],
    pc: usize,
) -> (name: Option<String>)
    ensures
        match name {
            Some(name) => searched(debug_info@, debug_abbrev@, debug_str@, 0, pc as u64) == Ok::<
                Seq<char>,
                Error,
            >(name@),
            None => searched(debug_info@, debug_abbrev@, debug_str@, 0, pc as u64) is Err,
        },
{
    match get_function_from_pc_gimli(debug_info, debug_abbrev, debug_str, pc as u64) {
        Ok(name) => Some(name),
        Err(_) => None,
    }
}

} // verus!
