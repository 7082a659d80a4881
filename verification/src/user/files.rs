//! What the commands of the shell ask of the file system, and what they say
//! of its answers.

use vstd::prelude::*;
use vstd::string::*;
use crate::io;
use crate::fat32::traits::BlockDevice;
use crate::fat32::vfat::entry::EntryView;
use crate::fat32::vfat::file::fails_to_read;
use crate::fat32::vfat::path::{entries_in, opened, reads_nothing, views};
use crate::fs::system::FileSystem;
use crate::text::text_from_utf8;
use crate::user::shell::{list_entry, listed, LsRequest};

verus! {

/// Where a command failed on the file system.
#[derive(Debug)]
pub enum Failure {
    /// The entry that the command names could not be opened.
    Opening(io::Error),
    /// The entry was opened, and what it holds could not be read.
    Reading(io::Error),
}

/// What is said of a failure: what failed, a colon, and what the error says
/// of itself, on a line.
pub fn report(what: &str, error: &io::Error) -> (text: String)
    ensures
        text@ == what@ + ": "@ + error.message()@ + "\n"@,
{
    let mut text = String::from_str(what);
    text.append(": ");
    text.append(error.message());
    text.append("\n");
    text
}

/// What `ls` writes for the entries `entries` of a directory: a line for
/// each in turn, without the hidden ones unless `all` is set.
pub open spec fn listing(entries: Seq<EntryView>, all: bool) -> Seq<char>
    decreases entries.len(),
{
    if entries.len() == 0 {
        Seq::empty()
    } else {
        let last = entries.last();
        listing(entries.drop_last(), all) + if all || !last.metadata.attributes.has(0x02) {
            listed(last)
        } else {
            Seq::empty()
        }
    }
}

/// Lists the directory that `request` names: opens it, reads its entries,
/// and returns the lines that `ls` writes for them.
pub fn list<D: BlockDevice>(fs: &mut FileSystem<D>, request: &LsRequest) -> (r: Result<
    String,
    Failure,
>)
    requires
        old(fs).wf(),
        old(fs).initialized(),
    ensures
        final(fs).wf(),
        final(fs).initialized(),
        final(fs)@ == old(fs)@,
        final(fs).root() == old(fs).root(),
        reads_nothing(request.path@) ==> !(r matches Err(Failure::Opening(e)) && e.is_device()),
        match r {
            Ok(text) => {
                &&& opened(old(fs)@, old(fs).root(), request.path@) matches Ok(dir)
                &&& dir.is_dir
                &&& entries_in(old(fs)@, dir) matches Some(entries)
                &&& text@ == listing(entries, request.all)
            },
            Err(Failure::Opening(e)) => e.is_device() || match opened(
                old(fs)@,
                old(fs).root(),
                request.path@,
            ) {
                Ok(entry) => !entry.is_dir && e.kind() == io::ErrorKind::Other,
                Err(kind) => e.kind() == kind,
            },
            Err(Failure::Reading(e)) => {
                &&& opened(old(fs)@, old(fs).root(), request.path@) matches Ok(dir)
                &&& dir.is_dir
                &&& e.is_device() || (e.kind() == io::ErrorKind::InvalidData && entries_in(
                    old(fs)@,
                    dir,
                ) is None)
            },
        },
{
    let dir = match fs.open_dir(request.path.as_str()) {
        Ok(dir) => dir,
        Err(e) => {
            return Err(Failure::Opening(e));
        },
    };
    proof {
        dir.lemma_is_dir();
    }
    let entries = match fs.entries(&dir) {
        Ok(entries) => entries,
        Err(e) => {
            return Err(Failure::Reading(e));
        },
    };
    let ghost all_views = views(entries@);
    let mut text = String::new();
    let mut i: usize = 0;
    assert(all_views.subrange(0, 0) =~= Seq::<EntryView>::empty());
    while i < entries.len()
        invariant
            i <= entries@.len(),
            all_views == views(entries@),
            text@ == listing(all_views.subrange(0, i as int), request.all),
        decreases entries@.len() - i,
    {
        proof {
            let next = all_views.subrange(0, i + 1);
            assert(next.drop_last() =~= all_views.subrange(0, i as int));
            assert(next.last() == entries@[i as int]@);
        }
        match list_entry(&entries[i], request.all) {
            Some(line) => {
                text.append(line.as_str());
            },
            None => {
                assert(text@ + Seq::<char>::empty() =~= text@);
            },
        }
        i += 1;
    }
    assert(all_views.subrange(0, i as int) =~= all_views);
    Ok(text)
}

/// What `cat` writes for a file that holds `bytes`: the text that they
/// encode, or a complaint if they are not valid UTF-8, on a line.
pub open spec fn shown_content(bytes: Seq<u8>) -> Seq<char> {
    if vstd::utf8::valid_utf8(bytes) {
        vstd::utf8::decode_utf8(bytes) + "\n"@
    } else {
        "Error: file contain invalid UTF-8\n"@
    }
}

/// Reads the file at `path` from its start to its end, and returns what
/// `cat` writes for it.
pub fn show<D: BlockDevice>(fs: &mut FileSystem<D>, path: &str) -> (r: Result<String, Failure>)
    requires
        old(fs).wf(),
        old(fs).initialized(),
    ensures
        final(fs).wf(),
        final(fs).initialized(),
        final(fs)@ == old(fs)@,
        final(fs).root() == old(fs).root(),
        reads_nothing(path@) ==> !(r matches Err(Failure::Opening(e)) && e.is_device()),
        match r {
            Ok(text) => {
                &&& opened(old(fs)@, old(fs).root(), path@) matches Ok(file)
                &&& !file.is_dir
                &&& old(fs)@.readable(file.cluster, 0, file.file_size as int)
                &&& text@ == shown_content(
                    old(fs)@.stored(file.cluster, 0, file.file_size as int),
                )
            },
            Err(Failure::Opening(e)) => e.is_device() || match opened(
                old(fs)@,
                old(fs).root(),
                path@,
            ) {
                Ok(entry) => entry.is_dir && e.kind() == io::ErrorKind::Other,
                Err(kind) => e.kind() == kind,
            },
            Err(Failure::Reading(e)) => {
                &&& opened(old(fs)@, old(fs).root(), path@) matches Ok(file)
                &&& !file.is_dir
                &&& file.file_size > 0
                &&& fails_to_read(old(fs)@, file, 0, file.file_size as int, e)
            },
        },
{
    let mut file = match fs.open_file(path) {
        Ok(file) => file,
        Err(e) => {
            return Err(Failure::Opening(e));
        },
    };
    let mut contents: Vec<u8> = Vec::new();
    match fs.read_to_end(&mut file, &mut contents) {
        Ok(_) => {},
        Err(e) => {
            return Err(Failure::Reading(e));
        },
    }
    assert(contents@ =~= fs@.stored(file@.cluster, 0, file@.file_size as int));
    let mut text = match text_from_utf8(contents) {
        Some(text) => text,
        None => {
            return Ok(String::from_str("Error: file contain invalid UTF-8\n"));
        },
    };
    text.append("\n");
    Ok(text)
}

} // verus!
