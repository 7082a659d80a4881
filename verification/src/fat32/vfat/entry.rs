//! Directory entries: files and directories.

use vstd::prelude::*;
use crate::fat32::vfat::cluster::Cluster;
use crate::fat32::vfat::dir::Dir;
use crate::fat32::vfat::file::File;
use crate::fat32::vfat::metadata::Metadata;

verus! {

/// What a directory entry is: what its record and the long-file-name records
/// before it say of it.
pub struct EntryView {
    /// Whether the entry is a directory.
    pub is_dir: bool,
    /// The first cluster of its content.
    pub cluster: Cluster,
    /// The name made of its 8-byte stem and 3-byte extension.
    pub short_name: Seq<char>,
    /// Its long name; empty if it has none.
    pub long_name: Seq<char>,
    /// Its attributes and timestamps.
    pub metadata: Metadata,
    /// Its size in bytes; 0 for a directory.
    pub file_size: u32,
}

impl EntryView {
    /// The name by which the entry is found: its long name if it has one,
    /// else its short name.
    pub open spec fn name(&self) -> Seq<char> {
        if self.long_name.len() > 0 {
            self.long_name
        } else {
            self.short_name
        }
    }
}

/// An entry of a directory: a file or a directory.
#[derive(Debug, Clone)]
pub enum Entry {
    File(File),
    Dir(Dir),
}

impl Entry {
    /// What the entry is, for specifications.
    pub open spec fn view(&self) -> EntryView {
        match self {
            Entry::File(file) => file@,
            Entry::Dir(dir) => dir@,
        }
    }

    /// A directory entry is a directory, a file entry is none.
    pub proof fn lemma_kind(&self)
        ensures
            self@.is_dir == (self is Dir),
            self matches Entry::File(file) ==> file@ == self@,
    {
        match self {
            Entry::File(file) => file.lemma_is_file(),
            Entry::Dir(dir) => dir.lemma_is_dir(),
        }
    }

    /// The name of the file or directory corresponding to this entry.
    pub fn name(&self) -> (name: &str)
        ensures
            name@ == self@.name(),
    {
        match self {
            Entry::File(file) => file.name(),
            Entry::Dir(dir) => dir.name(),
        }
    }

    /// The metadata associated with the entry.
    pub fn metadata(&self) -> (metadata: &Metadata)
        ensures
            *metadata == self@.metadata,
    {
        match self {
            Entry::File(file) => file.metadata(),
            Entry::Dir(dir) => dir.metadata(),
        }
    }

    /// If `self` is a file, returns `Some` of a reference to the file.
    /// Otherwise returns `None`.
    pub fn as_file(&self) -> (file: Option<&File>)
        ensures
            match self {
                Entry::File(f) => file == Some(f),
                Entry::Dir(_) => file is None,
            },
    {
        match self {
            Entry::File(file) => Some(file),
            _ => None,
        }
    }

    /// If `self` is a directory, returns `Some` of a reference to the
    /// directory. Otherwise returns `None`.
    pub fn as_dir(&self) -> (dir: Option<&Dir>)
        ensures
            match self {
                Entry::Dir(d) => dir == Some(d),
                Entry::File(_) => dir is None,
            },
    {
        match self {
            Entry::Dir(dir) => Some(dir),
            _ => None,
        }
    }

    /// If `self` is a file, returns `Some` of the file. Otherwise returns
    /// `None`.
    pub fn into_file(self) -> (file: Option<File>)
        ensures
            match self {
                Entry::File(f) => file == Some(f),
                Entry::Dir(_) => file is None,
            },
    {
        match self {
            Entry::File(file) => Some(file),
            _ => None,
        }
    }

    /// If `self` is a directory, returns `Some` of the directory. Otherwise
    /// returns `None`.
    pub fn into_dir(self) -> (dir: Option<Dir>)
        ensures
            match self {
                Entry::Dir(d) => dir == Some(d),
                Entry::File(_) => dir is None,
            },
    {
        match self {
            Entry::Dir(dir) => Some(dir),
            _ => None,
        }
    }

    /// Whether this entry is a file.
    pub fn is_file(&self) -> (b: bool)
        ensures
            b == (self is File),
    {
        match self {
            Entry::File(_) => true,
            _ => false,
        }
    }

    /// Whether this entry is a directory.
    pub fn is_dir(&self) -> (b: bool)
        ensures
            b == (self is Dir),
    {
        match self {
            Entry::Dir(_) => true,
            _ => false,
        }
    }
}

} // verus!
