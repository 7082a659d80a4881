//! The file system of the machine, which is there once it has been
//! initialized.

use vstd::prelude::*;
use crate::io;
use crate::fat32::traits::BlockDevice;
use crate::fat32::vfat::cluster::Cluster;
use crate::fat32::vfat::dir::Dir;
use crate::fat32::vfat::entry::{Entry, EntryView};
use crate::fat32::vfat::error::Error;
use crate::fat32::vfat::file::File;
use crate::fat32::vfat::path::{
    canonical, entries_in, is_absolute, opened, reads_nothing, resolve, views,
};
use crate::fat32::vfat::file::{fails_to_read, read_count};
use crate::fat32::vfat::vfat::{refused, VFat, Volume};

verus! {

/// The file system of the machine: a FAT32 volume, once `initialize` has
/// mounted one.
pub struct FileSystem<D: BlockDevice>(Option<VFat<D>>);

impl<D: BlockDevice> FileSystem<D> {
    /// The volume, once there is one.
    pub closed spec fn volume(&self) -> Option<VFat<D>> {
        self.0
    }

    /// The invariant: the volume, if there is one, meets its own.
    pub open spec fn wf(&self) -> bool {
        self.volume() matches Some(volume) ==> volume.wf()
    }

    /// Whether a volume has been mounted.
    pub open spec fn initialized(&self) -> bool {
        self.volume() is Some
    }

    /// What reading the volume depends on.
    pub open spec fn view(&self) -> Volume {
        self.volume().unwrap()@
    }

    /// The cluster of the root directory of the volume.
    pub open spec fn root(&self) -> Cluster {
        self.volume().unwrap().geometry().root_dir_cluster
    }

    /// Returns an uninitialized `FileSystem`.
    ///
    /// The file system must be initialized by calling `initialize()` before
    /// its first use.
    pub fn uninitialized() -> (fs: FileSystem<D>)
        ensures
            !fs.initialized(),
            fs.wf(),
    {
        FileSystem(None)
    }

    /// Whether a volume has been mounted.
    pub fn is_initialized(&self) -> (b: bool)
        ensures
            b == self.initialized(),
    {
        self.0.is_some()
    }

    /// Initializes the file system: mounts the first FAT32 partition of
    /// `device`. If that fails, the file system stays as it was.
    pub fn initialize(&mut self, device: D) -> (r: Result<(), Error>)
        requires
            old(self).wf(),
        ensures
            final(self).wf(),
            match r {
                Ok(()) => final(self).volume() matches Some(volume) && volume.mounted_on(
                    device.image(),
                    device.spec_sector_size(),
                ),
                Err(e) => final(self).volume() == old(self).volume() && refused(
                    device.image(),
                    device.spec_sector_size(),
                    e,
                ),
            },
    {
        match VFat::from(device) {
            Ok(volume) => {
                self.0 = Some(volume);
                Ok(())
            },
            Err(e) => Err(e),
        }
    }

    /// Opens the entry at `path`. `path` must be absolute.
    ///
    /// The file system must have been initialized.
    pub fn open(&mut self, path: &str) -> (r: io::Result<Entry>)
        requires
            old(self).wf(),
            old(self).initialized(),
        ensures
            final(self).wf(),
            final(self).initialized(),
            final(self)@ == old(self)@,
            final(self).root() == old(self).root(),
            !is_absolute(path@) ==> (r matches Err(e) && e.kind() == io::ErrorKind::InvalidInput
                && !e.is_device()),
            reads_nothing(path@) ==> !(r matches Err(e) && e.is_device()),
            match r {
                Ok(entry) => {
                    &&& opened(old(self)@, old(self).root(), path@) == Ok::<
                        EntryView,
                        io::ErrorKind,
                    >(entry@)
                    &&& entry matches Entry::File(file) ==> file.offset() == 0
                        && file.positioned_on(old(self)@)
                },
                Err(e) => e.is_device() || opened(old(self)@, old(self).root(), path@) == Err::<
                    EntryView,
                    io::ErrorKind,
                >(e.kind()),
            },
    {
        match &mut self.0 {
            Some(volume) => {
                let entry = volume.open(path)?;
                proof {
                    volume.lemma_sizes();
                    if let Entry::File(file) = &entry {
                        file.lemma_fresh_is_positioned(volume@);
                    }
                }
                Ok(entry)
            },
            None => unreached(),
        }
    }

    /// Opens the file at `path`. `path` must be absolute.
    ///
    /// In addition to the error conditions for `open()`, this method returns
    /// an error of kind `Other` if the entry at `path` is not a regular
    /// file.
    pub fn open_file(&mut self, path: &str) -> (r: io::Result<File>)
        requires
            old(self).wf(),
            old(self).initialized(),
        ensures
            final(self).wf(),
            final(self).initialized(),
            final(self)@ == old(self)@,
            final(self).root() == old(self).root(),
            !is_absolute(path@) ==> (r matches Err(e) && e.kind() == io::ErrorKind::InvalidInput
                && !e.is_device()),
            reads_nothing(path@) ==> !(r matches Err(e) && e.is_device()),
            match r {
                Ok(file) => {
                    &&& opened(old(self)@, old(self).root(), path@) == Ok::<
                        EntryView,
                        io::ErrorKind,
                    >(file@)
                    &&& !file@.is_dir
                    &&& file.offset() == 0
                    &&& file.positioned_on(old(self)@)
                },
                Err(e) => e.is_device() || match opened(old(self)@, old(self).root(), path@) {
                    Ok(entry) => entry.is_dir && e.kind() == io::ErrorKind::Other,
                    Err(kind) => e.kind() == kind,
                },
            },
    {
        let entry = self.open(path)?;
        proof {
            entry.lemma_kind();
        }
        match entry {
            Entry::File(file) => Ok(file),
            Entry::Dir(_) => Err(io::Error::new(io::ErrorKind::Other, "not a regular file")),
        }
    }

    /// Opens the directory at `path`. `path` must be absolute.
    ///
    /// In addition to the error conditions for `open()`, this method returns
    /// an error of kind `Other` if the entry at `path` is not a directory.
    pub fn open_dir(&mut self, path: &str) -> (r: io::Result<Dir>)
        requires
            old(self).wf(),
            old(self).initialized(),
        ensures
            final(self).wf(),
            final(self).initialized(),
            final(self)@ == old(self)@,
            final(self).root() == old(self).root(),
            !is_absolute(path@) ==> (r matches Err(e) && e.kind() == io::ErrorKind::InvalidInput
                && !e.is_device()),
            reads_nothing(path@) ==> !(r matches Err(e) && e.is_device()),
            match r {
                Ok(dir) => opened(old(self)@, old(self).root(), path@) == Ok::<
                    EntryView,
                    io::ErrorKind,
                >(dir@),
                Err(e) => e.is_device() || match opened(old(self)@, old(self).root(), path@) {
                    Ok(entry) => !entry.is_dir && e.kind() == io::ErrorKind::Other,
                    Err(kind) => e.kind() == kind,
                },
            },
    {
        let entry = self.open(path)?;
        proof {
            entry.lemma_kind();
        }
        match entry {
            Entry::Dir(dir) => {
                proof {
                    dir.lemma_is_dir();
                }
                Ok(dir)
            },
            Entry::File(_) => Err(io::Error::new(io::ErrorKind::Other, "not a directory")),
        }
    }

    /// Returns the canonical form of `path`. `path` must be absolute.
    ///
    /// The file system must have been initialized.
    pub fn canonicalize(&mut self, path: &str) -> (r: io::Result<String>)
        requires
            old(self).wf(),
            old(self).initialized(),
        ensures
            final(self).wf(),
            final(self).initialized(),
            final(self)@ == old(self)@,
            final(self).root() == old(self).root(),
            !is_absolute(path@) ==> (r matches Err(e) && e.kind() == io::ErrorKind::InvalidInput
                && !e.is_device()),
            reads_nothing(path@) ==> !(r matches Err(e) && e.is_device()),
            match r {
                Ok(text) => {
                    &&& resolve(old(self)@, old(self).root(), path@) matches Ok(stack)
                    &&& text@ == canonical(stack)
                },
                Err(e) => e.is_device() || resolve(old(self)@, old(self).root(), path@) == Err::<
                    Seq<EntryView>,
                    io::ErrorKind,
                >(e.kind()),
            },
    {
        match &mut self.0 {
            Some(volume) => volume.canonicalize(path),
            None => unreached(),
        }
    }

    /// The entries of the directory `dir`, in order.
    pub fn entries(&mut self, dir: &Dir) -> (r: io::Result<Vec<Entry>>)
        requires
            old(self).wf(),
            old(self).initialized(),
        ensures
            final(self).wf(),
            final(self).initialized(),
            final(self)@ == old(self)@,
            final(self).root() == old(self).root(),
            dir@.cluster.0 < 2 || !old(self)@.fat_entry_fits(dir@.cluster) ==> (r matches Err(e)
                && e.kind() == io::ErrorKind::InvalidData && !e.is_device()),
            match r {
                Ok(entries) => entries_in(old(self)@, dir@) == Some(views(entries@)),
                Err(e) => e.is_device() || (e.kind() == io::ErrorKind::InvalidData && entries_in(
                    old(self)@,
                    dir@,
                ) is None),
            },
    {
        match &mut self.0 {
            Some(volume) => {
                let iter = dir.entries(volume)?;
                let entries = iter.collect();
                assert(views(entries@) =~= iter.remaining());
                Ok(entries)
            },
            None => unreached(),
        }
    }

    /// Reads `file` from its current offset to its end and appends what it
    /// holds to `out`, as `File::read_to_end` does.
    pub fn read_to_end(&mut self, file: &mut File, out: &mut Vec<u8>) -> (r: io::Result<usize>)
        requires
            old(self).wf(),
            old(self).initialized(),
            old(file).positioned_on(old(self)@),
        ensures
            final(self).wf(),
            final(self).initialized(),
            final(self)@ == old(self)@,
            final(self).root() == old(self).root(),
            final(file)@ == old(file)@,
            final(file).positioned_on(old(self)@),
            old(file).offset() <= final(file).offset(),
            old(file).offset() == old(file)@.file_size ==> r is Ok,
            final(out)@ == old(out)@ + old(self)@.stored(
                old(file)@.cluster,
                old(file).offset() as int,
                final(file).offset() as int,
            ),
            match r {
                Ok(count) => {
                    &&& count == old(file)@.file_size - old(file).offset()
                    &&& final(file).offset() == old(file)@.file_size
                    &&& old(self)@.readable(
                        old(file)@.cluster,
                        old(file).offset() as int,
                        old(file)@.file_size as int,
                    )
                },
                Err(e) => fails_to_read(
                    old(self)@,
                    old(file)@,
                    old(file).offset() as int,
                    old(file)@.file_size as int,
                    e,
                ),
            },
    {
        match &mut self.0 {
            Some(volume) => file.read_to_end(volume, out),
            None => unreached(),
        }
    }

    /// Reads from `file` into `buf`, as `File::read` does.
    pub fn read(&mut self, file: &mut File, buf: &mut [u8]) -> (r: io::Result<usize>)
        requires
            old(self).wf(),
            old(self).initialized(),
            old(file).positioned_on(old(self)@),
        ensures
            final(self).wf(),
            final(self).initialized(),
            final(self)@ == old(self)@,
            final(self).root() == old(self).root(),
            final(file)@ == old(file)@,
            final(buf)@.len() == old(buf)@.len(),
            read_count(old(buf)@.len() as int, old(file)@.file_size, old(file).offset()) == 0 ==> r
                is Ok,
            match r {
                Ok(count) => {
                    &&& count == if old(buf)@.len() <= old(file)@.file_size - old(file).offset() {
                        old(buf)@.len() as int
                    } else {
                        old(file)@.file_size - old(file).offset()
                    }
                    &&& final(file).offset() == old(file).offset() + count
                    &&& final(file).positioned_on(old(self)@)
                    &&& forall|j: int|
                        0 <= j < count ==> #[trigger] final(buf)@[j] == old(self)@.byte_at(
                            old(file)@.cluster,
                            old(file).offset() + j,
                        )
                    &&& forall|j: int|
                        count <= j < old(buf)@.len() ==> final(buf)@[j] == old(buf)@[j]
                },
                Err(e) => {
                    &&& final(file).offset() == old(file).offset()
                    &&& final(file).current() == old(file).current()
                    &&& final(file).cluster_size() == old(file).cluster_size()
                    &&& fails_to_read(
                        old(self)@,
                        old(file)@,
                        old(file).offset() as int,
                        old(file).offset() + read_count(
                            old(buf)@.len() as int,
                            old(file)@.file_size,
                            old(file).offset(),
                        ),
                        e,
                    )
                },
            },
    {
        match &mut self.0 {
            Some(volume) => file.read(volume, buf),
            None => unreached(),
        }
    }
}

} // verus!
