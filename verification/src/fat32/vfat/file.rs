//! Files: sequential reading and seeking over a cluster chain.

use vstd::prelude::*;
use crate::io;
use crate::io::SeekFrom;
use crate::fat32::traits::BlockDevice;
use crate::fat32::vfat::cluster::Cluster;
use crate::fat32::vfat::entry::EntryView;
use crate::fat32::vfat::metadata::Metadata;
use crate::fat32::vfat::vfat::{
    lemma_unreadable_part, lemma_walk_stays_in_range, lemma_walk_step, VFat, Volume,
};

verus! {

/// A file, with the position at which reading goes on.
#[derive(Debug, Clone)]
pub struct File {
    pub(crate) cluster: Cluster,
    pub(crate) short_name: String,
    pub(crate) long_name: String,
    pub(crate) metadata: Metadata,
    pub(crate) file_size: u32,
    pub(crate) current_offset: u32,
    pub(crate) current_cluster: Option<Cluster>,
    pub(crate) bytes_per_cluster: u32,
}

/// The offset that a seek to `pos` asks for, in a file of `size` bytes that
/// stands at `offset`.
pub open spec fn seek_target(pos: SeekFrom, offset: u32, size: u32) -> int {
    match pos {
        SeekFrom::Start(n) => n as int,
        SeekFrom::Current(delta) => offset + delta,
        SeekFrom::End(delta) => size + delta,
    }
}

/// The number of bytes that a read into a buffer of `len` bytes takes from a
/// file of `size` bytes that stands at `offset`: what the buffer holds or
/// what is left of the file, whichever is less.
pub open spec fn read_count(len: int, size: u32, offset: u32) -> int {
    if len <= size - offset {
        len
    } else {
        size - offset
    }
}

/// Whether `error` is how reading the bytes from `from` up to `to` of the
/// file `file` on `volume` may fail: the device fails, or the file starts at
/// no data cluster (`InvalidInput`), or its chain does not reach all of the
/// bytes (`InvalidData`).
pub open spec fn fails_to_read(
    volume: Volume,
    file: EntryView,
    from: int,
    to: int,
    error: io::Error,
) -> bool {
    ||| error.is_device()
    ||| error.kind() == io::ErrorKind::InvalidInput && file.cluster.0 < 2
    ||| error.kind() == io::ErrorKind::InvalidData && !volume.readable(file.cluster, from, to)
}

/// Where a position lies after `step` more bytes that stay inside its
/// cluster, and after the bytes that reach the end of its cluster.
proof fn lemma_position_in_cluster(position: int, size: int, step: int)
    requires
        size > 0,
        position >= 0,
        0 <= step,
        position % size + step <= size,
    ensures
        position % size + step < size ==> (position + step) / size == position / size && (position
            + step) % size == position % size + step,
        position % size + step == size ==> (position + step) / size == position / size + 1 && (
        position + step) % size == 0,
{
    vstd::arithmetic::div_mod::lemma_fundamental_div_mod(position, size);
    let q = position / size;
    let r = position % size;
    if r + step < size {
        assert(position + step == q * size + (r + step)) by (nonlinear_arith)
            requires
                position == size * q + r,
        ;
        vstd::arithmetic::div_mod::lemma_fundamental_div_mod_converse(position + step, size, q, r + step);
    } else {
        assert(position + step == (q + 1) * size + 0) by (nonlinear_arith)
            requires
                position == size * q + r,
                r + step == size,
        ;
        vstd::arithmetic::div_mod::lemma_fundamental_div_mod_converse(position + step, size, q + 1, 0);
    }
}

impl File {
    /// What the file is, for specifications.
    pub closed spec fn view(&self) -> EntryView {
        EntryView {
            is_dir: false,
            cluster: self.cluster,
            short_name: self.short_name@,
            long_name: self.long_name@,
            metadata: self.metadata,
            file_size: self.file_size,
        }
    }

    /// A file is no directory.
    pub proof fn lemma_is_file(&self)
        ensures
            !self@.is_dir,
    {
    }

    /// The offset in bytes at which reading goes on.
    pub closed spec fn offset(&self) -> u32 {
        self.current_offset
    }

    /// The cluster that holds the byte at the current offset, if the chain
    /// reaches that far.
    pub closed spec fn current(&self) -> Option<Cluster> {
        self.current_cluster
    }

    /// The cluster size that the file was opened with.
    pub closed spec fn cluster_size(&self) -> u32 {
        self.bytes_per_cluster
    }

    /// Whether the file is positioned at its start, as iteration yields it.
    pub open spec fn is_fresh(&self, bytes_per_cluster: u32) -> bool {
        &&& self.offset() == 0
        &&& self.current() == Some(self@.cluster)
        &&& self.cluster_size() == bytes_per_cluster
    }

    /// A file positioned at its start.
    pub(crate) fn new(
        cluster: Cluster,
        short_name: String,
        long_name: String,
        metadata: Metadata,
        file_size: u32,
        bytes_per_cluster: u32,
    ) -> (file: File)
        ensures
            file@ == (EntryView {
                is_dir: false,
                cluster,
                short_name: short_name@,
                long_name: long_name@,
                metadata,
                file_size,
            }),
            file.is_fresh(bytes_per_cluster),
    {
        File {
            cluster,
            short_name,
            long_name,
            metadata,
            file_size,
            current_offset: 0,
            current_cluster: Some(cluster),
            bytes_per_cluster,
        }
    }

    /// The name of the file: its long name if it has one, else its short
    /// name.
    pub fn name(&self) -> (name: &str)
        ensures
            name@ == self@.name(),
    {
        if self.long_name.as_str().unicode_len() > 0 {
            self.long_name.as_str()
        } else {
            self.short_name.as_str()
        }
    }

    /// The metadata of the file.
    pub fn metadata(&self) -> (metadata: &Metadata)
        ensures
            *metadata == self@.metadata,
    {
        &self.metadata
    }

    /// The size of the file in bytes.
    pub fn size(&self) -> (size: u64)
        ensures
            size == self@.file_size,
    {
        self.file_size as u64
    }

    /// The invariant of a file opened on `volume`: its offset lies inside the
    /// file or at its end, and its current cluster is the one reached from
    /// its first cluster by walking the chain `offset / cluster_size` times.
    pub open spec fn positioned_on(&self, volume: Volume) -> bool {
        &&& self.cluster_size() == volume.cluster_size
        &&& volume.cluster_size > 0
        &&& self.offset() <= self@.file_size
        &&& volume.walk(self@.cluster, (self.offset() as int / volume.cluster_size) as nat) == Ok::<
            Option<Cluster>,
            io::ErrorKind,
        >(self.current())
    }

    /// A file as iteration yields it is positioned on the volume whose
    /// cluster size it has.
    pub proof fn lemma_fresh_is_positioned(&self, volume: Volume)
        requires
            self.is_fresh(volume.cluster_size as u32),
            0 < volume.cluster_size <= u32::MAX,
        ensures
            self.positioned_on(volume),
    {
    }

    /// Reads from the current offset into `buf` and moves the offset behind
    /// what was read. Returns the number of bytes read: `buf.len()` or what is
    /// left of the file, whichever is less.
    ///
    /// Byte `p` of the file is byte `p % cluster_size` of the cluster reached
    /// after `p / cluster_size` steps along the chain. If the chain ends
    /// before the file does, the result is an error of kind `InvalidData`. On
    /// any error the position of the file is unchanged.
    pub fn read<D: BlockDevice>(&mut self, fs: &mut VFat<D>, buf: &mut [u8]) -> (r: io::Result<
        usize,
    >)
        requires
            old(fs).wf(),
            old(self).positioned_on(old(fs)@),
        ensures
            final(fs).wf(),
            final(fs)@ == old(fs)@,
            final(fs).geometry() == old(fs).geometry(),
            final(self)@ == old(self)@,
            final(self).cluster_size() == old(self).cluster_size(),
            final(buf)@.len() == old(buf)@.len(),
            read_count(old(buf)@.len() as int, old(self)@.file_size, old(self).offset()) == 0 ==> r
                is Ok,
            match r {
                Ok(count) => {
                    &&& count == if old(buf)@.len() <= old(self)@.file_size - old(self).offset() {
                        old(buf)@.len() as int
                    } else {
                        old(self)@.file_size - old(self).offset()
                    }
                    &&& final(self).offset() == old(self).offset() + count
                    &&& final(self).positioned_on(old(fs)@)
                    &&& forall|j: int|
                        0 <= j < count ==> #[trigger] final(buf)@[j] == old(fs)@.byte_at(
                            old(self)@.cluster,
                            old(self).offset() + j,
                        )
                    &&& forall|j: int|
                        count <= j < old(buf)@.len() ==> final(buf)@[j] == old(buf)@[j]
                    &&& old(fs)@.readable(
                        old(self)@.cluster,
                        old(self).offset() as int,
                        old(self).offset() + count,
                    )
                },
                Err(e) => {
                    &&& final(self).offset() == old(self).offset()
                    &&& final(self).current() == old(self).current()
                    &&& fails_to_read(
                        old(fs)@,
                        old(self)@,
                        old(self).offset() as int,
                        old(self).offset() + read_count(
                            old(buf)@.len() as int,
                            old(self)@.file_size,
                            old(self).offset(),
                        ),
                        e,
                    )
                },
            },
    {
        let ghost volume = fs@;
        let ghost first = self.cluster;
        let left = (self.file_size - self.current_offset) as usize;
        let read_size = if buf.len() <= left {
            buf.len()
        } else {
            left
        };
        let cluster_size = self.bytes_per_cluster as usize;
        let start = self.current_offset;
        let mut in_cluster = (self.current_offset % self.bytes_per_cluster) as usize;
        let mut rest = read_size;
        let mut current = self.current_cluster;
        let mut done: usize = 0;
        while rest > 0
            invariant
                fs.wf(),
                fs@ == volume,
                fs@ == old(fs)@,
                fs.geometry() == old(fs).geometry(),
                *self == *old(self),
                first == self.cluster,
                start == self.current_offset,
                cluster_size == volume.cluster_size,
                cluster_size > 0,
                buf@.len() == old(buf)@.len(),
                done + rest == read_size,
                read_size <= buf@.len(),
                start + read_size <= self.file_size,
                read_size == read_count(
                    old(buf)@.len() as int,
                    old(self)@.file_size,
                    old(self).offset(),
                ),
                volume.walk(first, ((start + done) / cluster_size as int) as nat) == Ok::<
                    Option<Cluster>,
                    io::ErrorKind,
                >(current),
                rest > 0 ==> in_cluster == (start + done) % cluster_size as int,
                forall|j: int|
                    0 <= j < done ==> #[trigger] buf@[j] == volume.byte_at(first, start + j),
                forall|j: int| done <= j < buf@.len() ==> buf@[j] == old(buf)@[j],
                forall|position: int|
                    start <= position < start + done ==> #[trigger] volume.on_chain(
                        first,
                        (position / cluster_size as int) as nat,
                    ),
            decreases rest,
        {
            let cluster = match current {
                Some(cluster) => cluster,
                None => {
                    proof {
                        assert(!volume.on_chain(
                            first,
                            ((start + done) / cluster_size as int) as nat,
                        ));
                    }
                    return Err(
                        io::Error::new(io::ErrorKind::InvalidData, "Cluster chain ends too early"),
                    );
                },
            };
            let ghost before = buf@;
            let newly_read = match fs.read_cluster_into(cluster, in_cluster, buf, done, rest) {
                Ok(count) => count,
                Err(e) => {
                    proof {
                        if !e.is_device() {
                            // Only the first cluster of a chain can be no data cluster.
                            let steps = ((start + done) / cluster_size as int) as nat;
                            if steps > 0 {
                                lemma_walk_stays_in_range(volume, first, steps);
                            }
                        }
                    }
                    return Err(e);
                },
            };
            proof {
                lemma_position_in_cluster(start + done, cluster_size as int, newly_read as int);
                assert forall|j: int| 0 <= j < done + newly_read implies #[trigger] buf@[j]
                    == volume.byte_at(first, start + j) by {
                    if j >= done {
                        lemma_position_in_cluster(start + done, cluster_size as int, j - done);
                    } else {
                        assert(buf@[j] == before[j]);
                    }
                }
                assert forall|position: int|
                    start <= position < start + done + newly_read implies #[trigger] volume.on_chain(
                    first,
                    (position / cluster_size as int) as nat,
                ) by {
                    if position >= start + done {
                        lemma_position_in_cluster(
                            start + done,
                            cluster_size as int,
                            position - start - done,
                        );
                    }
                }
            }
            if newly_read == cluster_size - in_cluster {
                proof {
                    lemma_walk_step(volume, first, ((start + done) / cluster_size as int) as nat);
                }
                current = match fs.next_cluster(cluster) {
                    Ok(next) => next,
                    Err(e) => {
                        proof {
                            if !e.is_device() {
                                let next_position = start + done + newly_read;
                                let steps = (next_position / cluster_size as int) as nat;
                                assert(volume.walk(first, steps) is Err);
                                assert(!volume.on_chain(first, steps));
                            }
                        }
                        return Err(e);
                    },
                };
            }
            done += newly_read;
            rest -= newly_read;
            in_cluster = 0;
        }
        self.current_offset += read_size as u32;
        self.current_cluster = current;
        Ok(read_size)
    }

    /// Reads everything from the current offset to the end of the file,
    /// appends it to `out`, and returns the number of bytes read.
    ///
    /// If a read fails, what was read before it stays in `out`, and the
    /// file stands behind it.
    pub fn read_to_end<D: BlockDevice>(&mut self, fs: &mut VFat<D>, out: &mut Vec<u8>) -> (r:
        io::Result<usize>)
        requires
            old(fs).wf(),
            old(self).positioned_on(old(fs)@),
        ensures
            final(fs).wf(),
            final(fs)@ == old(fs)@,
            final(fs).geometry() == old(fs).geometry(),
            final(self)@ == old(self)@,
            final(self).positioned_on(old(fs)@),
            old(self).offset() <= final(self).offset(),
            old(self).offset() == old(self)@.file_size ==> r is Ok,
            final(out)@ == old(out)@ + old(fs)@.stored(
                old(self)@.cluster,
                old(self).offset() as int,
                final(self).offset() as int,
            ),
            match r {
                Ok(count) => {
                    &&& count == old(self)@.file_size - old(self).offset()
                    &&& final(self).offset() == old(self)@.file_size
                    &&& old(fs)@.readable(
                        old(self)@.cluster,
                        old(self).offset() as int,
                        old(self)@.file_size as int,
                    )
                },
                Err(e) => fails_to_read(
                    old(fs)@,
                    old(self)@,
                    old(self).offset() as int,
                    old(self)@.file_size as int,
                    e,
                ),
            },
    {
        let ghost volume = fs@;
        let ghost first = self.cluster;
        let ghost start = self.current_offset;
        let ghost size = self.file_size;
        let mut buf: Vec<u8> = vec![0u8; 512];
        let mut total: usize = 0;
        assert(out@ =~= old(out)@ + volume.stored(first, start as int, start as int));
        loop
            invariant
                fs.wf(),
                fs@ == volume,
                fs@ == old(fs)@,
                fs.geometry() == old(fs).geometry(),
                self@ == old(self)@,
                self@.cluster == first,
                self@.file_size == size,
                start == old(self).offset(),
                self.positioned_on(volume),
                start <= self.offset() <= size,
                total == self.offset() - start,
                buf@.len() == 512,
                out@ == old(out)@ + volume.stored(first, start as int, self.offset() as int),
                volume.readable(first, start as int, self.offset() as int),
            decreases size - self.offset(),
        {
            let ghost offset = self.current_offset;
            let ghost before = out@;
            let count = match self.read(fs, buf.as_mut_slice()) {
                Ok(count) => count,
                Err(e) => {
                    proof {
                        if !e.is_device() && e.kind() == io::ErrorKind::InvalidData {
                            lemma_unreadable_part(
                                volume,
                                first,
                                offset as int,
                                offset + read_count(512, size, offset),
                                start as int,
                                size as int,
                            );
                        }
                    }
                    return Err(e);
                },
            };
            if count == 0 {
                return Ok(total);
            }
            let mut j: usize = 0;
            while j < count
                invariant
                    j <= count <= buf@.len(),
                    out@ == before + buf@.subrange(0, j as int),
                decreases count - j,
            {
                out.push(buf[j]);
                j += 1;
                assert(out@ =~= before + buf@.subrange(0, j as int));
            }
            total += count;
            proof {
                assert(out@ =~= old(out)@ + volume.stored(
                    first,
                    start as int,
                    self.offset() as int,
                )) by {
                    assert forall|k: int| 0 <= k < count implies buf@.subrange(0, count as int)[k]
                        == volume.byte_at(first, offset + k) by {}
                }
            }
        }
    }

    /// Seek to offset `pos` in the file.
    ///
    /// A seek to the end of the file is allowed. A seek before the start or
    /// beyond the end of the file fails with `InvalidInput`. On success the
    /// result is the new offset from the start of the file, and the current
    /// cluster is the one reached from the first cluster by walking the chain
    /// `offset / cluster_size` times. If the chain ends before that, the
    /// result is an error of kind `InvalidData`. On any error the position of
    /// the file is unchanged.
    pub fn seek<D: BlockDevice>(&mut self, fs: &mut VFat<D>, pos: SeekFrom) -> (r: io::Result<u64>)
        requires
            old(fs).wf(),
            old(self).cluster_size() == old(fs)@.cluster_size,
        ensures
            final(fs).wf(),
            final(fs)@ == old(fs)@,
            final(fs).geometry() == old(fs).geometry(),
            final(self)@ == old(self)@,
            final(self).cluster_size() == old(self).cluster_size(),
            ({
                let target = seek_target(pos, old(self).offset(), old(self)@.file_size);
                0 <= target <= old(self)@.file_size && target / old(fs)@.cluster_size == 0 ==> r
                    is Ok
            }),
            ({
                let target = seek_target(pos, old(self).offset(), old(self)@.file_size);
                match r {
                    Ok(offset) => {
                        &&& 0 <= target <= old(self)@.file_size
                        &&& offset == target
                        &&& final(self).offset() == target
                        &&& final(self).positioned_on(old(fs)@)
                        &&& old(fs)@.walkable(
                            old(self)@.cluster,
                            (target / old(fs)@.cluster_size) as nat,
                        )
                    },
                    Err(e) => {
                        &&& final(self).offset() == old(self).offset()
                        &&& final(self).current() == old(self).current()
                        &&& !(0 <= target <= old(self)@.file_size) ==> e.kind()
                            == io::ErrorKind::InvalidInput && !e.is_device()
                        &&& 0 <= target <= old(self)@.file_size ==> e.is_device() || (e.kind()
                            == io::ErrorKind::InvalidData && !old(fs)@.walkable(
                            old(self)@.cluster,
                            (target / old(fs)@.cluster_size) as nat,
                        ))
                    },
                }
            }),
    {
        proof {
            fs.lemma_sizes();
        }
        let target: i128 = match pos {
            SeekFrom::Start(start) => start as i128,
            SeekFrom::Current(offset) => self.current_offset as i128 + offset as i128,
            SeekFrom::End(offset) => self.file_size as i128 + offset as i128,
        };
        if target < 0 || target > self.file_size as i128 {
            return Err(io::Error::new(io::ErrorKind::InvalidInput, "invalid seek position"));
        }
        let new_offset = target as u32;
        let steps = new_offset / self.bytes_per_cluster;
        let ghost volume = fs@;
        let ghost first = self.cluster;
        let mut current = Some(self.cluster);
        let mut k: u32 = 0;
        while k < steps
            invariant
                fs.wf(),
                fs@ == volume,
                fs@ == old(fs)@,
                fs.geometry() == old(fs).geometry(),
                *self == *old(self),
                first == self.cluster,
                k <= steps,
                steps == target as int / volume.cluster_size,
                0 <= target <= self.file_size,
                target == seek_target(pos, old(self).offset(), old(self)@.file_size),
                volume.walk(first, k as nat) == Ok::<Option<Cluster>, io::ErrorKind>(current),
                forall|j: nat| j < k ==> #[trigger] volume.on_chain(first, j),
            decreases steps - k,
        {
            proof {
                lemma_walk_step(volume, first, k as nat);
            }
            current = match current {
                Some(cluster) => match fs.next_cluster(cluster) {
                    Ok(next) => next,
                    Err(e) => {
                        proof {
                            if !e.is_device() {
                                assert(volume.walk(first, (k + 1) as nat) is Err);
                                assert(!volume.on_chain(first, (k + 1) as nat));
                            }
                        }
                        return Err(e);
                    },
                },
                None => {
                    proof {
                        assert(!volume.on_chain(first, k as nat));
                    }
                    return Err(
                        io::Error::new(io::ErrorKind::InvalidData, "Cluster chain ends too early"),
                    );
                },
            };
            k += 1;
        }
        self.current_cluster = current;
        self.current_offset = new_offset;
        Ok(new_offset as u64)
    }
}

} // verus!
