//! The FAT32 volume: mounting it, reading its file allocation table, and
//! reading clusters and cluster chains.

use vstd::prelude::*;
use vstd::std_specs::convert::FromSpec;
use crate::io;
use crate::fat32::mbr;
use crate::fat32::mbr::{
    is_fat32_type, known_boot_indicator, lemma_partition_of_front, partition_of, MasterBootRecord,
    BOOT_SIGNATURE, MBR_SIZE,
};
use crate::fat32::traits::BlockDevice;
use crate::fat32::util::{le_u16, le_u32, read_u32};
use crate::fat32::vfat::cache::{CachedDevice, Partition};
use vstd::relations::injective_on;
use vstd::set_lib::{lemma_int_range, lemma_len_subset, lemma_map_size, set_int_range};
use crate::fat32::vfat::cluster::{Cluster, CLUSTER_LIMIT};
use crate::fat32::vfat::ebpb::{ebpb_of, BiosParameterBlock, EBPB_SIZE};
use crate::fat32::vfat::error::Error;
use crate::fat32::vfat::fat::{status_of, FatEntry, Status};

verus! {

/// The size of a FAT entry in bytes.
pub const FAT_ENTRY_SIZE: usize = 4;

/// What reading a volume depends on: the bytes of the disk, where the file
/// allocation table and the data region start in them, and the size of a
/// cluster.
pub struct Volume {
    /// Everything the disk stores.
    pub image: Seq<u8>,
    /// The offset in the image of the first FAT entry.
    pub fat_offset: int,
    /// The offset in the image of cluster 2, the first of the data region.
    pub data_offset: int,
    /// The size of a cluster in bytes.
    pub cluster_size: int,
    /// The size of a sector in bytes.
    pub sector_size: int,
}

impl Volume {
    /// The FAT entry of `cluster`.
    pub open spec fn fat_value(self, cluster: Cluster) -> u32 {
        le_u32(self.image, self.fat_offset + FAT_ENTRY_SIZE * cluster.0) as u32
    }

    /// Whether the FAT entry of `cluster` lies in one sector.
    pub open spec fn fat_entry_fits(self, cluster: Cluster) -> bool {
        (FAT_ENTRY_SIZE * cluster.0) % self.sector_size + FAT_ENTRY_SIZE <= self.sector_size
    }

    /// What follows `cluster` in its chain: `Ok(None)` at the end of the
    /// chain, `Ok(Some(next))` for a data cluster, and an error of kind
    /// `InvalidData` if `cluster` itself is not a data cluster, or its entry
    /// is free, reserved or bad or does not lie in one sector.
    pub open spec fn next(self, cluster: Cluster) -> Result<Option<Cluster>, io::ErrorKind> {
        if cluster.0 < 2 || !self.fat_entry_fits(cluster) {
            Err(io::ErrorKind::InvalidData)
        } else {
            match status_of(self.fat_value(cluster)) {
                Status::Eoc(_) => Ok(None),
                Status::Data(next) => Ok(Some(next)),
                _ => Err(io::ErrorKind::InvalidData),
            }
        }
    }

    /// Where the chain that starts at `start` stands after `steps` steps:
    /// `Ok(Some(c))` at cluster `c`, `Ok(None)` once the end of the chain has
    /// been passed, an error once a step failed.
    pub open spec fn walk(self, start: Cluster, steps: nat) -> Result<
        Option<Cluster>,
        io::ErrorKind,
    >
        decreases steps,
    {
        if steps == 0 {
            Ok(Some(start))
        } else {
            match self.walk(start, (steps - 1) as nat) {
                Ok(Some(cluster)) => self.next(cluster),
                other => other,
            }
        }
    }

    /// The offset in the image at which `cluster` starts.
    pub open spec fn cluster_offset(self, cluster: Cluster) -> int {
        self.data_offset + (cluster.0 - 2) * self.cluster_size
    }

    /// The bytes of `cluster`.
    pub open spec fn cluster_data(self, cluster: Cluster) -> Seq<u8> {
        self.image.subrange(
            self.cluster_offset(cluster),
            self.cluster_offset(cluster) + self.cluster_size,
        )
    }

    /// The bytes of the first `count` clusters of the chain that starts at
    /// `start`, one cluster after the other.
    pub open spec fn chain_data(self, start: Cluster, count: nat) -> Seq<u8>
        decreases count,
    {
        if count == 0 {
            Seq::empty()
        } else {
            match self.walk(start, (count - 1) as nat) {
                Ok(Some(cluster)) => self.chain_data(start, (count - 1) as nat)
                    + self.cluster_data(cluster),
                _ => self.chain_data(start, (count - 1) as nat),
            }
        }
    }

    /// The byte at offset `position` of the content whose chain starts at
    /// `start`.
    pub open spec fn byte_at(self, start: Cluster, position: int) -> u8 {
        match self.walk(start, (position / self.cluster_size) as nat) {
            Ok(Some(cluster)) => self.image[self.cluster_offset(cluster) + position
                % self.cluster_size],
            _ => 0,
        }
    }

    /// Whether the chain that starts at `start` stands at a cluster after
    /// `steps` steps.
    pub open spec fn on_chain(self, start: Cluster, steps: nat) -> bool {
        self.walk(start, steps) matches Ok(Some(_))
    }

    /// Whether the chain that starts at `start` has exactly `count` clusters:
    /// after `count` steps, and not before, it has passed its end.
    pub open spec fn chain_has_length(self, start: Cluster, count: nat) -> bool {
        &&& self.walk(start, count) == Ok::<Option<Cluster>, io::ErrorKind>(None)
        &&& forall|k: nat| k < count ==> #[trigger] self.on_chain(start, k)
    }

    /// Whether the chain that starts at `start` can be walked for `steps`
    /// steps: it stands at a cluster before each of them, and none of them
    /// fails.
    pub open spec fn walkable(self, start: Cluster, steps: nat) -> bool {
        &&& forall|k: nat| k < steps ==> #[trigger] self.on_chain(start, k)
        &&& self.walk(start, steps) is Ok
    }

    /// Whether the bytes from `from` up to `to` of the content whose chain
    /// starts at `start` can be read: the chain reaches each of them, and the
    /// step to the cluster behind them does not fail.
    pub open spec fn readable(self, start: Cluster, from: int, to: int) -> bool {
        &&& forall|position: int|
            from <= position < to ==> #[trigger] self.on_chain(
                start,
                (position / self.cluster_size) as nat,
            )
        &&& self.walk(start, (to / self.cluster_size) as nat) is Ok
    }

    /// The bytes from `from` up to `to` of the content whose chain starts at
    /// `start`.
    pub open spec fn stored(self, start: Cluster, from: int, to: int) -> Seq<u8> {
        Seq::new((to - from) as nat, |j: int| self.byte_at(start, from + j))
    }

    /// The number of clusters of the chain that starts at `start`, if the
    /// chain reaches its end.
    pub open spec fn chain_len(self, start: Cluster) -> Option<nat> {
        if exists|count: nat| self.chain_has_length(start, count) {
            Some(choose|count: nat| self.chain_has_length(start, count))
        } else {
            None
        }
    }

    /// Everything that the chain starting at `start` holds, if the chain
    /// reaches its end and what it holds fits in memory.
    pub open spec fn content(self, start: Cluster) -> Option<Seq<u8>> {
        match self.chain_len(start) {
            Some(count) => if count * self.cluster_size <= usize::MAX {
                Some(self.chain_data(start, count))
            } else {
                None
            },
            None => None,
        }
    }
}

/// Once a walk has left the chain, by passing its end or by failing, it stays
/// where it is.
pub proof fn lemma_walk_stays(volume: Volume, start: Cluster, steps: nat, more: nat)
    requires
        !(volume.walk(start, steps) matches Ok(Some(_))),
    ensures
        volume.walk(start, steps + more) == volume.walk(start, steps),
    decreases more,
{
    if more > 0 {
        lemma_walk_stays(volume, start, steps, (more - 1) as nat);
        assert(steps + more - 1 == steps + (more - 1) as nat);
    }
}

/// A walk that stands at a cluster has stood at a cluster after every
/// earlier step.
pub proof fn lemma_on_chain_before(volume: Volume, start: Cluster, steps: nat, earlier: nat)
    requires
        volume.on_chain(start, steps),
        earlier <= steps,
    ensures
        volume.on_chain(start, earlier),
{
    if !volume.on_chain(start, earlier) {
        lemma_walk_stays(volume, start, earlier, (steps - earlier) as nat);
        assert(earlier + (steps - earlier) as nat == steps);
    }
}

/// A chain has one length at most.
pub proof fn lemma_chain_length_unique(volume: Volume, start: Cluster, a: nat, b: nat)
    requires
        volume.chain_has_length(start, a),
        volume.chain_has_length(start, b),
    ensures
        a == b,
{
    if a < b {
        assert(volume.on_chain(start, a));
    } else if b < a {
        assert(volume.on_chain(start, b));
    }
}

/// A chain of `count` clusters has the length `count` and holds the bytes of
/// those clusters.
pub proof fn lemma_chain_content(volume: Volume, start: Cluster, count: nat)
    requires
        volume.chain_has_length(start, count),
    ensures
        volume.chain_len(start) == Some(count),
        count * volume.cluster_size <= usize::MAX ==> volume.content(start) == Some(
            volume.chain_data(start, count),
        ),
        count * volume.cluster_size > usize::MAX ==> volume.content(start) is None,
{
    let chosen = choose|n: nat| volume.chain_has_length(start, n);
    lemma_chain_length_unique(volume, start, chosen, count);
}

/// What cannot be read cannot be read as part of more.
pub proof fn lemma_unreadable_part(
    volume: Volume,
    start: Cluster,
    from: int,
    to: int,
    wider_from: int,
    wider_to: int,
)
    requires
        volume.cluster_size > 0,
        0 <= wider_from <= from <= to <= wider_to,
        !volume.readable(start, from, to),
    ensures
        !volume.readable(start, wider_from, wider_to),
{
    if volume.readable(start, wider_from, wider_to) {
        let steps = (to / volume.cluster_size) as nat;
        let wider_steps = (wider_to / volume.cluster_size) as nat;
        vstd::arithmetic::div_mod::lemma_div_is_ordered(to, wider_to, volume.cluster_size);
        if to < wider_to {
            assert(volume.on_chain(start, steps));
        } else {
            assert(steps == wider_steps);
        }
        assert(volume.walk(start, steps) is Ok);
        assert(forall|position: int|
            from <= position < to ==> #[trigger] volume.on_chain(
                start,
                (position / volume.cluster_size) as nat,
            ));
    }
}

/// One more step of a walk that stands at a cluster leads to what follows
/// the cluster; a walk that has passed the end of the chain stays there.
pub proof fn lemma_walk_step(volume: Volume, start: Cluster, steps: nat)
    requires
        volume.walk(start, steps) is Ok,
    ensures
        volume.walk(start, steps + 1) == match volume.walk(start, steps) {
            Ok(Some(cluster)) => volume.next(cluster),
            other => other,
        },
{
    assert((steps + 1 - 1) as nat == steps);
}

/// Two walks that stand at the same place stand at the same place after
/// the same number of further steps.
pub proof fn lemma_walk_is_determined(volume: Volume, start: Cluster, a: nat, b: nat, more: nat)
    requires
        volume.walk(start, a) == volume.walk(start, b),
    ensures
        volume.walk(start, a + more) == volume.walk(start, b + more),
    decreases more,
{
    if more > 0 {
        lemma_walk_is_determined(volume, start, a, b, (more - 1) as nat);
        assert(a + more - 1 == a + (more - 1) as nat);
        assert(b + more - 1 == b + (more - 1) as nat);
    }
}

/// A walk that comes to the same cluster twice stands at a cluster after
/// every number of steps.
pub proof fn lemma_cycle_goes_on(volume: Volume, start: Cluster, a: nat, b: nat, steps: nat)
    requires
        a < b,
        volume.walk(start, a) == volume.walk(start, b),
        volume.on_chain(start, b),
    ensures
        volume.on_chain(start, steps),
    decreases steps,
{
    if steps <= b {
        lemma_on_chain_before(volume, start, b, steps);
    } else {
        let more = (steps - b) as nat;
        lemma_walk_is_determined(volume, start, a, b, more);
        assert(b + more == steps);
        lemma_cycle_goes_on(volume, start, a, b, a + more);
    }
}

/// A chain in which a cluster follows itself after some steps has no end,
/// and so has nothing that can be read as its content.
pub proof fn lemma_cycle_has_no_end(volume: Volume, start: Cluster, a: nat, b: nat)
    requires
        a < b,
        volume.walk(start, a) == volume.walk(start, b),
        volume.on_chain(start, b),
    ensures
        volume.chain_len(start) is None,
        volume.content(start) is None,
{
    if volume.chain_len(start) is Some {
        let count = choose|count: nat| volume.chain_has_length(start, count);
        lemma_cycle_goes_on(volume, start, a, b, count);
    }
}

/// A chain on which a step fails has no end.
pub proof fn lemma_broken_chain_has_no_end(volume: Volume, start: Cluster, steps: nat)
    requires
        volume.walk(start, steps) is Err,
    ensures
        volume.chain_len(start) is None,
        volume.content(start) is None,
{
    if volume.chain_len(start) is Some {
        let count = choose|count: nat| volume.chain_has_length(start, count);
        if count <= steps {
            lemma_walk_stays(volume, start, count, (steps - count) as nat);
            assert(count + (steps - count) as nat == steps);
        } else {
            assert(volume.on_chain(start, steps));
        }
    }
}

/// The number of the cluster at which a walk stands.
pub open spec fn cluster_after(volume: Volume, start: Cluster, steps: nat) -> int {
    match volume.walk(start, steps) {
        Ok(Some(cluster)) => cluster.0 as int,
        _ => -1,
    }
}

/// Every cluster that a walk comes to by a step is a data cluster, whose
/// number has 28 bits.
pub proof fn lemma_walk_stays_in_range(volume: Volume, start: Cluster, steps: nat)
    requires
        steps >= 1,
        volume.on_chain(start, steps),
    ensures
        2 <= cluster_after(volume, start, steps) < CLUSTER_LIMIT,
{
    lemma_on_chain_before(volume, start, steps, (steps - 1) as nat);
}

/// A walk of as many steps as there are cluster numbers comes to some
/// cluster twice.
pub proof fn lemma_long_walk_repeats(volume: Volume, start: Cluster)
    requires
        volume.on_chain(start, CLUSTER_LIMIT as nat),
    ensures
        exists|a: nat, b: nat|
            a < b <= CLUSTER_LIMIT && volume.walk(start, a) == volume.walk(start, b),
{
    let limit = CLUSTER_LIMIT as int;
    let steps = set_int_range(1, limit + 1);
    let place = |k: int| cluster_after(volume, start, k as nat);
    lemma_int_range(1, limit + 1);
    lemma_int_range(2, limit);
    if forall|a: nat, b: nat|
        a < b <= CLUSTER_LIMIT ==> volume.walk(start, a) != volume.walk(start, b) {
        assert forall|k: int| steps.contains(k) implies 2 <= #[trigger] place(k) < limit by {
            lemma_on_chain_before(volume, start, CLUSTER_LIMIT as nat, k as nat);
            lemma_walk_stays_in_range(volume, start, k as nat);
        }
        assert(injective_on(place, steps)) by {
            assert forall|x: int, y: int|
                steps.contains(x) && steps.contains(y) && #[trigger] place(x) == #[trigger] place(
                    y,
                ) implies x == y by {
                lemma_on_chain_before(volume, start, CLUSTER_LIMIT as nat, x as nat);
                lemma_on_chain_before(volume, start, CLUSTER_LIMIT as nat, y as nat);
                if x < y {
                    assert(volume.walk(start, x as nat) != volume.walk(start, y as nat));
                } else if y < x {
                    assert(volume.walk(start, y as nat) != volume.walk(start, x as nat));
                }
            }
        }
        let places = steps.map(place);
        lemma_map_size(steps, places, place);
        assert(places.subset_of(set_int_range(2, limit))) by {
            assert forall|v: int| places.contains(v) implies set_int_range(2, limit).contains(
                v,
            ) by {
                let k = choose|k: int| steps.contains(k) && v == place(k);
                assert(2 <= place(k) < limit);
            }
        }
        lemma_len_subset(places, set_int_range(2, limit));
        assert(false);
    }
}

/// A chain of more clusters than there are cluster numbers has no end.
pub proof fn lemma_long_chain_has_no_end(volume: Volume, start: Cluster)
    requires
        volume.on_chain(start, CLUSTER_LIMIT as nat),
    ensures
        volume.chain_len(start) is None,
        volume.content(start) is None,
{
    lemma_long_walk_repeats(volume, start);
    let (a, b) = choose|a: nat, b: nat|
        a < b <= CLUSTER_LIMIT && volume.walk(start, a) == volume.walk(start, b);
    lemma_on_chain_before(volume, start, CLUSTER_LIMIT as nat, b);
    lemma_cycle_has_no_end(volume, start, a, b);
}

/// Whether the FAT of `volume` chains the clusters `chain` one to the next
/// and ends the chain behind the last of them: each is a data cluster, the
/// low 28 bits of the entry of each but the last are the number of the next,
/// and those of the entry of the last mark the end of the chain.
pub open spec fn chained_in_fat(volume: Volume, chain: Seq<Cluster>) -> bool {
    &&& chain.len() > 0
    &&& forall|i: int| 0 <= i < chain.len() ==> 2 <= (#[trigger] chain[i]).0 <= 0x0FFF_FFEF
    &&& forall|i: int|
        0 <= i < chain.len() - 1 ==> volume.fat_value(#[trigger] chain[i]) % 0x1000_0000
            == chain[i + 1].0
    &&& volume.fat_value(chain.last()) % 0x1000_0000 >= 0x0FFF_FFF8
}

/// Where the size of a sector is a multiple of the size of a FAT entry, every
/// FAT entry lies in one sector.
pub proof fn lemma_fat_entries_fit(volume: Volume, cluster: Cluster)
    requires
        volume.sector_size > 0,
        volume.sector_size % FAT_ENTRY_SIZE as int == 0,
    ensures
        volume.fat_entry_fits(cluster),
{
    let entries = volume.sector_size / FAT_ENTRY_SIZE as int;
    let c = cluster.0 as int;
    assert(volume.sector_size == 4 * entries && entries > 0) by (nonlinear_arith)
        requires
            volume.sector_size > 0,
            volume.sector_size % 4 == 0,
            entries == volume.sector_size / 4,
    ;
    vstd::arithmetic::div_mod::lemma_truncate_middle(c, 4, entries);
    vstd::arithmetic::div_mod::lemma_mod_bound(c, entries);
    assert((4 * c) % (4 * entries) + 4 <= 4 * entries) by (nonlinear_arith)
        requires
            (4 * c) % (4 * entries) == 4 * (c % entries),
            0 <= c % entries < entries,
    ;
}

/// The walk along clusters that the FAT chains stands at each of them in
/// turn.
pub proof fn lemma_walk_along_chain(volume: Volume, chain: Seq<Cluster>, steps: int)
    requires
        chained_in_fat(volume, chain),
        forall|i: int| 0 <= i < chain.len() ==> volume.fat_entry_fits(#[trigger] chain[i]),
        0 <= steps < chain.len(),
    ensures
        volume.walk(chain[0], steps as nat) == Ok::<Option<Cluster>, io::ErrorKind>(
            Some(chain[steps]),
        ),
    decreases steps,
{
    if steps > 0 {
        lemma_walk_along_chain(volume, chain, steps - 1);
        let before = chain[steps - 1];
        assert(2 <= before.0 && volume.fat_entry_fits(before));
        assert(2 <= chain[steps].0 <= 0x0FFF_FFEF);
        assert(volume.fat_value(before) % 0x1000_0000 == chain[steps].0);
        assert(status_of(volume.fat_value(before)) == Status::Data(chain[steps]));
        assert((steps - 1) as nat == steps as nat - 1);
    }
}

/// Following `next_cluster` along the clusters that the FAT chains comes to
/// each of them in turn and reaches the end of the chain behind the last,
/// not before: the chain has as many clusters as the FAT chains. For a file
/// of `file_size` bytes whose clusters are `ceil(file_size / cluster_size)`
/// in number, that many steps from its first cluster reach the end of the
/// chain, and every byte of the file lies in a cluster of the chain.
pub proof fn lemma_fat_chain_is_walked(volume: Volume, chain: Seq<Cluster>, file_size: nat)
    requires
        volume.cluster_size > 0,
        chained_in_fat(volume, chain),
        forall|i: int| 0 <= i < chain.len() ==> volume.fat_entry_fits(#[trigger] chain[i]),
        chain.len() == (file_size + volume.cluster_size - 1) / volume.cluster_size,
    ensures
        forall|i: int|
            0 <= i < chain.len() - 1 ==> volume.next(#[trigger] chain[i]) == Ok::<
                Option<Cluster>,
                io::ErrorKind,
            >(Some(chain[i + 1])),
        volume.next(chain.last()) == Ok::<Option<Cluster>, io::ErrorKind>(None),
        forall|i: int|
            0 <= i < chain.len() ==> #[trigger] volume.walk(chain[0], i as nat) == Ok::<
                Option<Cluster>,
                io::ErrorKind,
            >(Some(chain[i])),
        volume.walk(chain[0], chain.len()) == Ok::<Option<Cluster>, io::ErrorKind>(None),
        volume.chain_has_length(chain[0], chain.len()),
        forall|position: nat|
            position < file_size ==> #[trigger] volume.on_chain(
                chain[0],
                (position as int / volume.cluster_size) as nat,
            ),
{
    let count = chain.len();
    assert forall|i: int| 0 <= i < count - 1 implies volume.next(#[trigger] chain[i]) == Ok::<
        Option<Cluster>,
        io::ErrorKind,
    >(Some(chain[i + 1])) by {
        assert(2 <= chain[i + 1].0 <= 0x0FFF_FFEF);
        assert(status_of(volume.fat_value(chain[i])) == Status::Data(chain[i + 1]));
    }
    assert(volume.fat_entry_fits(chain[count - 1]));
    assert(status_of(volume.fat_value(chain.last())) is Eoc);
    assert forall|i: int| 0 <= i < count implies #[trigger] volume.walk(chain[0], i as nat)
        == Ok::<Option<Cluster>, io::ErrorKind>(Some(chain[i])) by {
        lemma_walk_along_chain(volume, chain, i);
    }
    lemma_walk_along_chain(volume, chain, count - 1);
    lemma_walk_step(volume, chain[0], (count - 1) as nat);
    assert(((count - 1) as nat + 1) as nat == count);
    assert forall|k: nat| k < count implies #[trigger] volume.on_chain(chain[0], k) by {
        lemma_walk_along_chain(volume, chain, k as int);
    }
    lemma_walk_reaches_end_of_chain(volume, chain[0], file_size, count);
}

/// Following the chain of a file from its first cluster exactly as many
/// times as the chain has clusters reaches the end of the chain, and no
/// fewer steps do: where a file of `file_size` bytes has a chain of
/// `ceil(file_size / cluster_size)` clusters, that many steps reach the end.
pub proof fn lemma_walk_reaches_end_of_chain(
    volume: Volume,
    first: Cluster,
    file_size: nat,
    count: nat,
)
    requires
        volume.cluster_size > 0,
        count == (file_size + volume.cluster_size - 1) / volume.cluster_size,
        volume.chain_has_length(first, count),
    ensures
        volume.walk(first, count) == Ok::<Option<Cluster>, io::ErrorKind>(None),
        forall|k: nat| k < count ==> #[trigger] volume.on_chain(first, k),
        forall|k: nat|
            k >= count ==> #[trigger] volume.walk(first, k) == Ok::<Option<Cluster>, io::ErrorKind>(
                None,
            ),
        forall|position: nat|
            position < file_size ==> #[trigger] volume.on_chain(
                first,
                (position as int / volume.cluster_size) as nat,
            ),
{
    assert forall|k: nat| k >= count implies #[trigger] volume.walk(first, k) == Ok::<
        Option<Cluster>,
        io::ErrorKind,
    >(None) by {
        lemma_walk_stays(volume, first, count, (k - count) as nat);
        assert(count + (k - count) as nat == k);
    }
    assert forall|position: nat| position < file_size implies #[trigger] volume.on_chain(
        first,
        (position as int / volume.cluster_size) as nat,
    ) by {
        let size = volume.cluster_size;
        assert(position as int / size < (file_size + size - 1) / size) by (nonlinear_arith)
            requires
                size > 0,
                position < file_size,
        ;
        let k = (position as int / size) as nat;
        assert(k < count);
        assert(volume.on_chain(first, k));
    }
}

/// A mounted FAT32 volume.
pub struct VFat<D: BlockDevice> {
    device: CachedDevice<D>,
    pub(crate) bytes_per_sector: u16,
    pub(crate) sectors_per_cluster: u8,
    sectors_per_fat: u32,
    fat_start_sector: u64,
    data_start_sector: u64,
    pub(crate) root_dir_cluster: Cluster,
}

/// What mounting reads from the two boot sectors of a disk.
pub struct Geometry {
    pub bytes_per_sector: u16,
    pub sectors_per_cluster: u8,
    pub sectors_per_fat: u32,
    /// The first sector of the first FAT.
    pub fat_start_sector: u64,
    /// The first sector of the data region.
    pub data_start_sector: u64,
    pub root_dir_cluster: Cluster,
}

/// The index of the first FAT32 partition in the partition table of the boot
/// sector `sector`, if there is one.
pub open spec fn first_fat32_partition(sector: Seq<u8>) -> Option<int> {
    if is_fat32_type(partition_of(sector, 0).partition_type) {
        Some(0)
    } else if is_fat32_type(partition_of(sector, 1).partition_type) {
        Some(1)
    } else if is_fat32_type(partition_of(sector, 2).partition_type) {
        Some(2)
    } else if is_fat32_type(partition_of(sector, 3).partition_type) {
        Some(3)
    } else {
        None
    }
}

/// Whether the image starts with a valid boot record: it has the 512 bytes of
/// one, they end in the boot signature, and each of the four partitions has
/// a known boot indicator.
pub open spec fn boot_record_is_valid(image: Seq<u8>) -> bool {
    &&& image.len() >= MBR_SIZE
    &&& le_u16(image, 510) == BOOT_SIGNATURE
    &&& forall|i: int|
        0 <= i < 4 ==> known_boot_indicator((#[trigger] partition_of(image, i)).boot_indicator)
}

/// Whether `error` is how mounting a device with the image `image` and
/// sectors of `physical` bytes may fail: the device itself fails, or the
/// error says what is wrong with the boot record or the parameter block.
pub open spec fn refused(image: Seq<u8>, physical: u64, error: Error) -> bool {
    let boot = image.subrange(0, MBR_SIZE as int);
    match error {
        Error::Mbr(mbr::Error::Io(e)) => e.is_device() || (e.kind() == io::ErrorKind::UnexpectedEof
            && physical < MBR_SIZE),
        Error::Mbr(mbr::Error::BadSignature) => {
            &&& image.len() >= MBR_SIZE
            &&& le_u16(image, 510) != BOOT_SIGNATURE
        },
        Error::Mbr(mbr::Error::UnknownBootIndicator(n)) => {
            &&& image.len() >= MBR_SIZE
            &&& le_u16(image, 510) == BOOT_SIGNATURE
            &&& n < 4
            &&& !known_boot_indicator(partition_of(image, n as int).boot_indicator)
            &&& forall|i: int|
                0 <= i < n ==> known_boot_indicator(
                    (#[trigger] partition_of(image, i)).boot_indicator,
                )
        },
        Error::BadSignature => {
            &&& boot_record_is_valid(image)
            &&& first_fat32_partition(boot) matches Some(index)
            &&& {
                let start = partition_of(boot, index).first_sector_lba;
                &&& start * physical + EBPB_SIZE <= image.len()
                &&& le_u16(image, start * physical + 510) != BOOT_SIGNATURE
            }
        },
        Error::Io(e) => e.is_device() || {
            &&& boot_record_is_valid(image)
            &&& match first_fat32_partition(boot) {
                None => e.kind() == io::ErrorKind::NotFound,
                Some(index) => {
                    let start = partition_of(boot, index).first_sector_lba;
                    let ebpb = ebpb_of(
                        image.subrange(start * physical, start * physical + EBPB_SIZE),
                    );
                    &&& start * physical + EBPB_SIZE <= image.len()
                    &&& ebpb.magic == BOOT_SIGNATURE
                    &&& !supported(ebpb, physical)
                    &&& e.kind() == io::ErrorKind::Other
                },
            }
        },
    }
}

/// The geometry of a volume whose partition starts at sector `start` and
/// whose parameter block is `ebpb`: the FAT follows the reserved sectors, and
/// the data region follows the FATs.
pub open spec fn geometry_of(start: u32, ebpb: BiosParameterBlock) -> Geometry {
    Geometry {
        bytes_per_sector: ebpb.bytes_per_sector,
        sectors_per_cluster: ebpb.sectors_per_cluster,
        sectors_per_fat: ebpb.spec_sectors_per_fat(),
        fat_start_sector: (start + ebpb.reserved_sectors) as u64,
        data_start_sector: (start + ebpb.reserved_sectors + ebpb.spec_sectors_per_fat()
            * ebpb.number_of_fats) as u64,
        root_dir_cluster: Cluster::from_spec(ebpb.root_directory_cluster),
    }
}

/// Whether a volume with the parameter block `ebpb` can be used on a device
/// with sectors of `physical` bytes: the logical sector size is a positive
/// multiple of the physical one, and a cluster has at least one sector.
pub open spec fn supported(ebpb: BiosParameterBlock, physical: u64) -> bool {
    &&& ebpb.bytes_per_sector != 0
    &&& physical != 0
    &&& ebpb.bytes_per_sector as int % physical as int == 0
    &&& ebpb.sectors_per_cluster != 0
}

impl<D: BlockDevice> VFat<D> {
    /// Everything the disk stores.
    pub closed spec fn image(&self) -> Seq<u8> {
        self.device.image()
    }

    /// What mounting read from the boot sectors.
    pub closed spec fn geometry(&self) -> Geometry {
        Geometry {
            bytes_per_sector: self.bytes_per_sector,
            sectors_per_cluster: self.sectors_per_cluster,
            sectors_per_fat: self.sectors_per_fat,
            fat_start_sector: self.fat_start_sector,
            data_start_sector: self.data_start_sector,
            root_dir_cluster: self.root_dir_cluster,
        }
    }

    /// The physical sector at which the partition starts.
    pub closed spec fn partition_start(&self) -> u64 {
        self.device.partition().start
    }

    /// The size of a physical sector of the disk.
    pub closed spec fn physical_sector_size(&self) -> u64 {
        self.device.physical_sector_size()
    }

    /// The offset in the image of logical sector `sector` of the partition.
    pub open spec fn logical_offset(&self, sector: int) -> int {
        self.partition_start() * self.physical_sector_size() + (sector - self.partition_start())
            * self.geometry().bytes_per_sector
    }

    /// What reading this volume depends on.
    pub open spec fn view(&self) -> Volume {
        Volume {
            image: self.image(),
            fat_offset: self.logical_offset(self.geometry().fat_start_sector as int),
            data_offset: self.logical_offset(self.geometry().data_start_sector as int),
            cluster_size: self.geometry().bytes_per_sector * self.geometry().sectors_per_cluster,
            sector_size: self.geometry().bytes_per_sector as int,
        }
    }

    /// The invariant of a mounted volume: sectors and clusters are not
    /// empty, the FAT and the data region lie in the partition in that
    /// order, and the cache holds what the disk holds.
    pub closed spec fn wf(&self) -> bool {
        &&& self.device.wf()
        &&& self.device.clean()
        &&& self.device.partition().sector_size == self.bytes_per_sector
        &&& self.bytes_per_sector > 0
        &&& self.sectors_per_cluster > 0
        &&& self.device.partition().start <= self.fat_start_sector
        &&& self.device.partition().start <= u32::MAX
        &&& self.fat_start_sector <= self.data_start_sector
        &&& self.data_start_sector <= 0x200_0000_0000
    }

    /// What the invariant says of the sizes.
    pub proof fn lemma_sizes(&self)
        requires
            self.wf(),
        ensures
            self.geometry().bytes_per_sector > 0,
            self.geometry().sectors_per_cluster > 0,
            self@.cluster_size > 0,
            self@.cluster_size <= 0xFFFF * 0xFF,
            self.partition_start() <= self.geometry().fat_start_sector,
            self.geometry().fat_start_sector <= self.geometry().data_start_sector,
    {
        let b = self.bytes_per_sector as int;
        let s = self.sectors_per_cluster as int;
        assert(0 < b * s <= 0xFFFF * 0xFF) by (nonlinear_arith)
            requires
                0 < b <= 0xFFFF,
                0 < s <= 0xFF,
        ;
    }

    /// The offset of a sector of the partition, as the cached device maps it.
    proof fn lemma_sector_offset(&self, sector: u64)
        requires
            self.wf(),
            sector >= self.partition_start(),
        ensures
            self.device.sector_offset(sector) == self.logical_offset(sector as int),
            self.device.sector_len(sector) == self.bytes_per_sector,
            sector <= 0x400_0000_0000 ==> self.device.addressable(sector),
    {
        self.device.lemma_sector_sizes();
        let start = self.device.partition().start as int;
        let factor = self.device.factor();
        let physical = self.device.physical_sector_size() as int;
        let k = sector - start;
        assert((start + k * factor) * physical == start * physical + k * (factor * physical))
            by (nonlinear_arith);
        if sector <= 0x400_0000_0000 {
            assert(factor <= 0xFFFF) by (nonlinear_arith)
                requires
                    factor * physical <= 0xFFFF,
                    physical >= 1,
                    factor >= 1,
            ;
            assert(start + k * factor + factor - 1 <= u64::MAX) by (nonlinear_arith)
                requires
                    0 <= k <= 0x400_0000_0000,
                    1 <= factor <= 0xFFFF,
                    0 <= start <= 0xFFFF_FFFF,
            ;
        }
    }

    /// Whether this is the volume that mounting a device with the image
    /// `image` and sectors of `physical` bytes gives: the boot record and
    /// the parameter block of its first FAT32 partition are valid, and the
    /// geometry is the one they describe.
    pub open spec fn mounted_on(&self, image: Seq<u8>, physical: u64) -> bool {
        let boot = image.subrange(0, MBR_SIZE as int);
        &&& self.wf()
        &&& self.image() == image
        &&& self.physical_sector_size() == physical
        &&& boot_record_is_valid(image)
        &&& first_fat32_partition(boot) matches Some(index)
        &&& {
            let start = partition_of(boot, index).first_sector_lba;
            let ebpb = ebpb_of(image.subrange(start * physical, start * physical + EBPB_SIZE));
            &&& start * physical + EBPB_SIZE <= image.len()
            &&& ebpb.magic == BOOT_SIGNATURE
            &&& supported(ebpb, physical)
            &&& self.partition_start() == start
            &&& self.geometry() == geometry_of(start, ebpb)
        }
    }

    /// Mounts the first FAT32 partition of `device`.
    ///
    /// Reads the master boot record from sector 0 and the BIOS parameter
    /// block from the first sector of the first partition of type 0x0B or
    /// 0x0C. Fails with `Mbr` if the boot record cannot be read or is not
    /// valid, with `Io` of kind `NotFound` if it names no FAT32 partition,
    /// with `Io` or `BadSignature` if the parameter block cannot be read or is
    /// not valid, and with `Io` of kind `Other` if the logical sector size is
    /// zero or no multiple of the device's sector size, or a cluster has no
    /// sectors.
    pub fn from(device: D) -> (r: Result<VFat<D>, Error>)
        ensures
            match r {
                Ok(vfat) => vfat.mounted_on(device.image(), device.spec_sector_size()),
                Err(e) => refused(device.image(), device.spec_sector_size(), e),
            },
    {
        let mut device = device;
        let mbr = match MasterBootRecord::from(&mut device) {
            Ok(mbr) => mbr,
            Err(e) => {
                return Err(Error::Mbr(e));
            },
        };
        proof {
            let image = device.image();
            let boot = image.subrange(0, MBR_SIZE as int);
            assert(le_u16(boot, 510) == le_u16(image, 510));
            assert forall|i: int| 0 <= i < 4 implies mbr.partitions[i] == partition_of(boot, i)
                && partition_of(boot, i) == #[trigger] partition_of(image, i) by {
                lemma_partition_of_front(image, i);
            }
            assert(boot_record_is_valid(image));
        }
        let start = match mbr.first_vfat_partition_lba() {
            Some(sector) => sector,
            None => {
                return Err(
                    Error::Io(
                        io::Error::new(
                            io::ErrorKind::NotFound,
                            "cannot find the first vfat partition",
                        ),
                    ),
                );
            },
        };
        proof {
            let boot = device.image().subrange(0, MBR_SIZE as int);
            assert forall|i: int| 0 <= i < 4 implies mbr.partitions[i] == partition_of(boot, i) by {}
        }
        let ebpb = BiosParameterBlock::from(&mut device, start as u64)?;
        let physical = device.sector_size();
        if ebpb.bytes_per_sector == 0 || physical == 0 || ebpb.bytes_per_sector as u64 % physical
            != 0 || ebpb.sectors_per_cluster == 0 {
            return Err(
                Error::Io(io::Error::new(io::ErrorKind::Other, "unsupported logical sector size")),
            );
        }
        let sectors_per_fat = ebpb.sectors_per_fat();
        let fat_start_sector = start as u64 + ebpb.reserved_sectors as u64;
        assert(sectors_per_fat * ebpb.number_of_fats <= 0xFFFF_FFFF * 0xFF) by (nonlinear_arith)
            requires
                sectors_per_fat <= 0xFFFF_FFFF,
                ebpb.number_of_fats <= 0xFF,
        ;
        let data_start_sector = fat_start_sector + sectors_per_fat as u64
            * ebpb.number_of_fats as u64;
        proof {
            let boot = device.image().subrange(0, MBR_SIZE as int);
            assert forall|i: int| 0 <= i < 4 implies mbr.partitions[i] == partition_of(boot, i) by {}
            assert(ebpb.bytes_per_sector >= physical) by (nonlinear_arith)
                requires
                    ebpb.bytes_per_sector > 0,
                    physical > 0,
                    ebpb.bytes_per_sector as int % physical as int == 0,
            ;
        }
        let cached = CachedDevice::new(
            device,
            Partition { start: start as u64, sector_size: ebpb.bytes_per_sector as u64 },
        );
        Ok(
            VFat {
                device: cached,
                bytes_per_sector: ebpb.bytes_per_sector,
                sectors_per_cluster: ebpb.sectors_per_cluster,
                sectors_per_fat,
                fat_start_sector,
                data_start_sector,
                root_dir_cluster: Cluster::from(ebpb.root_directory_cluster),
            },
        )
    }

    /// The cluster at which the root directory starts.
    pub fn root_dir_cluster(&self) -> (cluster: Cluster)
        ensures
            cluster == self.geometry().root_dir_cluster,
    {
        self.root_dir_cluster
    }

    /// The size of a cluster in bytes.
    pub fn bytes_per_cluster(&self) -> (size: u32)
        requires
            self.wf(),
        ensures
            size == self@.cluster_size,
    {
        proof {
            self.lemma_sizes();
        }
        self.bytes_per_sector as u32 * self.sectors_per_cluster as u32
    }

    /// Reads the FAT entry of `cluster` through the cache.
    ///
    /// The entry lies at byte `4 * cluster` of the FAT, so in sector
    /// `4 * cluster / bytes_per_sector` of the FAT at offset
    /// `4 * cluster % bytes_per_sector`.
    pub fn fat_entry(&mut self, cluster: Cluster) -> (r: io::Result<FatEntry>)
        requires
            old(self).wf(),
        ensures
            final(self).wf(),
            final(self)@ == old(self)@,
            final(self).geometry() == old(self).geometry(),
            !old(self)@.fat_entry_fits(cluster) ==> (r matches Err(e) && e.kind()
                == io::ErrorKind::InvalidData && !e.is_device()),
            match r {
                Ok(entry) => {
                    &&& old(self)@.fat_entry_fits(cluster)
                    &&& entry.0 == old(self)@.fat_value(cluster)
                    &&& old(self)@.fat_offset + FAT_ENTRY_SIZE * cluster.0 + FAT_ENTRY_SIZE
                        <= old(self).image().len()
                },
                Err(e) => e.is_device() || (e.kind() == io::ErrorKind::InvalidData
                    && !old(self)@.fat_entry_fits(cluster)),
            },
    {
        proof {
            self.lemma_sizes();
        }
        let position = cluster.cluster_num() as u64 * FAT_ENTRY_SIZE as u64;
        let sector_size = self.bytes_per_sector as u64;
        proof {
            vstd::arithmetic::div_mod::lemma_div_is_ordered_by_denominator(
                position as int,
                1,
                sector_size as int,
            );
            vstd::arithmetic::div_mod::lemma_div_pos_is_pos(position as int, sector_size as int);
        }
        let sector = self.fat_start_sector + position / sector_size;
        let offset = (position % sector_size) as usize;
        proof {
            self.lemma_sector_offset(sector);
            assert(position == (position / sector_size) * sector_size + position % sector_size)
                by (nonlinear_arith)
                requires
                    sector_size > 0,
            ;
            assert((sector - self.partition_start()) * sector_size == (self.fat_start_sector
                - self.partition_start()) * sector_size + (position / sector_size) * sector_size)
                by (nonlinear_arith)
                requires
                    sector == self.fat_start_sector + position / sector_size,
            ;
        }
        if offset + FAT_ENTRY_SIZE > sector_size as usize {
            return Err(
                io::Error::new(io::ErrorKind::InvalidData, "FAT entry crosses a sector boundary"),
            );
        }
        let content = self.device.get(sector)?;
        let value = read_u32(content, offset);
        proof {
            crate::fat32::util::lemma_le_u32_subrange(
                self.image(),
                self.device.sector_offset(sector),
                self.device.sector_offset(sector) + self.device.sector_len(sector),
                offset as int,
            );
        }
        Ok(FatEntry(value))
    }

    /// Returns the cluster that follows `cluster` in its chain, or `None` if
    /// `cluster` is the last of its chain.
    ///
    /// Fails with `InvalidData` if `cluster` is not a data cluster, or if its
    /// FAT entry is free, reserved or bad. No sector is read for a cluster
    /// that is no data cluster or whose FAT entry does not lie in one sector:
    /// that failure is never one of the device.
    pub fn next_cluster(&mut self, cluster: Cluster) -> (r: io::Result<Option<Cluster>>)
        requires
            old(self).wf(),
        ensures
            final(self).wf(),
            final(self)@ == old(self)@,
            final(self).geometry() == old(self).geometry(),
            cluster.0 < 2 || !old(self)@.fat_entry_fits(cluster) ==> (r matches Err(e) && e.kind()
                == io::ErrorKind::InvalidData && !e.is_device()),
            match r {
                Ok(next) => old(self)@.next(cluster) == Ok::<Option<Cluster>, io::ErrorKind>(next),
                Err(e) => e.is_device() || old(self)@.next(cluster) == Err::<
                    Option<Cluster>,
                    io::ErrorKind,
                >(e.kind()),
            },
    {
        if !cluster.is_valid() {
            return Err(io::Error::new(io::ErrorKind::InvalidData, "Invalid cluster num"));
        }
        match self.fat_entry(cluster)?.status() {
            Status::Eoc(_) => Ok(None),
            Status::Data(next_cluster) => {
                if next_cluster.is_valid() {
                    Ok(Some(next_cluster))
                } else {
                    Err(io::Error::new(io::ErrorKind::InvalidData, "Invalid cluster num"))
                }
            },
            _ => Err(io::Error::new(io::ErrorKind::InvalidData, "Invalid cluster chain")),
        }
    }

    /// Reads from `cluster`, starting at byte `offset` of it, into
    /// `buf[at..at + limit]`, sector by sector, without crossing into the
    /// next cluster. Returns the number of bytes read.
    pub(crate) fn read_cluster_into(
        &mut self,
        cluster: Cluster,
        offset: usize,
        buf: &mut [u8],
        at: usize,
        limit: usize,
    ) -> (r: io::Result<usize>)
        requires
            old(self).wf(),
            at + limit <= old(buf)@.len(),
        ensures
            final(self).wf(),
            final(self)@ == old(self)@,
            final(self).geometry() == old(self).geometry(),
            final(buf)@.len() == old(buf)@.len(),
            forall|j: int|
                0 <= j < at || at + limit <= j < old(buf)@.len() ==> final(buf)@[j] == old(buf)@[j],
            cluster.0 < 2 ==> (r matches Err(e) && e.kind() == io::ErrorKind::InvalidInput
                && !e.is_device()) && final(buf)@ == old(buf)@,
            r matches Err(e) ==> e.is_device() || cluster.0 < 2,
            cluster.0 >= 2 && (limit == 0 || offset >= old(self)@.cluster_size) ==> r is Ok,
            r matches Ok(count) ==> {
                let volume = old(self)@;
                &&& cluster.0 >= 2
                &&& count == if offset >= volume.cluster_size {
                    0
                } else if limit <= volume.cluster_size - offset {
                    limit as int
                } else {
                    volume.cluster_size - offset
                }
                &&& count > 0 ==> volume.cluster_offset(cluster) + offset + count
                    <= volume.image.len()
                &&& forall|j: int|
                    at <= j < at + count ==> #[trigger] final(buf)@[j]
                        == volume.image[volume.cluster_offset(cluster) + offset + (j - at)]
                &&& forall|j: int| at + count <= j < at + limit ==> final(buf)@[j] == old(buf)@[j]
            },
    {
        if !cluster.is_valid() {
            return Err(io::Error::new(io::ErrorKind::InvalidInput, "Invalid cluster"));
        }
        proof {
            self.lemma_sizes();
        }
        let buf_len = buf.len();
        let sector_size = self.bytes_per_sector as usize;
        let per_cluster = self.sectors_per_cluster as usize;
        assert(sector_size * per_cluster <= 0xFFFF * 0xFF) by (nonlinear_arith)
            requires
                sector_size <= 0xFFFF,
                per_cluster <= 0xFF,
        ;
        let cluster_size = sector_size * per_cluster;
        let size = if offset >= cluster_size {
            0
        } else if limit <= cluster_size - offset {
            limit
        } else {
            cluster_size - offset
        };
        let index = cluster.cluster_index() as u64;
        assert(index * per_cluster <= 0xFFFF_FFFF * 0xFF) by (nonlinear_arith)
            requires
                index <= 0xFFFF_FFFF,
                per_cluster <= 0xFF,
        ;
        let first_sector = self.data_start_sector + index * per_cluster as u64;
        let ghost volume = self@;
        let ghost base = volume.cluster_offset(cluster);
        proof {
            self.lemma_sector_offset(first_sector);
            assert((first_sector - self.partition_start()) * sector_size == (self.data_start_sector
                - self.partition_start()) * sector_size + index * (sector_size * per_cluster))
                by (nonlinear_arith)
                requires
                    first_sector == self.data_start_sector + index * per_cluster,
            ;
            assert(self.logical_offset(first_sector as int) == base);
        }
        if size == 0 {
            return Ok(0);
        }
        assert(offset / sector_size < per_cluster && offset == (offset / sector_size) * sector_size
            + offset % sector_size) by (nonlinear_arith)
            requires
                offset < sector_size * per_cluster,
                sector_size > 0,
        ;
        let mut current_sector = first_sector + (offset / sector_size) as u64;
        let mut done: usize = 0;
        let mut within = offset % sector_size;
        while done < size
            invariant
                self.wf(),
                self@ == volume,
                self@ == old(self)@,
                self.geometry() == old(self).geometry(),
                sector_size == self.bytes_per_sector,
                per_cluster == self.sectors_per_cluster,
                cluster_size == sector_size * per_cluster,
                sector_size > 0,
                per_cluster > 0,
                first_sector >= self.partition_start(),
                first_sector <= 0x200_0000_0000 + 0xFFFF_FFFF * 0xFF,
                self.logical_offset(first_sector as int) == base,
                base == volume.cluster_offset(cluster),
                0 < size <= cluster_size - offset,
                size <= limit,
                at + limit <= buf@.len(),
                buf@.len() == old(buf)@.len(),
                buf@.len() == buf_len,
                cluster.0 >= 2,
                base >= 0,
                done <= size,
                within < sector_size,
                first_sector <= current_sector <= first_sector + per_cluster,
                done < size ==> (current_sector - first_sector) * sector_size + within == offset
                    + done,
                done > 0 ==> base + offset + done <= volume.image.len(),
                forall|j: int|
                    at <= j < at + done ==> #[trigger] buf@[j] == volume.image[base + offset + (j
                        - at)],
                forall|j: int|
                    0 <= j < at || at + done <= j < buf@.len() ==> buf@[j] == old(buf)@[j],
            decreases size - done,
        {
            proof {
                self.lemma_sector_offset(current_sector);
                assert(current_sector - first_sector < per_cluster) by (nonlinear_arith)
                    requires
                        (current_sector - first_sector) * sector_size + within == offset + done,
                        offset + done < sector_size * per_cluster,
                        sector_size > 0,
                        within >= 0,
                ;
                assert((current_sector - self.partition_start()) * sector_size == (first_sector
                    - self.partition_start()) * sector_size + (current_sector - first_sector)
                    * sector_size) by (nonlinear_arith);
            }
            let ghost sector_start = self.logical_offset(current_sector as int);
            let ghost image = self.image();
            let copy = if size - done <= sector_size - within {
                size - done
            } else {
                sector_size - within
            };
            let content = self.device.get(current_sector)?;
            assert(content@ == image.subrange(sector_start, sector_start + sector_size));
            let mut k: usize = 0;
            while k < copy
                invariant
                    k <= copy,
                    within + copy <= sector_size,
                    content@.len() == sector_size,
                    done + copy <= size,
                    size <= limit,
                    at + limit <= buf@.len(),
                    buf@.len() == old(buf)@.len(),
                    buf@.len() == buf_len,
                    0 <= sector_start,
                    sector_start + sector_size <= image.len(),
                    content@ == image.subrange(sector_start, sector_start + sector_size),
                    sector_start + within == base + offset + done,
                    image == volume.image,
                    forall|j: int|
                        at <= j < at + done + k ==> #[trigger] buf@[j] == volume.image[base + offset
                            + (j - at)],
                    forall|j: int|
                        0 <= j < at || at + done + k <= j < buf@.len() ==> buf@[j] == old(buf)@[j],
                decreases copy - k,
            {
                buf[at + done + k] = content[within + k];
                k += 1;
            }
            proof {
                if done + copy < size {
                    assert((current_sector + 1 - first_sector) * sector_size == (current_sector
                        - first_sector) * sector_size + sector_size) by (nonlinear_arith);
                }
            }
            within = 0;
            done += copy;
            current_sector += 1;
        }
        Ok(size)
    }

    /// Reads from `cluster`, starting at byte `offset` of it, into `buf`.
    ///
    /// Reads until `buf` is full or the cluster ends, whichever comes first,
    /// and returns the number of bytes read: `buf.len()` or the size of a
    /// cluster less `offset`, whichever is less, and nothing if `offset` lies
    /// beyond the cluster. Fails with `InvalidInput` if `cluster` is not a
    /// data cluster.
    pub fn read_cluster(&mut self, cluster: Cluster, offset: usize, buf: &mut [u8]) -> (r:
        io::Result<usize>)
        requires
            old(self).wf(),
        ensures
            final(self).wf(),
            final(self)@ == old(self)@,
            final(self).geometry() == old(self).geometry(),
            final(buf)@.len() == old(buf)@.len(),
            cluster.0 < 2 ==> (r matches Err(e) && e.kind() == io::ErrorKind::InvalidInput
                && !e.is_device()) && final(buf)@ == old(buf)@,
            r matches Err(e) ==> e.is_device() || cluster.0 < 2,
            cluster.0 >= 2 && (old(buf)@.len() == 0 || offset >= old(self)@.cluster_size) ==> r
                is Ok,
            r matches Ok(count) ==> {
                let volume = old(self)@;
                &&& cluster.0 >= 2
                &&& count == if offset >= volume.cluster_size {
                    0
                } else if old(buf)@.len() <= volume.cluster_size - offset {
                    old(buf)@.len() as int
                } else {
                    volume.cluster_size - offset
                }
                &&& count > 0 ==> volume.cluster_offset(cluster) + offset + count
                    <= volume.image.len()
                &&& forall|j: int|
                    0 <= j < count ==> final(buf)@[j] == volume.image[volume.cluster_offset(cluster)
                        + offset + j]
                &&& forall|j: int| count <= j < old(buf)@.len() ==> final(buf)@[j] == old(buf)@[j]
            },
    {
        let limit = buf.len();
        self.read_cluster_into(cluster, offset, buf, 0, limit)
    }

    /// Reads all of the clusters chained from `start` and appends them to
    /// `buf`. Returns the number of bytes read, which is a whole number of
    /// clusters.
    ///
    /// The chain is followed with a slow and a fast pointer; where the two
    /// meet the chain has a cycle, and the result is an error of kind
    /// `InvalidData`. So success means that the chain ends: walking it from
    /// `start` passes its end after exactly as many steps as clusters were
    /// read. Unless the device fails, the chain is read if it ends and what
    /// it holds fits in memory, and the result is an error of kind
    /// `InvalidData` if not.
    #[verifier::rlimit(40)]
    pub fn read_chain(&mut self, start: Cluster, buf: &mut Vec<u8>) -> (r: io::Result<usize>)
        requires
            old(self).wf(),
        ensures
            final(self).wf(),
            final(self)@ == old(self)@,
            final(self).geometry() == old(self).geometry(),
            start.0 < 2 || !old(self)@.fat_entry_fits(start) ==> (r matches Err(e) && e.kind()
                == io::ErrorKind::InvalidData && !e.is_device()),
            match r {
                Ok(total) => {
                    let volume = old(self)@;
                    let count = (total as int / volume.cluster_size) as nat;
                    &&& total == count * volume.cluster_size
                    &&& count >= 1
                    &&& volume.chain_has_length(start, count)
                    &&& volume.content(start) == Some(volume.chain_data(start, count))
                    &&& final(buf)@ == old(buf)@ + volume.chain_data(start, count)
                },
                Err(e) => e.is_device() || (e.kind() == io::ErrorKind::InvalidData
                    && old(self)@.content(start) is None),
            },
    {
        proof {
            self.lemma_sizes();
        }
        let ghost volume = self@;
        let cluster_size = self.bytes_per_cluster() as usize;
        let mut tortoise = start;
        let mut hare = match self.next_cluster(tortoise) {
            Ok(next) => next,
            Err(e) => {
                proof {
                    lemma_walk_step(volume, start, 0);
                    if !e.is_device() {
                        lemma_broken_chain_has_no_end(volume, start, 1);
                    }
                }
                return Err(e);
            },
        };
        proof {
            lemma_walk_step(volume, start, 0);
        }
        let mut count: u32 = 0;
        let mut total: usize = 0;
        loop
            invariant
                self.wf(),
                self@ == volume,
                self@ == old(self)@,
                self.geometry() == old(self).geometry(),
                cluster_size == volume.cluster_size,
                cluster_size > 0,
                count <= CLUSTER_LIMIT,
                total == count * cluster_size,
                start.0 >= 2 && volume.fat_entry_fits(start),
                tortoise.0 >= 2,
                volume.walk(start, count as nat) == Ok::<Option<Cluster>, io::ErrorKind>(
                    Some(tortoise),
                ),
                volume.walk(start, (2 * count + 1) as nat) == Ok::<Option<Cluster>, io::ErrorKind>(
                    hare,
                ),
                buf@ == old(buf)@ + volume.chain_data(start, count as nat),
            decreases CLUSTER_LIMIT - count,
        {
            match hare {
                Some(h) => {
                    if h.cluster_num() == tortoise.cluster_num() {
                        proof {
                            lemma_cycle_has_no_end(
                                volume,
                                start,
                                count as nat,
                                (2 * count + 1) as nat,
                            );
                        }
                        return Err(
                            io::Error::new(
                                io::ErrorKind::InvalidData,
                                "Cycle detected in cluster chain",
                            ),
                        );
                    }
                },
                None => {},
            }
            if count >= CLUSTER_LIMIT {
                proof {
                    lemma_long_chain_has_no_end(volume, start);
                }
                return Err(
                    io::Error::new(io::ErrorKind::InvalidData, "Cycle detected in cluster chain"),
                );
            }
            let new_total = match total.checked_add(cluster_size) {
                Some(new_total) => new_total,
                None => {
                    proof {
                        if volume.chain_len(start) is Some {
                            let length = choose|n: nat| volume.chain_has_length(start, n);
                            if length <= count {
                                lemma_walk_stays(volume, start, length, (count - length) as nat);
                                assert(length + (count - length) as nat == count);
                            }
                            assert(length * cluster_size >= (count + 1) * cluster_size)
                                by (nonlinear_arith)
                                requires
                                    length >= count + 1,
                                    cluster_size > 0,
                            ;
                            assert((count + 1) * cluster_size == count * cluster_size
                                + cluster_size) by (nonlinear_arith);
                        }
                    }
                    return Err(io::Error::new(io::ErrorKind::InvalidData, "Cluster chain too long"));
                },
            };
            let mut chunk: Vec<u8> = vec![0u8; cluster_size];
            let read = self.read_cluster(tortoise, 0, chunk.as_mut_slice())?;
            proof {
                assert(read == cluster_size);
                assert(chunk@ =~= volume.cluster_data(tortoise));
                assert((count + 1) * cluster_size == count * cluster_size + cluster_size)
                    by (nonlinear_arith);
            }
            let ghost before = buf@;
            buf.extend_from_slice(chunk.as_slice());
            assert(buf@ =~= before + chunk@);
            count += 1;
            total = new_total;
            assert(buf@ == old(buf)@ + volume.chain_data(start, count as nat)) by {
                let before = volume.chain_data(start, (count - 1) as nat);
                assert(old(buf)@ + before + chunk@ =~= old(buf)@ + (before + chunk@));
            }
            proof {
                lemma_walk_step(volume, start, (count - 1) as nat);
                lemma_walk_step(volume, start, (2 * count - 1) as nat);
            }
            match self.next_cluster(tortoise) {
                Ok(Some(next_cluster)) => {
                    tortoise = next_cluster;
                },
                Ok(None) => {
                    proof {
                        assert forall|k: nat| k < count implies #[trigger] volume.on_chain(
                            start,
                            k,
                        ) by {
                            lemma_on_chain_before(volume, start, (count - 1) as nat, k);
                        }
                        lemma_chain_content(volume, start, count as nat);
                        assert(total as int / volume.cluster_size == count) by (nonlinear_arith)
                            requires
                                total == count * volume.cluster_size,
                                volume.cluster_size > 0,
                        ;
                    }
                    return Ok(total);
                },
                Err(e) => {
                    proof {
                        if !e.is_device() {
                            lemma_broken_chain_has_no_end(volume, start, count as nat);
                        }
                    }
                    return Err(e);
                },
            }
            if let Some(cluster) = hare {
                hare = match self.next_cluster(cluster) {
                    Ok(next) => next,
                    Err(e) => {
                        proof {
                            if !e.is_device() {
                                lemma_broken_chain_has_no_end(volume, start, (2 * count) as nat);
                            }
                        }
                        return Err(e);
                    },
                };
            }
            proof {
                assert(volume.walk(start, (2 * count) as nat) == Ok::<
                    Option<Cluster>,
                    io::ErrorKind,
                >(hare));
                lemma_walk_step(volume, start, (2 * count) as nat);
            }
            if let Some(cluster) = hare {
                hare = match self.next_cluster(cluster) {
                    Ok(next) => next,
                    Err(e) => {
                        proof {
                            if !e.is_device() {
                                lemma_broken_chain_has_no_end(
                                    volume,
                                    start,
                                    (2 * count + 1) as nat,
                                );
                            }
                        }
                        return Err(e);
                    },
                };
            }
        }
    }
}

} // verus!
