//! Cluster numbers.

use vstd::prelude::*;
use vstd::std_specs::convert::FromSpecImpl;

verus! {

/// A cluster number: the low 28 bits of a 32-bit FAT field.
#[derive(PartialEq, Eq, Debug, Copy, Clone, Hash, Structural)]
pub struct Cluster(pub u32);

/// The number of distinct 28-bit cluster numbers.
pub const CLUSTER_LIMIT: u32 = 0x1000_0000;

impl From<u32> for Cluster {
    /// Keeps the low 28 bits of `raw_num`; the top four are reserved.
    fn from(raw_num: u32) -> (cluster: Cluster) {
        assert(raw_num & 0x0FFF_FFFF == raw_num % 0x1000_0000) by (bit_vector);
        Cluster(raw_num & 0x0FFF_FFFF)
    }
}

impl FromSpecImpl<u32> for Cluster {
    open spec fn obeys_from_spec() -> bool {
        true
    }

    open spec fn from_spec(raw_num: u32) -> Cluster {
        Cluster((raw_num % 0x1000_0000) as u32)
    }
}

impl Cluster {
    /// The cluster number, for specifications.
    pub open spec fn num(&self) -> u32 {
        self.0
    }

    /// The cluster number.
    pub fn cluster_num(&self) -> (num: u32)
        ensures
            num == self.num(),
    {
        self.0
    }

    /// The position of the cluster in the data region, which starts at
    /// cluster 2.
    pub fn cluster_index(&self) -> (index: u32)
        requires
            self.num() >= 2,
        ensures
            index == self.num() - 2,
    {
        self.0 - 2
    }

    /// Whether this cluster can hold data: clusters 0 and 1 cannot.
    pub fn is_valid(&self) -> (valid: bool)
        ensures
            valid == (self.num() >= 2),
    {
        self.0 >= 2
    }
}

} // verus!
