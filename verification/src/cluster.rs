//! The four balancing dimensions of a cluster node.

use vstd::prelude::*;

verus! {

/// The balancing dimensions each node carries, mapped to load / capacity
/// array slots.
#[derive(Clone, Copy, Debug, PartialEq, Eq, Structural)]
pub enum ResourceDim {
    Cpu,
    Mem,
    DiskIo,
    NetIo,
}

impl ResourceDim {
    /// Number of resource dimensions.
    pub const COUNT: usize = 4;

    /// The slot of this dimension: Cpu 0, Mem 1, DiskIo 2, NetIo 3.
    pub open spec fn spec_index(self) -> int {
        match self {
            ResourceDim::Cpu => 0,
            ResourceDim::Mem => 1,
            ResourceDim::DiskIo => 2,
            ResourceDim::NetIo => 3,
        }
    }

    /// The load-vector slot this dimension occupies.
    pub fn index(self) -> (r: usize)
        ensures
            r == self.spec_index(),
            r < 4,
    {
        match self {
            ResourceDim::Cpu => 0,
            ResourceDim::Mem => 1,
            ResourceDim::DiskIo => 2,
            ResourceDim::NetIo => 3,
        }
    }
}

} // verus!
