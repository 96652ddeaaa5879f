//! What a filesystem reports of its capacity at one moment.

use vstd::prelude::*;

verus! {

/// The capacity figures of a filesystem, in bytes, as read at one moment.
#[derive(Clone, Copy, Debug, PartialEq, Eq, Hash, Structural)]
pub struct FsStats {
    /// Bytes that are not in use.
    pub free_space: u64,
    /// Bytes that an unprivileged writer may still use.
    pub available_space: u64,
    /// Size of the whole filesystem.
    pub total_space: u64,
    /// Size of the unit in which the filesystem hands out space.
    pub allocation_granularity: u64,
}

impl FsStats {
    /// The figures that belong to a block size and three block counts: each
    /// figure is the block size times its count.
    pub open spec fn of_blocks(block_size: u64, free: u64, available: u64, total: u64) -> FsStats {
        FsStats {
            free_space: (block_size * free) as u64,
            available_space: (block_size * available) as u64,
            total_space: (block_size * total) as u64,
            allocation_granularity: block_size,
        }
    }

    /// Whether all three figures of `of_blocks` can be told in 64 bits.
    pub open spec fn blocks_fit(block_size: u64, free: u64, available: u64, total: u64) -> bool {
        &&& block_size * free <= u64::MAX
        &&& block_size * available <= u64::MAX
        &&& block_size * total <= u64::MAX
    }

    /// Turns the block size and the block counts of a filesystem into byte
    /// figures. There is a result exactly when every figure fits in 64 bits.
    pub fn from_block_counts(block_size: u64, free: u64, available: u64, total: u64) -> (stats:
        Option<FsStats>)
        ensures
            stats is Some <==> Self::blocks_fit(block_size, free, available, total),
            stats is Some ==> stats->0 == Self::of_blocks(block_size, free, available, total),
    {
        let free_space = match block_size.checked_mul(free) {
            Some(bytes) => bytes,
            None => {
                return None;
            },
        };
        let available_space = match block_size.checked_mul(available) {
            Some(bytes) => bytes,
            None => {
                return None;
            },
        };
        let total_space = match block_size.checked_mul(total) {
            Some(bytes) => bytes,
            None => {
                return None;
            },
        };
        Some(FsStats { free_space, available_space, total_space, allocation_granularity: block_size })
    }
}

} // verus!
