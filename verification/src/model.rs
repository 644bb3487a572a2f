//! The mathematical model of a filter: which bits are on.

use vstd::prelude::*;
use crate::addressing::block_index;
use crate::hashing::xxh64_digest;
use crate::probe::{bit_position, high32, low32};

verus! {

/// The address of one bit of filter state.
pub struct BitPos {
    /// The block, counted from 0.
    pub block: int,
    /// The 32-bit lane inside the block, 0 to 7.
    pub lane: int,
    /// The bit inside the lane, 0 to 31, 0 being the least significant.
    pub bit: int,
}

impl BitPos {
    /// Whether the address exists in a filter of `num_blocks` blocks.
    pub open spec fn within(self, num_blocks: nat) -> bool {
        &&& 0 <= self.block < num_blocks
        &&& 0 <= self.lane < 8
        &&& 0 <= self.bit < 32
    }
}

/// The eight bits that hash `h` selects in a filter of `num_blocks` blocks:
/// one bit in each lane of one block.  The upper half of the hash picks the
/// block, the lower half picks the bit of every lane.
pub open spec fn probes(h: u64, num_blocks: nat) -> Set<BitPos> {
    Set::new(
        |p: BitPos|
            {
                &&& p.block == block_index(high32(h), num_blocks)
                &&& 0 <= p.lane < 8
                &&& p.bit == bit_position(low32(h), p.lane)
            },
    )
}

/// The bit that hash `h` selects in lane `lane`.
pub open spec fn probe_at(h: u64, num_blocks: nat, lane: int) -> BitPos {
    BitPos {
        block: block_index(high32(h), num_blocks),
        lane,
        bit: bit_position(low32(h), lane),
    }
}

/// What a filter is, as far as its behaviour goes.
pub struct FilterView {
    /// Number of blocks.
    pub num_blocks: nat,
    /// Seed of the key hash.
    pub seed: u64,
    /// The bits that are on.
    pub bits: Set<BitPos>,
}

impl FilterView {
    /// The filter of `num_blocks` blocks with every bit off.
    pub open spec fn empty(num_blocks: nat, seed: u64) -> FilterView {
        FilterView { num_blocks, seed, bits: Set::empty() }
    }

    /// A filter has at least one block, its block count fits 32 bits, and
    /// only bits that exist are on.
    pub open spec fn wf(self) -> bool {
        &&& 1 <= self.num_blocks <= u32::MAX
        &&& forall|p: BitPos| self.bits.contains(p) ==> #[trigger] p.within(self.num_blocks)
    }

    /// The bits that hash `h` selects in this filter.
    pub open spec fn probes(self, h: u64) -> Set<BitPos> {
        probes(h, self.num_blocks)
    }

    /// The hash of a key: the XXH64 digest of its bytes under the filter's
    /// seed.
    pub open spec fn key_hash(self, key: Seq<u8>) -> u64 {
        xxh64_digest(self.seed, key)
    }

    /// The answer to a query for `h`: every bit that `h` selects is on.
    pub open spec fn may_match(self, h: u64) -> bool {
        self.probes(h).subset_of(self.bits)
    }

    /// The filter after `h` was inserted: the bits that `h` selects are on,
    /// and so is every bit that was on before.
    pub open spec fn insert(self, h: u64) -> FilterView {
        FilterView { bits: self.bits.union(self.probes(h)), ..self }
    }

    /// The filter after `h` was inserted `times` times in a row.
    pub open spec fn insert_repeated(self, h: u64, times: nat) -> FilterView
        decreases times,
    {
        if times == 0 {
            self
        } else {
            self.insert_repeated(h, (times - 1) as nat).insert(h)
        }
    }

    /// The hashes that the filter reports as possibly present, as numbers
    /// from 0 to 2^64 - 1.
    pub open spec fn accepted(self) -> Set<int> {
        Set::new(|h: int| 0 <= h <= u64::MAX && self.may_match(h as u64))
    }

    /// Whether every bit of block `block` is on.
    pub open spec fn saturated(self, block: int) -> bool {
        forall|p: BitPos| p.within(self.num_blocks) && p.block == block ==> self.bits.contains(p)
    }
}

} // verus!
