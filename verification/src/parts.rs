//! A filter taken apart into plain values, to be stored or sent and put
//! together again.

use vstd::prelude::*;
use crate::block::words_have_bit;
use crate::model::{BitPos, FilterView};

verus! {

/// The three parts of a filter: its blocks, each written as four 64-bit
/// words, their number, and the seed.
#[derive(Debug)]
pub struct FilterParts {
    /// The blocks.  Word `w` of a block holds lane `2 * w` in its lower half
    /// and lane `2 * w + 1` in its upper half.
    pub blocks: Vec<[u64; 4]>,
    /// The number of blocks.
    pub num_blocks: u32,
    /// The seed of the key hash.
    pub seed: u64,
}

impl FilterParts {
    /// Parts describe a filter when there is at least one block and the
    /// block count is the number of blocks given.
    pub open spec fn valid(&self) -> bool {
        &&& self.num_blocks >= 1
        &&& self.blocks.len() == self.num_blocks
    }
}

impl View for FilterParts {
    type V = FilterView;

    /// The filter that the parts describe.
    open spec fn view(&self) -> FilterView {
        FilterView {
            num_blocks: self.num_blocks as nat,
            seed: self.seed,
            bits: Set::new(
                |p: BitPos|
                    0 <= p.block < self.blocks.len() && words_have_bit(
                        self.blocks[p.block],
                        p.lane,
                        p.bit,
                    ),
            ),
        }
    }
}

} // verus!
