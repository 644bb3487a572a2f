//! The filter itself.

use vstd::prelude::*;
use crate::addressing::{block_index, lemma_block_index_in_range};
use crate::block::{words_have_bit, Block};
use crate::hashing::digest_bytes;
use crate::model::{BitPos, FilterView};
use crate::parts::FilterParts;
use crate::probe::{bit_position, split_hash};
use crate::sizing::{block_count, required_blocks};

verus! {

/// A cache-line blocked Bloom filter.
///
/// The filter owns its blocks; a clone is a full copy.
#[derive(Debug)]
pub struct BlockedBloomFilter {
    blocks: Vec<Block>,
    num_blocks: u32,
    seed: u64,
}

impl View for BlockedBloomFilter {
    type V = FilterView;

    closed spec fn view(&self) -> FilterView {
        FilterView {
            num_blocks: self.num_blocks as nat,
            seed: self.seed,
            bits: Set::new(
                |p: BitPos|
                    0 <= p.block < self.blocks.len() && self.blocks[p.block].has_bit(
                        p.lane,
                        p.bit,
                    ),
            ),
        }
    }
}

impl BlockedBloomFilter {
    #[verifier::type_invariant]
    spec fn consistent(self) -> bool {
        &&& self.num_blocks >= 1
        &&& self.blocks.len() == self.num_blocks
    }

    proof fn lemma_view_wf(self)
        requires
            self.consistent(),
        ensures
            self@.wf(),
    {
        assert forall|p: BitPos| self@.bits.contains(p) implies #[trigger] p.within(
            self@.num_blocks,
        ) by {
            self.blocks[p.block].lemma_has_bit_in_range(p.lane, p.bit);
        }
    }

    /// Creates an empty filter sized for `entries` keys at `bits_per_key`
    /// bits of state each, whose key hash is seeded with 0.
    pub fn new(entries: usize, bits_per_key: usize) -> (filter: Self)
        ensures
            filter@ == FilterView::empty(block_count(entries, bits_per_key) as nat, 0),
            filter@.wf(),
    {
        Self::new_with_seed(entries, bits_per_key, 0)
    }

    /// Creates an empty filter sized for `entries` keys at `bits_per_key`
    /// bits of state each, whose key hash is seeded with `seed`.
    pub fn new_with_seed(entries: usize, bits_per_key: usize, seed: u64) -> (filter: Self)
        ensures
            filter@ == FilterView::empty(block_count(entries, bits_per_key) as nat, seed),
            filter@.wf(),
    {
        let num_blocks: u32 = required_blocks(entries, bits_per_key);
        let blocks: Vec<Block> = vec![Block::zeroed(); num_blocks as usize];
        let filter = BlockedBloomFilter { blocks, num_blocks, seed };
        assert(filter@.bits =~= Set::<BitPos>::empty());
        filter
    }

    /// The number of blocks; at least one.
    pub fn num_blocks(&self) -> (n: u32)
        ensures
            n == self@.num_blocks,
            n >= 1,
            self@.wf(),
    {
        proof {
            use_type_invariant(self);
            self.lemma_view_wf();
        }
        self.num_blocks
    }

    /// The seed of the key hash.
    pub fn seed(&self) -> (seed: u64)
        ensures
            seed == self@.seed,
            self@.wf(),
    {
        proof {
            use_type_invariant(self);
            self.lemma_view_wf();
        }
        self.seed
    }

    /// Maps a 32-bit hash to a block by fixed-point multiplication: the
    /// result is `hash * num_blocks / 2^32`, which is below the block count.
    #[inline]
    pub fn fast_map(&self, hash: u32) -> (index: usize)
        ensures
            index == block_index(hash, self@.num_blocks),
            index < self@.num_blocks,
            self@.wf(),
    {
        proof {
            use_type_invariant(self);
            self.lemma_view_wf();
            lemma_block_index_in_range(hash, self.num_blocks as nat);
        }
        let wide: u64 = hash as u64;
        let count: u64 = self.num_blocks as u64;
        assert(wide * count < 0x1_0000_0000 * count) by (nonlinear_arith)
            requires
                0 <= wide < 0x1_0000_0000,
                count >= 1,
        ;
        let product: u64 = wide * count;
        assert(product >> 32 == product / 0x1_0000_0000) by (bit_vector);
        (product >> 32) as usize
    }

    /// Inserts a 64-bit hash: switches on the eight bits that it selects.
    /// Every bit that was on stays on, and a query for `h` now succeeds.
    #[inline]
    pub fn insert_hash(&mut self, h: u64)
        ensures
            final(self)@ == old(self)@.insert(h),
            old(self)@.bits.subset_of(final(self)@.bits),
            final(self)@.may_match(h),
            final(self)@.wf(),
    {
        proof {
            use_type_invariant(&*self);
        }
        let (high, low) = split_hash(h);
        let index: usize = self.fast_map(high);
        let mut block: Block = self.blocks[index];
        block.set_probes(low);
        self.blocks[index] = block;
        proof {
            assert(self@.bits =~= old(self)@.insert(h).bits);
            self.lemma_view_wf();
        }
    }

    /// Tells whether a 64-bit hash may have been inserted: whether the eight
    /// bits that it selects are all on.  `false` means that it never was.
    #[inline]
    pub fn may_match_hash(&self, h: u64) -> (found: bool)
        ensures
            found == self@.may_match(h),
            self@.wf(),
    {
        proof {
            use_type_invariant(self);
            self.lemma_view_wf();
        }
        let (high, low) = split_hash(h);
        let index: usize = self.fast_map(high);
        let found: bool = self.blocks[index].has_probes(low);
        proof {
            let block = self.blocks[index as int];
            if found {
                assert forall|p: BitPos| self@.probes(h).contains(p) implies self@.bits.contains(
                    p,
                ) by {
                    assert(block.has_bit(p.lane, p.bit));
                }
            } else {
                let lane = choose|lane: int|
                    0 <= lane < 8 && !#[trigger] block.has_bit(lane, bit_position(low, lane));
                let p = BitPos { block: index as int, lane, bit: bit_position(low, lane) };
                assert(self@.probes(h).contains(p));
            }
        }
        found
    }

    /// Takes the filter apart: its blocks as 64-bit words, their number and
    /// the seed.  The parts describe this filter and no other.
    pub fn to_parts(&self) -> (parts: FilterParts)
        ensures
            parts.valid(),
            parts@ == self@,
            self@.wf(),
    {
        proof {
            use_type_invariant(self);
            self.lemma_view_wf();
        }
        let mut blocks: Vec<[u64; 4]> = Vec::new();
        let mut i: usize = 0;
        while i < self.blocks.len()
            invariant
                0 <= i <= self.blocks.len(),
                blocks.len() == i,
                forall|block: int, lane: int, bit: int|
                    0 <= block < i ==> #[trigger] words_have_bit(blocks[block], lane, bit)
                        == self.blocks[block].has_bit(lane, bit),
            decreases self.blocks.len() - i,
        {
            let words: [u64; 4] = self.blocks[i].to_words();
            blocks.push(words);
            i = i + 1;
        }
        let parts = FilterParts { blocks, num_blocks: self.num_blocks, seed: self.seed };
        assert(parts@.bits =~= self@.bits);
        parts
    }

    /// Puts a filter together from its parts.  Fails exactly when the parts
    /// describe no filter: when there is no block, or when the block count is
    /// not the number of blocks given.
    pub fn from_parts(parts: &FilterParts) -> (filter: Option<Self>)
        ensures
            filter is Some <==> parts.valid(),
            filter matches Some(f) ==> f@ == parts@ && f@.wf(),
    {
        if parts.num_blocks == 0 || parts.blocks.len() != parts.num_blocks as usize {
            return None;
        }
        let mut blocks: Vec<Block> = Vec::new();
        let mut i: usize = 0;
        while i < parts.blocks.len()
            invariant
                0 <= i <= parts.blocks.len(),
                blocks.len() == i,
                forall|block: int, lane: int, bit: int|
                    0 <= block < i ==> #[trigger] blocks[block].has_bit(lane, bit)
                        == words_have_bit(parts.blocks[block], lane, bit),
            decreases parts.blocks.len() - i,
        {
            let block: Block = Block::from_words(&parts.blocks[i]);
            blocks.push(block);
            i = i + 1;
        }
        let filter = BlockedBloomFilter { blocks, num_blocks: parts.num_blocks, seed: parts.seed };
        proof {
            assert(filter@.bits =~= parts@.bits);
            filter.lemma_view_wf();
        }
        Some(filter)
    }

    /// Inserts a key: hashes its bytes under the filter's seed and inserts
    /// the hash.
    #[inline]
    pub fn insert_key(&mut self, key: &[u8])
        ensures
            final(self)@ == old(self)@.insert(old(self)@.key_hash(key@)),
            final(self)@.may_match(old(self)@.key_hash(key@)),
            final(self)@.wf(),
    {
        let h: u64 = digest_bytes(self.seed, key);
        self.insert_hash(h);
    }

    /// Tells whether a key may have been inserted: hashes its bytes under the
    /// filter's seed and queries the hash.
    #[inline]
    pub fn may_match_key(&self, key: &[u8]) -> (found: bool)
        ensures
            found == self@.may_match(self@.key_hash(key@)),
            self@.wf(),
    {
        let h: u64 = digest_bytes(self.seed, key);
        self.may_match_hash(h)
    }
}

impl Clone for BlockedBloomFilter {
    /// Copies the filter, blocks and all.
    fn clone(&self) -> (copy: Self)
        ensures
            copy@ == self@,
            self@.wf(),
    {
        proof {
            use_type_invariant(self);
            self.lemma_view_wf();
        }
        let blocks: Vec<Block> = self.blocks.clone();
        let copy = BlockedBloomFilter { blocks, num_blocks: self.num_blocks, seed: self.seed };
        copy
    }
}

} // verus!
