//! Filter geometry: how many blocks a filter gets.

use vstd::prelude::*;
use vstd::arithmetic::div_mod::{lemma_add_mod_noop, lemma_small_mod};

verus! {

/// Bits of state in one block.
pub const BLOCK_BITS: usize = 256;

/// Bits of state budgeted per expected key when the caller has no usable
/// false-positive target.
pub const DEFAULT_BITS_PER_KEY: usize = 10;

/// The number of blocks of a filter sized for `entries` keys at
/// `bits_per_key` bits each: the bit budget divided by the block size,
/// rounded up, and never less than one.
///
/// The bit budget is computed in machine words and the quotient is stored in
/// 32 bits, so the budget is taken modulo the word size and the quotient
/// modulo 2^32; see [`lemma_block_count_is_ceiling`] for the budgets that
/// neither reduction touches.
pub open spec fn block_count(entries: usize, bits_per_key: usize) -> u32 {
    let budget = (entries as int * bits_per_key as int + 255) % (usize::MAX as int + 1);
    let blocks = (budget / 256) % 0x1_0000_0000;
    if blocks == 0 {
        1u32
    } else {
        blocks as u32
    }
}

/// Whenever the bit budget, rounded up to whole blocks, fits a machine word
/// and the number of those blocks fits 32 bits, the block count is the least
/// number of blocks that holds the budget, but at least one.
pub proof fn lemma_block_count_is_ceiling(entries: usize, bits_per_key: usize)
    requires
        entries as int * bits_per_key as int + 255 <= usize::MAX,
        (entries as int * bits_per_key as int + 255) / 256 <= u32::MAX,
    ensures
        block_count(entries, bits_per_key) as int == if entries as int * bits_per_key as int == 0 {
            1
        } else {
            (entries as int * bits_per_key as int + 255) / 256
        },
        block_count(entries, bits_per_key) as int * 256 >= entries as int * bits_per_key as int,
        block_count(entries, bits_per_key) > 1 ==> (block_count(entries, bits_per_key) as int - 1)
            * 256 < entries as int * bits_per_key as int,
{
    let total: int = entries as int * bits_per_key as int;
    assert(total >= 0) by (nonlinear_arith)
        requires
            total == entries as int * bits_per_key as int,
    ;
    lemma_small_mod((total + 255) as nat, (usize::MAX as int + 1) as nat);
    lemma_small_mod(((total + 255) / 256) as nat, 0x1_0000_0000nat);
}

/// A filter sized for no keys still has one block.
pub proof fn lemma_block_count_of_nothing(bits_per_key: usize)
    ensures
        block_count(0, bits_per_key) == 1,
{
    lemma_small_mod(255nat, (usize::MAX as int + 1) as nat);
}

/// Computes [`block_count`].
pub fn required_blocks(entries: usize, bits_per_key: usize) -> (blocks: u32)
    ensures
        blocks == block_count(entries, bits_per_key),
        blocks >= 1,
{
    let product: usize = entries.wrapping_mul(bits_per_key);
    let budget: usize = product.wrapping_add(255);
    let quotient: usize = budget / BLOCK_BITS;
    let blocks: u32 = quotient as u32;
    proof {
        let word: int = usize::MAX as int + 1;
        let total: int = entries as int * bits_per_key as int;
        assert(total >= 0) by (nonlinear_arith)
            requires
                total == entries as int * bits_per_key as int,
        ;
        lemma_add_mod_noop(total, 255, word);
        lemma_small_mod(255nat, word as nat);
        if product + 255 <= usize::MAX {
            lemma_small_mod((product + 255) as nat, word as nat);
        }
        assert(budget as int == (total + 255) % word);
        assert(quotient as u32 == (quotient as u64) % 0x1_0000_0000u64) by (bit_vector);
    }
    if blocks == 0 {
        1
    } else {
        blocks
    }
}

} // verus!
