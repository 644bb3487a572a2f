//! Block addressing: the range reduction that assigns a 32-bit hash to one of
//! the filter's blocks.
//!
//! The reduction multiplies instead of dividing: hash `h` goes to block
//! `h * n / 2^32`.  It keeps the order of the hashes, reaches every block,
//! and gives every block the same number of hashes, up to one.

use vstd::prelude::*;
use vstd::arithmetic::div_mod::lemma_fundamental_div_mod;
use vstd::set_lib::{lemma_int_range, set_int_range};

verus! {

/// The block that a 32-bit hash selects among `num_blocks` blocks: the
/// fixed-point product `hash32 * num_blocks / 2^32`.
pub open spec fn block_index(hash32: u32, num_blocks: nat) -> int {
    (hash32 as int * num_blocks as int) / 0x1_0000_0000
}

/// The least number whose product with `num_blocks` reaches
/// `block * 2^32`.  For a block of the filter it is the first hash that
/// selects the block.
pub open spec fn first_hash(block: int, num_blocks: nat) -> int {
    (block * 0x1_0000_0000 + num_blocks as int - 1) / (num_blocks as int)
}

/// The 32-bit hashes that select `block`, as numbers.
pub open spec fn hashes_of_block(block: int, num_blocks: nat) -> Set<int> {
    Set::new(|h: int| 0 <= h <= u32::MAX && block_index(h as u32, num_blocks) == block)
}

proof fn lemma_floor(x: int, d: int)
    requires
        d > 0,
    ensures
        (x / d) * d <= x < (x / d + 1) * d,
{
    lemma_fundamental_div_mod(x, d);
    assert((x / d + 1) * d == (x / d) * d + d && (x / d) * d == d * (x / d))
        by (nonlinear_arith);
}

proof fn lemma_ceiling(x: int, d: int)
    requires
        d > 0,
    ensures
        ((x + d - 1) / d - 1) * d < x <= ((x + d - 1) / d) * d,
{
    let c = (x + d - 1) / d;
    lemma_fundamental_div_mod(x + d - 1, d);
    assert((c - 1) * d == c * d - d && c * d == d * c) by (nonlinear_arith);
}

proof fn lemma_cancel_less(a: int, b: int, d: int)
    by (nonlinear_arith)
    requires
        d > 0,
        a * d < b * d,
    ensures
        a < b,
{
}

proof fn lemma_scale_less_eq(a: int, b: int, d: int)
    by (nonlinear_arith)
    requires
        d >= 0,
        a <= b,
    ensures
        a * d <= b * d,
{
}

/// The selected block always exists: the index is below the block count.
pub proof fn lemma_block_index_in_range(hash32: u32, num_blocks: nat)
    requires
        num_blocks >= 1,
    ensures
        0 <= block_index(hash32, num_blocks) < num_blocks,
{
    let n: int = num_blocks as int;
    let h: int = hash32 as int;
    assert(0 <= h * n < 0x1_0000_0000 * n) by (nonlinear_arith)
        requires
            0 <= h < 0x1_0000_0000,
            n >= 1,
    ;
}

/// The reduction keeps the order of the hashes: a larger hash never selects
/// an earlier block.
pub proof fn lemma_block_index_monotone(smaller: u32, larger: u32, num_blocks: nat)
    requires
        smaller <= larger,
    ensures
        block_index(smaller, num_blocks) <= block_index(larger, num_blocks),
{
    let n: int = num_blocks as int;
    lemma_scale_less_eq(smaller as int, larger as int, n);
    lemma_floor(smaller as int * n, 0x1_0000_0000);
    lemma_floor(larger as int * n, 0x1_0000_0000);
    let a = block_index(smaller, num_blocks);
    let b = block_index(larger, num_blocks);
    assert(a * 0x1_0000_0000 < (b + 1) * 0x1_0000_0000);
}

/// The hashes that select a block are a run of consecutive numbers: those
/// from `first_hash(block)` up to, and not including, `first_hash(block + 1)`.
pub proof fn lemma_block_run(hash32: u32, block: int, num_blocks: nat)
    requires
        num_blocks >= 1,
    ensures
        block_index(hash32, num_blocks) == block <==> first_hash(block, num_blocks) <= hash32
            < first_hash(block + 1, num_blocks),
{
    let n: int = num_blocks as int;
    let h: int = hash32 as int;
    let r: int = 0x1_0000_0000;
    let q = block_index(hash32, num_blocks);
    let first = first_hash(block, num_blocks);
    let next = first_hash(block + 1, num_blocks);
    lemma_floor(h * n, r);
    lemma_ceiling(block * r, n);
    lemma_ceiling((block + 1) * r, n);
    assert((block + 1) * r == block * r + r) by (nonlinear_arith);
    if q == block {
        lemma_cancel_less(first - 1, h, n);
        lemma_cancel_less(h, next, n);
    }
    if first <= h < next {
        lemma_scale_less_eq(first, h, n);
        lemma_scale_less_eq(h, next - 1, n);
        lemma_cancel_less(block, q + 1, r);
        lemma_cancel_less(q, block + 1, r);
    }
}

/// The runs of the blocks tile the hashes: the first run starts at 0, and
/// the last ends at 2^32.
pub proof fn lemma_block_runs_tile(num_blocks: nat)
    requires
        1 <= num_blocks,
    ensures
        first_hash(0, num_blocks) == 0,
        first_hash(num_blocks as int, num_blocks) == 0x1_0000_0000,
{
    let n: int = num_blocks as int;
    lemma_ceiling(0, n);
    lemma_ceiling(n * 0x1_0000_0000, n);
    let top = first_hash(num_blocks as int, num_blocks);
    lemma_cancel_less(top - 1, 0x1_0000_0000, n);
    assert(n * 0x1_0000_0000 == 0x1_0000_0000 * n) by (nonlinear_arith);
    lemma_cancel_less(0x1_0000_0000 - 1, top, n);
    let bottom = first_hash(0, num_blocks);
    lemma_cancel_less(bottom - 1, 0, n);
    lemma_cancel_less(-1, bottom, n);
}

/// The runs have the same length, up to one: every run holds `2^32 /
/// num_blocks` hashes, rounded down, or one more.
pub proof fn lemma_block_run_length(block: int, num_blocks: nat)
    requires
        num_blocks >= 1,
    ensures
        0x1_0000_0000int / (num_blocks as int) <= first_hash(block + 1, num_blocks) - first_hash(
            block,
            num_blocks,
        ) <= 0x1_0000_0000int / (num_blocks as int) + 1,
{
    let n: int = num_blocks as int;
    let r: int = 0x1_0000_0000;
    let share = r / n;
    let first = first_hash(block, num_blocks);
    let next = first_hash(block + 1, num_blocks);
    lemma_floor(r, n);
    lemma_ceiling(block * r, n);
    lemma_ceiling((block + 1) * r, n);
    assert((block + 1) * r == block * r + r) by (nonlinear_arith);
    assert((first - 1 + share) * n == (first - 1) * n + share * n) by (nonlinear_arith);
    lemma_cancel_less(first - 1 + share, next, n);
    assert((first + share + 1) * n == first * n + (share + 1) * n) by (nonlinear_arith);
    lemma_cancel_less(next - 1, first + share + 1, n);
}

/// Uniform addressing: every block of the filter is selected by `2^32 /
/// num_blocks` of the 32-bit hashes, rounded down, or by one more.  In
/// particular every block is selected by some hash.
pub proof fn lemma_blocks_equally_loaded(block: int, num_blocks: nat)
    requires
        1 <= num_blocks <= 0x1_0000_0000,
        0 <= block < num_blocks,
    ensures
        hashes_of_block(block, num_blocks).finite(),
        0x1_0000_0000int / (num_blocks as int) <= hashes_of_block(block, num_blocks).len()
            <= 0x1_0000_0000int / (num_blocks as int) + 1,
        hashes_of_block(block, num_blocks).len() >= 1,
{
    let n: int = num_blocks as int;
    let first = first_hash(block, num_blocks);
    let next = first_hash(block + 1, num_blocks);
    lemma_block_run_length(block, num_blocks);
    lemma_floor(0x1_0000_0000, n);
    let share: int = 0x1_0000_0000int / n;
    assert(share >= 1) by {
        if share < 1 {
            lemma_scale_less_eq(share + 1, 1, n);
        }
    }
    // The run lies inside the 32-bit hashes.
    lemma_block_runs_tile(num_blocks);
    lemma_first_hash_monotone(0, block, num_blocks);
    lemma_first_hash_monotone(block + 1, n, num_blocks);
    assert forall|h: int| hashes_of_block(block, num_blocks).contains(h) <==> set_int_range(
        first,
        next,
    ).contains(h) by {
        if 0 <= h <= u32::MAX {
            lemma_block_run(h as u32, block, num_blocks);
        }
    }
    assert(hashes_of_block(block, num_blocks) =~= set_int_range(first, next));
    lemma_int_range(first, next);
}

/// Later blocks start at later hashes.
pub proof fn lemma_first_hash_monotone(earlier: int, later: int, num_blocks: nat)
    requires
        num_blocks >= 1,
        earlier <= later,
    ensures
        first_hash(earlier, num_blocks) <= first_hash(later, num_blocks),
{
    let n: int = num_blocks as int;
    let r: int = 0x1_0000_0000;
    lemma_ceiling(earlier * r, n);
    lemma_ceiling(later * r, n);
    lemma_scale_less_eq(earlier, later, r);
    lemma_cancel_less(first_hash(earlier, num_blocks) - 1, first_hash(later, num_blocks), n);
}

} // verus!
