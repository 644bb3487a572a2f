//! What holds of every filter, whatever was inserted into it.

use vstd::prelude::*;
use vstd::set_lib::{lemma_int_range, lemma_len_subset, set_int_range};
use crate::addressing::{block_index, lemma_block_index_in_range};
use crate::block::{lemma_word_from_bits, word_bit_is_set, words_have_bit};
use crate::model::{probe_at, probes, BitPos, FilterView};
use crate::parts::FilterParts;
use crate::probe::{high32, lemma_bit_position_in_range, low32};

verus! {

/// No false negatives: once a hash is inserted, a query for it answers
/// "possibly present", whatever the filter held before.
pub proof fn lemma_no_false_negatives(filter: FilterView, h: u64)
    ensures
        filter.insert(h).may_match(h),
{
}

/// Bits are never switched off: a hash that was reported as possibly present
/// before an insertion is still reported so after it, and every later
/// insertion keeps the earlier ones.
pub proof fn lemma_insert_keeps_matches(filter: FilterView, inserted: u64, queried: u64)
    requires
        filter.may_match(queried),
    ensures
        filter.insert(inserted).may_match(queried),
{
}

/// Monotonic saturation: the number of hashes reported as possibly present
/// never decreases with an insertion.
pub proof fn lemma_accepted_grows(filter: FilterView, inserted: u64)
    ensures
        filter.accepted().finite(),
        filter.insert(inserted).accepted().finite(),
        filter.accepted().subset_of(filter.insert(inserted).accepted()),
        filter.accepted().len() <= filter.insert(inserted).accepted().len(),
{
    let all = set_int_range(0, u64::MAX as int + 1);
    lemma_int_range(0, u64::MAX as int + 1);
    let before = filter.accepted();
    let after = filter.insert(inserted).accepted();
    assert forall|h: int| before.contains(h) implies after.contains(h) by {
        lemma_insert_keeps_matches(filter, inserted, h as u64);
    }
    lemma_len_subset(after, all);
    lemma_len_subset(before, after);
}

/// Idempotence: inserting a hash a second time changes nothing.
pub proof fn lemma_insert_idempotent(filter: FilterView, h: u64)
    ensures
        filter.insert(h).insert(h) == filter.insert(h),
{
    assert(filter.insert(h).insert(h).bits =~= filter.insert(h).bits);
}

/// Idempotence: inserting a hash any number of times, at least once, leaves
/// the filter as a single insertion does.
pub proof fn lemma_insert_repeated(filter: FilterView, h: u64, times: nat)
    requires
        times >= 1,
    ensures
        filter.insert_repeated(h, times) == filter.insert(h),
    decreases times,
{
    if times == 1 {
        assert(filter.insert_repeated(h, 0) == filter);
    } else {
        lemma_insert_repeated(filter, h, (times - 1) as nat);
        lemma_insert_idempotent(filter, h);
    }
}

/// The order of two insertions does not matter.
pub proof fn lemma_insert_commutes(filter: FilterView, first: u64, second: u64)
    ensures
        filter.insert(first).insert(second) == filter.insert(second).insert(first),
{
    assert(filter.insert(first).insert(second).bits =~= filter.insert(second).insert(
        first,
    ).bits);
}

/// The bits that a hash selects exist: they lie in one block of the filter,
/// one in each of its eight lanes.
pub proof fn lemma_probes_within(h: u64, num_blocks: nat)
    requires
        num_blocks >= 1,
    ensures
        forall|p: BitPos| probes(h, num_blocks).contains(p) ==> #[trigger] p.within(num_blocks),
        forall|lane: int|
            0 <= lane < 8 ==> probes(h, num_blocks).contains(
                #[trigger] probe_at(h, num_blocks, lane),
            ),
{
    lemma_block_index_in_range(high32(h), num_blocks);
    assert forall|p: BitPos| probes(h, num_blocks).contains(p) implies #[trigger] p.within(
        num_blocks,
    ) by {
        lemma_bit_position_in_range(low32(h), p.lane);
    }
}

/// Insertion keeps a filter well-formed.
pub proof fn lemma_insert_preserves_wf(filter: FilterView, h: u64)
    requires
        filter.wf(),
    ensures
        filter.insert(h).wf(),
{
    lemma_probes_within(h, filter.num_blocks);
}

/// An empty filter reports every hash as definitely absent.
pub proof fn lemma_empty_matches_nothing(num_blocks: nat, seed: u64, h: u64)
    ensures
        !FilterView::empty(num_blocks, seed).may_match(h),
{
    let p = probe_at(h, num_blocks, 0);
    assert(probes(h, num_blocks).contains(p));
}

/// Saturation: once every bit of a block is on, every hash that selects the
/// block is reported as possibly present.
pub proof fn lemma_saturated_block_matches(filter: FilterView, h: u64)
    requires
        filter.wf(),
        filter.saturated(block_index(high32(h), filter.num_blocks)),
    ensures
        filter.may_match(h),
{
    lemma_probes_within(h, filter.num_blocks);
}

/// Round trip: a filter put together from the parts of another is that
/// filter again, and so answers every query as the other does.
pub proof fn lemma_round_trip(filter: FilterView, parts: FilterParts, restored: FilterView, h: u64)
    requires
        parts@ == filter,
        restored == parts@,
    ensures
        restored == filter,
        restored.may_match(h) == filter.may_match(h),
{
}

/// Parts that describe a filter describe a well-formed one.
pub proof fn lemma_parts_view_wf(parts: FilterParts)
    requires
        parts.valid(),
    ensures
        parts@.wf(),
{
}

/// The parts of a filter are determined by the filter: two valid sets of
/// parts that describe the same filter are the same, word for word.
pub proof fn lemma_parts_determined(a: FilterParts, b: FilterParts)
    requires
        a.valid(),
        b.valid(),
        a@ == b@,
    ensures
        a.num_blocks == b.num_blocks,
        a.seed == b.seed,
        a.blocks@ == b.blocks@,
{
    assert forall|i: int| 0 <= i < a.blocks.len() implies a.blocks[i] == b.blocks[i] by {
        assert forall|w: int| 0 <= w < 4 implies a.blocks[i][w] == b.blocks[i][w] by {
            assert forall|bit: int| 0 <= bit < 64 implies word_bit_is_set(a.blocks[i][w], bit)
                == word_bit_is_set(b.blocks[i][w], bit) by {
                let p = BitPos { block: i, lane: 2 * w + bit / 32, bit: bit % 32 };
                assert(a@.bits.contains(p) == words_have_bit(a.blocks[i], p.lane, p.bit));
                assert(b@.bits.contains(p) == words_have_bit(b.blocks[i], p.lane, p.bit));
            }
            lemma_word_from_bits(a.blocks[i][w], b.blocks[i][w]);
        }
    }
}

} // verus!
