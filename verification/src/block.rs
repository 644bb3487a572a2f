//! One block of filter state: 256 bits, held as eight 32-bit lanes.
//!
//! The same 256 bits can be read as four 64-bit words; word `w` holds lane
//! `2 * w` in its lower half and lane `2 * w + 1` in its upper half.

use vstd::prelude::*;
use crate::probe::{bit_position, probe_bit, SALT};

verus! {

/// Whether bit number `bit` (0 is the least significant) of `word` is on.
pub open spec fn bit_is_set(word: u32, bit: int) -> bool {
    0 <= bit < 32 && (word >> (bit as u32)) & 1u32 == 1u32
}

/// Whether bit number `bit` (0 is the least significant) of the 64-bit
/// `word` is on.
pub open spec fn word_bit_is_set(word: u64, bit: int) -> bool {
    0 <= bit < 64 && (word >> (bit as u64)) & 1u64 == 1u64
}

/// Whether bit `bit` of lane `lane` is on in a block written as four 64-bit
/// words: word `w` holds lane `2 * w` in its lower half and lane `2 * w + 1`
/// in its upper half.
pub open spec fn words_have_bit(words: [u64; 4], lane: int, bit: int) -> bool {
    &&& 0 <= lane < 8
    &&& 0 <= bit < 32
    &&& word_bit_is_set(words[lane / 2], 32 * (lane % 2) + bit)
}

/// Switching on bit `pos` of a word switches on that bit and changes no
/// other.
proof fn lemma_bit_switched_on(word: u32, pos: u32, bit: u32)
    by (bit_vector)
    requires
        pos < 32,
        bit < 32,
    ensures
        ((word | (1u32 << pos)) >> bit) & 1u32 == 1u32 <==> (word >> bit) & 1u32 == 1u32 || bit
            == pos,
{
}

/// Masking the complement of a word with a single bit gives zero exactly
/// when the word has that bit.
proof fn lemma_bit_lacking(word: u32, pos: u32)
    by (bit_vector)
    requires
        pos < 32,
    ensures
        (1u32 << pos) & !word == 0 <==> (word >> pos) & 1u32 == 1u32,
{
}

/// A word joined from two lanes has the bits of the lower lane in its lower
/// half and the bits of the upper lane in its upper half.
proof fn lemma_joined_bits(lower: u32, upper: u32, bit: u32)
    by (bit_vector)
    requires
        bit < 32,
    ensures
        ((((lower as u64) | ((upper as u64) << 32)) >> (bit as u64)) & 1u64 == 1u64) == ((lower
            >> bit) & 1u32 == 1u32),
        ((((lower as u64) | ((upper as u64) << 32)) >> ((32 + bit) as u64)) & 1u64 == 1u64) == ((
        upper >> bit) & 1u32 == 1u32),
{
}

/// The two halves of a word, taken as lanes, have the bits of the word.
proof fn lemma_halved_bits(word: u64, bit: u32)
    by (bit_vector)
    requires
        bit < 32,
    ensures
        ((word >> (bit as u64)) & 1u64 == 1u64) == (((word as u32) >> bit) & 1u32 == 1u32),
        ((word >> ((32 + bit) as u64)) & 1u64 == 1u64) == ((((word >> 32) as u32) >> bit) & 1u32
            == 1u32),
{
}

proof fn lemma_byte_from_bits(x: u64, y: u64, shift: u64)
    by (bit_vector)
    requires
        shift <= 56,
        ((x >> shift) & 1 == 1) == ((y >> shift) & 1 == 1),
        ((x >> (shift + 1)) & 1 == 1) == ((y >> (shift + 1)) & 1 == 1),
        ((x >> (shift + 2)) & 1 == 1) == ((y >> (shift + 2)) & 1 == 1),
        ((x >> (shift + 3)) & 1 == 1) == ((y >> (shift + 3)) & 1 == 1),
        ((x >> (shift + 4)) & 1 == 1) == ((y >> (shift + 4)) & 1 == 1),
        ((x >> (shift + 5)) & 1 == 1) == ((y >> (shift + 5)) & 1 == 1),
        ((x >> (shift + 6)) & 1 == 1) == ((y >> (shift + 6)) & 1 == 1),
        ((x >> (shift + 7)) & 1 == 1) == ((y >> (shift + 7)) & 1 == 1),
    ensures
        (x >> shift) & 0xff == (y >> shift) & 0xff,
{
}

proof fn lemma_word_from_bytes(x: u64, y: u64)
    by (bit_vector)
    requires
        x & 0xff == y & 0xff,
        (x >> 8) & 0xff == (y >> 8) & 0xff,
        (x >> 16) & 0xff == (y >> 16) & 0xff,
        (x >> 24) & 0xff == (y >> 24) & 0xff,
        (x >> 32) & 0xff == (y >> 32) & 0xff,
        (x >> 40) & 0xff == (y >> 40) & 0xff,
        (x >> 48) & 0xff == (y >> 48) & 0xff,
        (x >> 56) & 0xff == (y >> 56) & 0xff,
    ensures
        x == y,
{
}

/// Two words that agree in every bit are the same word.
pub proof fn lemma_word_from_bits(x: u64, y: u64)
    requires
        forall|bit: int| 0 <= bit < 64 ==> word_bit_is_set(x, bit) == word_bit_is_set(y, bit),
    ensures
        x == y,
{
    assert forall|shift: u64| shift <= 56 implies (#[trigger] (x >> shift)) & 0xff == (y
        >> shift) & 0xff by {
        assert(word_bit_is_set(x, shift as int) == word_bit_is_set(y, shift as int));
        assert(word_bit_is_set(x, shift + 1) == word_bit_is_set(y, shift + 1));
        assert(word_bit_is_set(x, shift + 2) == word_bit_is_set(y, shift + 2));
        assert(word_bit_is_set(x, shift + 3) == word_bit_is_set(y, shift + 3));
        assert(word_bit_is_set(x, shift + 4) == word_bit_is_set(y, shift + 4));
        assert(word_bit_is_set(x, shift + 5) == word_bit_is_set(y, shift + 5));
        assert(word_bit_is_set(x, shift + 6) == word_bit_is_set(y, shift + 6));
        assert(word_bit_is_set(x, shift + 7) == word_bit_is_set(y, shift + 7));
        lemma_byte_from_bits(x, y, shift);
    }
    assert(x >> 0u64 == x && y >> 0u64 == y) by (bit_vector);
    assert((x >> 0u64) & 0xff == (y >> 0u64) & 0xff);
    assert((x >> 8u64) & 0xff == (y >> 8u64) & 0xff);
    assert((x >> 16u64) & 0xff == (y >> 16u64) & 0xff);
    assert((x >> 24u64) & 0xff == (y >> 24u64) & 0xff);
    assert((x >> 32u64) & 0xff == (y >> 32u64) & 0xff);
    assert((x >> 40u64) & 0xff == (y >> 40u64) & 0xff);
    assert((x >> 48u64) & 0xff == (y >> 48u64) & 0xff);
    assert((x >> 56u64) & 0xff == (y >> 56u64) & 0xff);
    lemma_word_from_bytes(x, y);
}

/// A block of 256 bits.
#[derive(Clone, Copy, Debug)]
pub struct Block {
    lanes: [u32; 8],
}

impl Block {
    /// Whether bit `bit` of lane `lane` is on.  False outside the block.
    pub closed spec fn has_bit(&self, lane: int, bit: int) -> bool {
        0 <= lane < 8 && bit_is_set(self.lanes[lane], bit)
    }

    /// Whether the block holds every bit that `low` selects.
    pub open spec fn covers(&self, low: u32) -> bool {
        forall|lane: int| 0 <= lane < 8 ==> #[trigger] self.has_bit(lane, bit_position(low, lane))
    }

    /// Only bits that exist are on: lanes run from 0 to 7, bits from 0 to 31.
    pub proof fn lemma_has_bit_in_range(&self, lane: int, bit: int)
        requires
            self.has_bit(lane, bit),
        ensures
            0 <= lane < 8,
            0 <= bit < 32,
    {
    }

    /// A block with every bit off.
    pub fn zeroed() -> (block: Block)
        ensures
            forall|lane: int, bit: int| !#[trigger] block.has_bit(lane, bit),
    {
        let block = Block { lanes: [0u32; 8] };
        assert forall|lane: int, bit: int| !#[trigger] block.has_bit(lane, bit) by {
            if 0 <= lane < 8 && 0 <= bit < 32 {
                let b: u32 = bit as u32;
                assert((0u32 >> b) & 1u32 == 0u32) by (bit_vector);
            }
        }
        block
    }

    /// Switches on, in every lane, the bit that `low` selects there.  No
    /// other bit changes.
    pub fn set_probes(&mut self, low: u32)
        ensures
            forall|lane: int, bit: int|
                #[trigger] final(self).has_bit(lane, bit) == (old(self).has_bit(lane, bit) || (0
                    <= lane < 8 && bit == bit_position(low, lane))),
    {
        let mut i: usize = 0;
        while i < 8
            invariant
                0 <= i <= 8,
                forall|lane: int, bit: int|
                    #[trigger] self.has_bit(lane, bit) == (old(self).has_bit(lane, bit) || (0
                        <= lane < i && bit == bit_position(low, lane))),
            decreases 8 - i,
        {
            let ghost before = *self;
            let pos: u32 = probe_bit(low, SALT[i]);
            let word: u32 = self.lanes[i];
            self.lanes[i] = word | (1u32 << pos);
            proof {
                assert forall|lane: int, bit: int|
                    #[trigger] self.has_bit(lane, bit) == (old(self).has_bit(lane, bit) || (0
                        <= lane < i + 1 && bit == bit_position(low, lane))) by {
                    assert(before.has_bit(lane, bit) == (old(self).has_bit(lane, bit) || (0
                        <= lane < i && bit == bit_position(low, lane))));
                    if lane == i && 0 <= bit < 32 {
                        lemma_bit_switched_on(word, pos, bit as u32);
                    }
                }
            }
            i = i + 1;
        }
    }

    /// Tests, in one pass over the lanes and without branching on a lane,
    /// whether every bit that `low` selects is on.
    pub fn has_probes(&self, low: u32) -> (all: bool)
        ensures
            all == self.covers(low),
    {
        let mut missing: u32 = 0;
        let mut i: usize = 0;
        while i < 8
            invariant
                0 <= i <= 8,
                missing == 0 <==> forall|lane: int|
                    0 <= lane < i ==> #[trigger] self.has_bit(lane, bit_position(low, lane)),
            decreases 8 - i,
        {
            let pos: u32 = probe_bit(low, SALT[i]);
            let word: u32 = self.lanes[i];
            let lacking: u32 = (1u32 << pos) & !word;
            proof {
                lemma_bit_lacking(word, pos);
                assert((missing | lacking) == 0 <==> missing == 0 && lacking == 0)
                    by (bit_vector);
                assert(self.has_bit(i as int, bit_position(low, i as int)) == (lacking == 0));
            }
            missing = missing | lacking;
            i = i + 1;
        }
        missing == 0
    }

    /// Reads the block as four 64-bit words.
    pub fn to_words(&self) -> (words: [u64; 4])
        ensures
            forall|lane: int, bit: int|
                #[trigger] words_have_bit(words, lane, bit) == self.has_bit(lane, bit),
    {
        let mut words: [u64; 4] = [0u64; 4];
        let mut w: usize = 0;
        while w < 4
            invariant
                0 <= w <= 4,
                forall|lane: int, bit: int|
                    0 <= lane < 2 * w ==> #[trigger] words_have_bit(words, lane, bit)
                        == self.has_bit(lane, bit),
            decreases 4 - w,
        {
            let lower: u32 = self.lanes[2 * w];
            let upper: u32 = self.lanes[2 * w + 1];
            let ghost before = words;
            words[w] = (lower as u64) | ((upper as u64) << 32);
            proof {
                assert forall|lane: int, bit: int| 0 <= lane < 2 * (w + 1) implies #[trigger]
                    words_have_bit(words, lane, bit) == self.has_bit(lane, bit) by {
                    if lane < 2 * w {
                        assert(words_have_bit(before, lane, bit) == self.has_bit(lane, bit));
                    } else if 0 <= bit < 32 {
                        lemma_joined_bits(lower, upper, bit as u32);
                    }
                }
            }
            w = w + 1;
        }
        words
    }

    /// Builds the block that four 64-bit words describe.
    pub fn from_words(words: &[u64; 4]) -> (block: Block)
        ensures
            forall|lane: int, bit: int|
                #[trigger] block.has_bit(lane, bit) == words_have_bit(*words, lane, bit),
    {
        let mut block = Block { lanes: [0u32; 8] };
        let mut w: usize = 0;
        while w < 4
            invariant
                0 <= w <= 4,
                forall|lane: int, bit: int|
                    0 <= lane < 2 * w ==> #[trigger] block.has_bit(lane, bit) == words_have_bit(
                        *words,
                        lane,
                        bit,
                    ),
            decreases 4 - w,
        {
            let word: u64 = words[w];
            let ghost before = block;
            block.lanes[2 * w] = word as u32;
            block.lanes[2 * w + 1] = (word >> 32) as u32;
            proof {
                assert forall|lane: int, bit: int| 0 <= lane < 2 * (w + 1) implies #[trigger]
                    block.has_bit(lane, bit) == words_have_bit(*words, lane, bit) by {
                    if lane < 2 * w {
                        assert(before.has_bit(lane, bit) == words_have_bit(*words, lane, bit));
                    } else if 0 <= bit < 32 {
                        lemma_halved_bits(word, bit as u32);
                    }
                }
            }
            w = w + 1;
        }
        block
    }
}

} // verus!
