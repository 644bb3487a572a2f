//! Bit derivation: the eight bit positions that a hash selects inside its
//! block, one per 32-bit lane.

use vstd::prelude::*;

verus! {

/// One odd multiplier per lane.  Lane `i` of a block is probed at the top
/// five bits of the lower half of the hash times `SALT[i]`.
pub const SALT: [u32; 8] = [
    0x47b6137b,
    0x44974d91,
    0x8824ad5b,
    0xa2b7289d,
    0x705495c7,
    0x2df1424b,
    0x9efc4947,
    0x5c6bfb31,
];

/// The multiplier of lane `lane`.
pub open spec fn salt(lane: int) -> u32 {
    SALT[lane]
}

/// The upper 32 bits of a 64-bit hash; they select the block.
pub open spec fn high32(h: u64) -> u32 {
    (h as int / 0x1_0000_0000) as u32
}

/// The lower 32 bits of a 64-bit hash; they select the bits inside the block.
pub open spec fn low32(h: u64) -> u32 {
    (h as int % 0x1_0000_0000) as u32
}

/// The top five bits of the product `low * multiplier` taken modulo 2^32: a
/// number from 0 to 31.
pub open spec fn top_five_bits(low: u32, multiplier: u32) -> int {
    ((low as int * multiplier as int) % 0x1_0000_0000) / 0x800_0000
}

/// The bit that `low` selects in lane `lane`: the top five bits of its
/// product with the lane's multiplier.
pub open spec fn bit_position(low: u32, lane: int) -> int {
    top_five_bits(low, salt(lane))
}

/// A lane has 32 bits, and the selected bit is one of them.
pub proof fn lemma_bit_position_in_range(low: u32, lane: int)
    ensures
        0 <= bit_position(low, lane) < 32,
{
    let product: int = low as int * salt(lane) as int;
    assert(0 <= product % 0x1_0000_0000 < 0x1_0000_0000);
}

/// Splits a hash into the half that addresses the block and the half that
/// addresses the bits.
pub fn split_hash(h: u64) -> (halves: (u32, u32))
    ensures
        halves.0 == high32(h),
        halves.1 == low32(h),
{
    let high: u32 = (h >> 32) as u32;
    let low: u32 = h as u32;
    assert((h >> 32) as u32 == (h / 0x1_0000_0000) as u32) by (bit_vector);
    assert(h as u32 == (h % 0x1_0000_0000) as u32) by (bit_vector);
    (high, low)
}

/// Computes the bit that `low` selects under `multiplier`.
pub fn probe_bit(low: u32, multiplier: u32) -> (bit: u32)
    ensures
        bit == top_five_bits(low, multiplier),
        bit < 32,
{
    let product: u32 = low.wrapping_mul(multiplier);
    let bit: u32 = product >> 27;
    assert(product >> 27 == product / 0x800_0000 && (product >> 27) < 32) by (bit_vector);
    bit
}

} // verus!
