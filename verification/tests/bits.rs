use bloomsday::block::Block;
use bloomsday::probe::{probe_bit, split_hash, SALT};
use bloomsday::BlockedBloomFilter;

const MULTIPLIERS: [u32; 8] = [
    0x47b6137b, 0x44974d91, 0x8824ad5b, 0xa2b7289d, 0x705495c7, 0x2df1424b, 0x9efc4947,
    0x5c6bfb31,
];

/// The filter written out plainly: lanes in a vector, no packing.
struct Plain {
    lanes: Vec<[u32; 8]>,
}

impl Plain {
    fn new(num_blocks: u32) -> Self {
        Plain { lanes: vec![[0u32; 8]; num_blocks as usize] }
    }

    fn insert(&mut self, h: u64) {
        let n = self.lanes.len() as u64;
        let index = (((h >> 32) * n) >> 32) as usize;
        for lane in 0..8 {
            let bit = (h as u32).wrapping_mul(MULTIPLIERS[lane]) >> 27;
            self.lanes[index][lane] |= 1 << bit;
        }
    }

    fn may_match(&self, h: u64) -> bool {
        let n = self.lanes.len() as u64;
        let index = (((h >> 32) * n) >> 32) as usize;
        (0..8).all(|lane| {
            let bit = (h as u32).wrapping_mul(MULTIPLIERS[lane]) >> 27;
            self.lanes[index][lane] & (1 << bit) != 0
        })
    }

    fn words(&self) -> Vec<[u64; 4]> {
        self.lanes
            .iter()
            .map(|lanes| {
                let mut words = [0u64; 4];
                for w in 0..4 {
                    words[w] = lanes[2 * w] as u64 | (lanes[2 * w + 1] as u64) << 32;
                }
                words
            })
            .collect()
    }
}

fn next(state: &mut u64) -> u64 {
    *state = state.wrapping_mul(6_364_136_223_846_793_005).wrapping_add(1_442_695_040_888_963_407);
    let mut x = *state;
    x ^= x >> 33;
    x = x.wrapping_mul(0xff51_afd7_ed55_8ccd);
    x ^= x >> 33;
    x
}

#[test]
fn salts_are_the_eight_odd_multipliers() {
    assert_eq!(SALT, MULTIPLIERS);
    for salt in SALT {
        assert_eq!(salt & 1, 1);
    }
}

#[test]
fn split_hash_gives_upper_and_lower_half() {
    assert_eq!(split_hash(0), (0, 0));
    assert_eq!(split_hash(0x0000_0001_0000_0002), (1, 2));
    assert_eq!(split_hash(0x1234_5678_9abc_def0), (0x1234_5678, 0x9abc_def0));
    assert_eq!(split_hash(u64::MAX), (u32::MAX, u32::MAX));
    assert_eq!(split_hash(0xffff_ffff), (0, u32::MAX));
    assert_eq!(split_hash(0x1_0000_0000), (1, 0));
}

#[test]
fn probe_bit_is_the_top_five_bits_of_the_wrapping_product() {
    assert_eq!(probe_bit(0, 0x47b6137b), 0);
    assert_eq!(probe_bit(1, 0x47b6137b), 8);
    assert_eq!(probe_bit(1, 0x44974d91), 8);
    assert_eq!(probe_bit(1, 0x8824ad5b), 17);
    assert_eq!(probe_bit(1, 0xa2b7289d), 20);
    assert_eq!(probe_bit(1, 0x705495c7), 14);
    assert_eq!(probe_bit(1, 0x2df1424b), 5);
    assert_eq!(probe_bit(1, 0x9efc4947), 19);
    assert_eq!(probe_bit(1, 0x5c6bfb31), 11);
    // 2 * 0x8824ad5b = 0x1_10495ab6, which wraps to 0x10495ab6.
    assert_eq!(probe_bit(2, 0x8824ad5b), 2);
    assert_eq!(probe_bit(u32::MAX, 1), 31);
    assert_eq!(probe_bit(u32::MAX, u32::MAX), 0);
    let mut state = 7;
    for _ in 0..1000 {
        let low = next(&mut state) as u32;
        let multiplier = next(&mut state) as u32;
        assert!(probe_bit(low, multiplier) < 32);
        assert_eq!(probe_bit(low, multiplier), low.wrapping_mul(multiplier) >> 27);
    }
}

#[test]
fn block_starts_empty() {
    let block = Block::zeroed();
    assert_eq!(block.to_words(), [0u64; 4]);
    assert!(!block.has_probes(0));
    assert!(!block.has_probes(1));
    assert!(!block.has_probes(u32::MAX));
}

#[test]
fn block_sets_one_bit_per_lane() {
    let mut block = Block::zeroed();
    block.set_probes(1);
    assert_eq!(
        block.to_words(),
        [
            0x0000_0100_0000_0100,
            0x0010_0000_0002_0000,
            0x0000_0020_0000_4000,
            0x0000_0800_0008_0000,
        ]
    );
    assert!(block.has_probes(1));
    assert!(!block.has_probes(2));
    let ones: u32 = block.to_words().iter().map(|w| w.count_ones()).sum();
    assert_eq!(ones, 8);
}

#[test]
fn block_with_hash_zero_sets_bit_zero_of_every_lane() {
    let mut block = Block::zeroed();
    block.set_probes(0);
    assert_eq!(block.to_words(), [0x0000_0001_0000_0001u64; 4]);
    assert!(block.has_probes(0));
}

#[test]
fn block_misses_when_a_single_bit_is_off() {
    let full = [
        0x0000_0100_0000_0100u64,
        0x0010_0000_0002_0000,
        0x0000_0020_0000_4000,
        0x0000_0800_0008_0000,
    ];
    assert!(Block::from_words(&full).has_probes(1));
    for w in 0..4 {
        for half in 0..2 {
            let mut words = full;
            let mask = if half == 0 { 0xffff_ffff_0000_0000u64 } else { 0x0000_0000_ffff_ffffu64 };
            words[w] &= mask;
            assert!(!Block::from_words(&words).has_probes(1));
        }
    }
}

#[test]
fn block_words_round_trip() {
    let mut state = 11;
    for _ in 0..200 {
        let words = [next(&mut state), next(&mut state), next(&mut state), next(&mut state)];
        assert_eq!(Block::from_words(&words).to_words(), words);
    }
    assert_eq!(Block::from_words(&[u64::MAX; 4]).to_words(), [u64::MAX; 4]);
    assert_eq!(Block::from_words(&[0; 4]).to_words(), [0; 4]);
}

#[test]
fn full_block_matches_everything() {
    let block = Block::from_words(&[u64::MAX; 4]);
    let mut state = 3;
    for _ in 0..1000 {
        assert!(block.has_probes(next(&mut state) as u32));
    }
}

#[test]
fn set_probes_only_adds_bits() {
    let mut state = 5;
    let mut block = Block::zeroed();
    for _ in 0..50 {
        let before = block.to_words();
        block.set_probes(next(&mut state) as u32);
        let after = block.to_words();
        for w in 0..4 {
            assert_eq!(before[w] & after[w], before[w]);
            assert!((after[w] ^ before[w]).count_ones() <= 2);
        }
    }
}

#[test]
fn insert_hash_sets_the_selected_bits_of_the_selected_block() {
    let mut bf = BlockedBloomFilter::new(1000, 10);
    // Upper half 0x8000_0000 selects block 20 of 40; lower half 1 selects the bits.
    bf.insert_hash(0x8000_0000_0000_0001);
    let parts = bf.to_parts();
    for (index, words) in parts.blocks.iter().enumerate() {
        if index == 20 {
            assert_eq!(
                *words,
                [
                    0x0000_0100_0000_0100,
                    0x0010_0000_0002_0000,
                    0x0000_0020_0000_4000,
                    0x0000_0800_0008_0000,
                ]
            );
        } else {
            assert_eq!(*words, [0u64; 4]);
        }
    }
}

#[test]
fn filter_agrees_with_the_plain_algorithm() {
    for (entries, bits) in [(0usize, 10usize), (10, 10), (100, 10), (1000, 10), (5000, 7)] {
        let mut bf = BlockedBloomFilter::new(entries, bits);
        let mut plain = Plain::new(bf.num_blocks());
        let mut state = entries as u64 + 1;
        for _ in 0..entries.max(5) {
            let h = next(&mut state);
            assert_eq!(bf.may_match_hash(h), plain.may_match(h));
            bf.insert_hash(h);
            plain.insert(h);
            assert!(bf.may_match_hash(h));
        }
        assert_eq!(bf.to_parts().blocks, plain.words());
        for _ in 0..5000 {
            let h = next(&mut state);
            assert_eq!(bf.may_match_hash(h), plain.may_match(h));
        }
    }
}
