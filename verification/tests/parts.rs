use bloomsday::{BlockedBloomFilter, FilterParts};

fn next(state: &mut u64) -> u64 {
    *state = state.wrapping_mul(6_364_136_223_846_793_005).wrapping_add(1_442_695_040_888_963_407);
    let mut x = *state;
    x ^= x >> 33;
    x = x.wrapping_mul(0xff51_afd7_ed55_8ccd);
    x ^= x >> 33;
    x
}

#[test]
fn parts_of_a_new_filter_are_zero() {
    let parts = BlockedBloomFilter::new_with_seed(1000, 10, 9).to_parts();
    assert_eq!(parts.num_blocks, 40);
    assert_eq!(parts.seed, 9);
    assert_eq!(parts.blocks, vec![[0u64; 4]; 40]);
}

#[test]
fn from_parts_rejects_an_empty_filter() {
    let parts = FilterParts { blocks: vec![], num_blocks: 0, seed: 0 };
    assert!(BlockedBloomFilter::from_parts(&parts).is_none());
}

#[test]
fn from_parts_rejects_a_zero_block_count() {
    let parts = FilterParts { blocks: vec![[0u64; 4]], num_blocks: 0, seed: 0 };
    assert!(BlockedBloomFilter::from_parts(&parts).is_none());
}

#[test]
fn from_parts_rejects_a_wrong_block_count() {
    let parts = FilterParts { blocks: vec![[0u64; 4]; 3], num_blocks: 4, seed: 0 };
    assert!(BlockedBloomFilter::from_parts(&parts).is_none());
    let parts = FilterParts { blocks: vec![[0u64; 4]; 3], num_blocks: 2, seed: 0 };
    assert!(BlockedBloomFilter::from_parts(&parts).is_none());
    let parts = FilterParts { blocks: vec![], num_blocks: 1, seed: 0 };
    assert!(BlockedBloomFilter::from_parts(&parts).is_none());
}

#[test]
fn from_parts_accepts_matching_parts() {
    let parts = FilterParts { blocks: vec![[0u64; 4]; 3], num_blocks: 3, seed: 5 };
    let bf = BlockedBloomFilter::from_parts(&parts).unwrap();
    assert_eq!(bf.num_blocks(), 3);
    assert_eq!(bf.seed(), 5);
    assert!(!bf.may_match_hash(0));
}

#[test]
fn parts_round_trip_keeps_every_answer() {
    let mut bf = BlockedBloomFilter::new_with_seed(500, 10, 31);
    let mut state = 1;
    let inserted: Vec<u64> = (0..500).map(|_| next(&mut state)).collect();
    for h in &inserted {
        bf.insert_hash(*h);
    }
    let parts = bf.to_parts();
    let restored = BlockedBloomFilter::from_parts(&parts).unwrap();
    assert_eq!(restored.num_blocks(), bf.num_blocks());
    assert_eq!(restored.seed(), bf.seed());
    assert_eq!(restored.to_parts().blocks, parts.blocks);
    for h in &inserted {
        assert!(restored.may_match_hash(*h));
    }
    for _ in 0..10_000 {
        let h = next(&mut state);
        assert_eq!(restored.may_match_hash(h), bf.may_match_hash(h));
    }
    assert_eq!(restored.may_match_key(b"key"), bf.may_match_key(b"key"));
}

#[test]
fn parts_round_trip_through_words() {
    let mut state = 42;
    let blocks: Vec<[u64; 4]> = (0..17)
        .map(|_| [next(&mut state), next(&mut state), next(&mut state), next(&mut state)])
        .collect();
    let parts = FilterParts { blocks: blocks.clone(), num_blocks: 17, seed: 3 };
    let bf = BlockedBloomFilter::from_parts(&parts).unwrap();
    let again = bf.to_parts();
    assert_eq!(again.blocks, blocks);
    assert_eq!(again.num_blocks, 17);
    assert_eq!(again.seed, 3);
}

#[test]
fn restored_filter_takes_further_insertions() {
    let mut bf = BlockedBloomFilter::new(100, 10);
    bf.insert_hash(42);
    let mut restored = BlockedBloomFilter::from_parts(&bf.to_parts()).unwrap();
    assert!(!restored.may_match_hash(43));
    restored.insert_hash(43);
    assert!(restored.may_match_hash(42));
    assert!(restored.may_match_hash(43));
    assert!(!bf.may_match_hash(43));
}

#[test]
fn lower_half_of_a_word_is_the_even_lane() {
    // Hash 0 selects bit 0 of every lane of block 0.
    let mut bf = BlockedBloomFilter::new(0, 10);
    bf.insert_hash(0);
    assert_eq!(bf.to_parts().blocks, vec![[0x0000_0001_0000_0001u64; 4]]);

    // Only the even lanes: the filter must miss hash 0.
    let parts = FilterParts { blocks: vec![[0x0000_0000_0000_0001u64; 4]], num_blocks: 1, seed: 0 };
    assert!(!BlockedBloomFilter::from_parts(&parts).unwrap().may_match_hash(0));
    // Only the odd lanes.
    let parts = FilterParts { blocks: vec![[0x0000_0001_0000_0000u64; 4]], num_blocks: 1, seed: 0 };
    assert!(!BlockedBloomFilter::from_parts(&parts).unwrap().may_match_hash(0));
    // Both.
    let parts = FilterParts { blocks: vec![[0x0000_0001_0000_0001u64; 4]], num_blocks: 1, seed: 0 };
    assert!(BlockedBloomFilter::from_parts(&parts).unwrap().may_match_hash(0));
}
