use epsilon::magic::{
    count_bits, generate_blocker_permutations, gen_attacks_naive, magic_index, fill_table,
    try_find_magic, magic_for_square, sparse_candidate, EMPTY_SLOT,
};

#[test]
fn rook_attacks_on_empty_board() {
    // a1: the first rank and the a-file.
    assert_eq!(gen_attacks_naive(0, 0), 0x01010101010101FE);
    assert_eq!(count_bits(gen_attacks_naive(0, 0)), 14);
    assert_eq!(count_bits(gen_attacks_naive(27, 0)), 14);
}

#[test]
fn rook_attacks_stop_at_blockers() {
    // A rook on a1 with blockers on c1 and a3.
    let blockers = (1u64 << 2) | (1u64 << 16);
    assert_eq!(gen_attacks_naive(0, blockers), (1u64 << 1) | (1u64 << 2) | (1u64 << 8) | (1u64 << 16));
}

#[test]
fn blocker_permutations() {
    let mask = 0b1010_0100u64;
    let perms = generate_blocker_permutations(mask);
    assert_eq!(perms, vec![0, 0b100, 0b10_0000, 0b10_0100, 0b1000_0000, 0b1000_0100, 0b1010_0000, 0b1010_0100]);
    let perms = generate_blocker_permutations(gen_attacks_naive(0, 0));
    assert_eq!(perms.len(), 1 << 14);
}

#[test]
fn magic_index_takes_top_bits() {
    assert_eq!(magic_index(1, 1u64 << 63, 1), 1);
    assert_eq!(magic_index(3, 0x4000_0000_0000_0000, 2), 3);
    assert_eq!(magic_index(0, 12345, 5), 0);
}

#[test]
fn fill_table_detects_collisions() {
    let blockers = vec![1u64, 2u64];
    let attacks = vec![10u64, 20u64];
    // Multiplier 0 sends everything to slot 0.
    assert!(fill_table(&blockers, &attacks, 0, 1).is_none());
    let same = vec![10u64, 10u64];
    assert_eq!(fill_table(&blockers, &same, 0, 1), Some(vec![10, EMPTY_SLOT]));
    assert_eq!(fill_table(&blockers, &attacks, 1u64 << 62, 2), Some(vec![EMPTY_SLOT, 10, 20, EMPTY_SLOT]));
}

#[test]
fn found_magic_maps_each_blocker_set_to_its_attacks() {
    let mut rng = rand::rng();
    let square = 0u8;
    let mask = gen_attacks_naive(square, 0);
    let blockers = generate_blocker_permutations(mask);
    let found = try_find_magic(square, &blockers, 14, &mut rng, 100_000);
    if let Some((magic, table)) = found {
        assert_eq!(table.len(), 1 << 14);
        for b in blockers.iter() {
            assert_eq!(table[magic_index(*b, magic, 14)], gen_attacks_naive(square, *b));
        }
    }
    let m = magic_for_square(square, &blockers, &mut rng, 0);
    assert!(m.is_none());
}

#[test]
fn magic_lookup_gives_rook_attacks() {
    let mut rng = rand::rng();
    let square = 27u8;
    let mask = gen_attacks_naive(square, 0);
    let blockers = generate_blocker_permutations(mask);
    if let Some(m) = magic_for_square(square, &blockers, &mut rng, 200_000) {
        assert_eq!(m.mask, mask);
        assert!(m.shift >= 33 && m.shift <= 63);
        assert!(64 - m.shift as u32 <= count_bits(mask));
        let occupancies = [0u64, u64::MAX, 0x0000_0018_1800_0000, 0x8100_0000_0000_0081, 0x0008_0800_0808_0000];
        for occ in occupancies.iter() {
            assert_eq!(m.lookup(*occ), gen_attacks_naive(square, *occ));
        }
        for b in blockers.iter() {
            assert_eq!(m.lookup(*b), gen_attacks_naive(square, *b));
        }
    }
}

#[test]
fn sparse_candidate_keeps_common_bits() {
    assert_eq!(sparse_candidate(0xff00_ff00_ff00_ff00, 0xf0f0_f0f0_f0f0_f0f0, 4), 0x0f00_0f00_0f00_0f00);
    assert_eq!(sparse_candidate(0b1011, 0b1111_0000, 4), 0b1011);
    assert_eq!(sparse_candidate(u64::MAX, 0, 0), 0);
}
