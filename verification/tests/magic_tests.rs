use magic_tables::attacks::{
    generate_bishop_attacks_on_the_fly, generate_bishop_mask, generate_rook_attack,
    generate_rook_mask,
};
use magic_tables::bishop_attack_table;
use magic_tables::bitboard::BitBoard;
use magic_tables::magic::Magic;
use magic_tables::magic_gen::{
    generate_bishop_magics, generate_magic, generate_rook_magic, generate_rook_magics,
    try_make_rook_table, MagicSearchError,
};
use magic_tables::occupancy::next_occupancy;
use magic_tables::piece::Piece;
use magic_tables::rook_attack_table;
use magic_tables::square::Square;

fn bb_of(squares: &[u8]) -> u64 {
    let mut b: u64 = 0;
    for &s in squares {
        b |= 1u64 << s;
    }
    b
}

#[test]
fn test_mask_popcounts_reference_values() {
    // Rook on a corner: 12 relevant squares.
    assert_eq!(generate_rook_mask(Square::new(0)).count_bits(), 12);
    assert_eq!(generate_rook_mask(Square::new(63)).count_bits(), 12);
    // Rook next to a corner: 11.
    assert_eq!(generate_rook_mask(Square::new(1)).count_bits(), 11);
    // Rook in the middle: 10.
    assert_eq!(generate_rook_mask(Square::new(27)).count_bits(), 10);
    // Bishop on a corner: 6.
    assert_eq!(generate_bishop_mask(Square::new(0)).count_bits(), 6);
    // Bishop in the middle: 9.
    assert_eq!(generate_bishop_mask(Square::new(27)).count_bits(), 9);
}

#[test]
fn test_mask_exact_values() {
    // Rook on d4: files b..g of rank four, ranks two..seven of file d.
    let expected_rook_d4 = bb_of(&[25, 26, 28, 29, 30, 11, 19, 35, 43, 51]);
    assert_eq!(generate_rook_mask(Square::new(27)).0, expected_rook_d4);
    // Rook on a1: files b..g of rank one, ranks two..seven of file a.
    let expected_rook_a1 = bb_of(&[1, 2, 3, 4, 5, 6, 8, 16, 24, 32, 40, 48]);
    assert_eq!(generate_rook_mask(Square::new(0)).0, expected_rook_a1);
    // Bishop on d4: both diagonals, short of every board edge.
    let expected_bishop_d4 = bb_of(&[36, 45, 54, 18, 9, 34, 41, 20, 13]);
    assert_eq!(generate_bishop_mask(Square::new(27)).0, expected_bishop_d4);
}

#[test]
fn test_mask_excludes_origin_and_edges() {
    // Rook on d4: neither d4 itself nor the edge squares of its rank and
    // file (a4, h4, d1, d8) are relevant.
    let mask = generate_rook_mask(Square::new(27)).0;
    for s in [27u8, 24, 31, 3, 59] {
        assert_eq!(mask & (1u64 << s), 0);
    }
    // Bishop on d4: no board-edge square is relevant.
    let bmask = generate_bishop_mask(Square::new(27)).0;
    for s in 0..64u8 {
        let rank = s / 8;
        let file = s % 8;
        if rank == 0 || rank == 7 || file == 0 || file == 7 {
            assert_eq!(bmask & (1u64 << s), 0);
        }
    }
    assert_eq!(bmask & (1u64 << 27), 0);
}

#[test]
fn test_rook_attack_d4_with_blockers() {
    // Rook on d4, blockers on d7, d2, b4 and g4: each ray stops at its
    // blocker, which is included.
    let blockers = BitBoard(bb_of(&[51, 11, 25, 30]));
    let attacks = generate_rook_attack(Square::new(27), blockers);
    let expected = bb_of(&[35, 43, 51, 19, 11, 26, 25, 28, 29, 30]);
    assert_eq!(attacks.0, expected);
}

#[test]
fn test_bishop_attack_a1_no_blockers() {
    // Bishop on a1 with an empty board: the whole long diagonal.
    let attacks = generate_bishop_attacks_on_the_fly(Square::new(0), BitBoard(0));
    let expected = bb_of(&[9, 18, 27, 36, 45, 54, 63]);
    assert_eq!(attacks.0, expected);
}

#[test]
fn test_attack_table_module_delegates() {
    let sq = Square::new(42);
    let occ = BitBoard(bb_of(&[10, 42, 50, 33]));
    assert_eq!(
        rook_attack_table::generate_rook_attack(sq).0,
        generate_rook_mask(sq).0
    );
    assert_eq!(
        rook_attack_table::rook_attacks_on_the_fly(sq, occ).0,
        generate_rook_attack(sq, occ).0
    );
    assert_eq!(
        bishop_attack_table::generate_bishop_attack(sq).0,
        generate_bishop_mask(sq).0
    );
    assert_eq!(
        bishop_attack_table::generate_bishop_attacks_on_the_fly(sq, occ).0,
        generate_bishop_attacks_on_the_fly(sq, occ).0
    );
}

#[test]
fn test_carry_rippler_enumerates_all_subsets_once() {
    // Over the d4 rook mask (10 bits) the enumerator yields 2^10 distinct
    // values, starting and ending at the empty subset, strictly increasing
    // in between.
    let mask = generate_rook_mask(Square::new(27));
    let mut seen: Vec<u64> = Vec::new();
    let mut current = BitBoard(0);
    loop {
        seen.push(current.0);
        let next = next_occupancy(current, mask);
        if next.0 == 0 {
            break;
        }
        assert!(next.0 > current.0);
        current = next;
    }
    assert_eq!(seen.len(), 1 << 10);
    assert_eq!(seen[0], 0);
    assert_eq!(*seen.last().unwrap(), mask.0);
    for w in seen.windows(2) {
        assert!(w[0] < w[1]);
    }
    for &occ in &seen {
        assert_eq!(occ & mask.0, occ);
    }
}

#[test]
fn test_next_occupancy_wraps_to_empty() {
    let mask = generate_bishop_mask(Square::new(27));
    assert_eq!(next_occupancy(mask, mask).0, 0);
    assert_eq!(next_occupancy(BitBoard(0), BitBoard(0)).0, 0);
}

#[test]
fn test_magic_index_formula() {
    let mask = generate_rook_mask(Square::new(27));
    let magic = Magic {
        mask,
        magic: 0x0123_4567_89AB_CDEF,
        shift: 54,
    };
    let occ: u64 = 0xFFFF_0000_FF00_00FF;
    let expected = ((occ & mask.0).wrapping_mul(0x0123_4567_89AB_CDEF) >> 54) as usize;
    assert_eq!(magic.get_magic_index(BitBoard(occ)), expected);
}

#[test]
fn test_try_make_table_rejects_destructive_collision() {
    // A zero magic hashes every occupancy subset to slot zero, and a rook
    // on d4 has occupancies with different attack sets, so the build must
    // fail.
    let mask = generate_rook_mask(Square::new(27));
    let magic = Magic {
        mask,
        magic: 0,
        shift: 54,
    };
    assert_eq!(try_make_rook_table(Square::new(27), &magic), Err(()));
}

#[test]
fn test_accepted_magic_answers_every_subset() {
    // Search a magic for the d4 rook and check the whole table against the
    // direct ray-cast, subset by subset.
    let sq = Square::new(27);
    let mask = generate_rook_mask(sq);
    let (magic, table) = generate_rook_magic(sq, mask).expect("search failed");
    assert_eq!(magic.mask.0, mask.0);
    assert_eq!(magic.shift, 54);
    assert_eq!(table.len(), 1 << 10);
    let mut occ = BitBoard(0);
    loop {
        let idx = magic.get_magic_index(occ);
        assert_eq!(table[idx].0, generate_rook_attack(sq, occ).0);
        occ = next_occupancy(occ, mask);
        if occ.0 == 0 {
            break;
        }
    }
}

#[test]
fn test_degenerate_mask_is_reported() {
    assert_eq!(
        generate_rook_magic(Square::new(0), BitBoard(0)),
        Err(MagicSearchError::DegenerateMask)
    );
}

#[test]
fn test_generate_magic_by_piece() {
    let (magic, table) = generate_magic(Piece::Bishop, Square::new(0)).expect("search failed");
    assert_eq!(magic.mask.0, generate_bishop_mask(Square::new(0)).0);
    assert_eq!(magic.shift, 58);
    assert_eq!(table.len(), 1 << 6);
}

#[test]
fn test_rook_table_round_trip() {
    // The defining property of the artifact: for any square and occupancy,
    // the compiled table answers exactly what the ray-cast computes.
    let tables = generate_rook_magics().expect("rook table generation failed");
    assert_eq!(tables.entries.len(), 64);
    assert_eq!(tables.entries[0].offset, 0);
    let occupancies = [
        0u64,
        bb_of(&[51, 11, 25, 30]),
        0xFFFF_0000_0000_FFFF,
        0x00FF_00F0_0F00_FF00,
        u64::MAX,
    ];
    for s in [0u8, 7, 27, 36, 56, 63] {
        let sq = Square::new(s);
        for &occ in &occupancies {
            let looked_up = tables.lookup(Piece::Rook, sq, BitBoard(occ));
            let direct = generate_rook_attack(sq, BitBoard(occ));
            assert_eq!(looked_up.0, direct.0);
        }
    }
}

#[test]
fn test_bishop_table_round_trip() {
    let tables = generate_bishop_magics().expect("bishop table generation failed");
    assert_eq!(tables.entries.len(), 64);
    let occupancies = [0u64, bb_of(&[9, 18, 45]), 0x8142_2418_1824_4281, u64::MAX];
    for s in [0u8, 27, 35, 63] {
        let sq = Square::new(s);
        for &occ in &occupancies {
            let looked_up = tables.lookup(Piece::Bishop, sq, BitBoard(occ));
            let direct = generate_bishop_attacks_on_the_fly(sq, BitBoard(occ));
            assert_eq!(looked_up.0, direct.0);
        }
    }
}

#[test]
fn test_flat_table_offsets_tile_without_gaps() {
    let tables = generate_rook_magics().expect("rook table generation failed");
    let mut expected_offset: usize = 0;
    for e in &tables.entries {
        assert_eq!(e.offset, expected_offset);
        expected_offset += 1usize << (64 - e.shift as usize);
    }
    assert_eq!(tables.table.len(), expected_offset);
}
