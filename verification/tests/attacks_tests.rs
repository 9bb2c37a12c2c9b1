use m4k::attacks::{
    bishop_attacks, generate_bishop_attacks_slow, generate_king_attacks, generate_knight_attacks,
    generate_pawn_attacks, generate_rook_attacks_slow, king_attacks, knight_attacks, pawn_attacks,
    queen_attacks, rook_attacks,
};
use m4k::classical::{
    anti_diagonal_mask, bishop_attacks_neon, diagonal_mask, rook_attacks_neon,
};
use m4k::magic::{
    bishop_attacks_magic, bishop_relevant_mask, fill_slots, find_magic, init_magics, init_slider,
    queen_attacks_magic, rook_attacks_magic, rook_relevant_mask, subset_attacks, Slider,
};
use m4k::types::{Bitboard, Color, Square};

#[test]
fn attacks_neon_test_rook_attacks_empty_board() {
    let attacks = rook_attacks_neon(28, 0);
    assert!(attacks != 0);
}

#[test]
fn attacks_neon_test_bishop_attacks_empty_board() {
    let attacks = bishop_attacks_neon(28, 0);
    assert!(attacks != 0);
}

#[test]
fn test_knight_attacks() {
    let attacks = knight_attacks(Square(Square::E4));
    assert_eq!(attacks.count(), 8);

    let corner_attacks = knight_attacks(Square(Square::A1));
    assert_eq!(corner_attacks.count(), 2);
}

#[test]
fn test_king_attacks() {
    let attacks = king_attacks(Square(Square::E4));
    assert_eq!(attacks.count(), 8);

    let corner_attacks = king_attacks(Square(Square::A1));
    assert_eq!(corner_attacks.count(), 3);
}

#[test]
fn test_pawn_attacks() {
    let white_attacks = pawn_attacks(Square(Square::E4), Color::White);
    assert!(white_attacks.is_occupied(Square(Square::D5)));
    assert!(white_attacks.is_occupied(Square(Square::F5)));
    assert_eq!(white_attacks.count(), 2);

    let black_attacks = pawn_attacks(Square(Square::E4), Color::Black);
    assert!(black_attacks.is_occupied(Square(Square::D3)));
    assert!(black_attacks.is_occupied(Square(Square::F3)));
    assert_eq!(black_attacks.count(), 2);
}

#[test]
fn attacks_test_bishop_attacks_empty_board() {
    let tables = init_magics().unwrap();
    let attacks = bishop_attacks(&tables, Square(Square::E4), Bitboard(Bitboard::EMPTY));
    assert!(attacks.is_occupied(Square(Square::D3)));
    assert!(attacks.is_occupied(Square(Square::F5)));
    assert!(attacks.is_occupied(Square(Square::A8)));
    assert!(attacks.is_occupied(Square(Square::H7)));
}

#[test]
fn attacks_test_rook_attacks_empty_board() {
    let tables = init_magics().unwrap();
    let attacks = rook_attacks(&tables, Square(Square::E4), Bitboard(Bitboard::EMPTY));
    assert!(attacks.is_occupied(Square(Square::E1)));
    assert!(attacks.is_occupied(Square(Square::E8)));
    assert!(attacks.is_occupied(Square(Square::A4)));
    assert!(attacks.is_occupied(Square(Square::H4)));
}

#[test]
fn test_magic_initialization() {
    let tables = init_magics().unwrap();
    let attacks = bishop_attacks_magic(&tables, Square(Square::E4), Bitboard(Bitboard::EMPTY));
    assert!(attacks.count() > 0);
}

#[test]
fn test_bishop_magic_attacks() {
    let tables = init_magics().unwrap();
    let attacks = bishop_attacks_magic(&tables, Square(Square::E4), Bitboard(Bitboard::EMPTY));
    assert!(attacks.is_occupied(Square(Square::D3)));
    assert!(attacks.is_occupied(Square(Square::F5)));
}

#[test]
fn test_rook_magic_attacks() {
    let tables = init_magics().unwrap();
    let attacks = rook_attacks_magic(&tables, Square(Square::E4), Bitboard(Bitboard::EMPTY));
    assert!(attacks.is_occupied(Square(Square::E1)));
    assert!(attacks.is_occupied(Square(Square::E8)));
    assert!(attacks.is_occupied(Square(Square::A4)));
    assert!(attacks.is_occupied(Square(Square::H4)));
}

#[test]
fn step_attack_sets_have_their_exact_squares() {
    assert_eq!(knight_attacks(Square(Square::A1)).0, (1u64 << 10) | (1u64 << 17));
    assert_eq!(king_attacks(Square(Square::A1)).0, (1u64 << 1) | (1u64 << 8) | (1u64 << 9));
    assert_eq!(pawn_attacks(Square(Square::A2), Color::White).0, 1u64 << 17);
    assert_eq!(pawn_attacks(Square(Square::H7), Color::Black).0, 1u64 << 46);
    assert_eq!(pawn_attacks(Square(Square::E8), Color::White).0, 0);
    assert_eq!(pawn_attacks(Square(Square::E1), Color::Black).0, 0);
}

#[test]
fn step_tables_agree_with_the_lookups() {
    let knights = generate_knight_attacks();
    let kings = generate_king_attacks();
    let pawns = generate_pawn_attacks();
    for sq in 0..64u8 {
        assert_eq!(knights[sq as usize], knight_attacks(Square(sq)));
        assert_eq!(kings[sq as usize], king_attacks(Square(sq)));
        assert_eq!(pawns[0][sq as usize], pawn_attacks(Square(sq), Color::White));
        assert_eq!(pawns[1][sq as usize], pawn_attacks(Square(sq), Color::Black));
    }
}

#[test]
fn ray_walk_stops_on_the_first_blocker() {
    let occupied = Bitboard((1u64 << 44) | (1u64 << 26) | (1u64 << 60));
    let rook = generate_rook_attacks_slow(Square(Square::E4), occupied);
    // up: e5, e6 (blocked); down: e3, e2, e1; left: d4, c4 (blocked); right: f4, g4, h4
    let expected = (1u64 << 36) | (1u64 << 44) | (1u64 << 20) | (1u64 << 12) | (1u64 << 4)
        | (1u64 << 27) | (1u64 << 26) | (1u64 << 29) | (1u64 << 30) | (1u64 << 31);
    assert_eq!(rook.0, expected);
    assert!(!rook.is_occupied(Square(Square::E4)));

    let bishop = generate_bishop_attacks_slow(Square(Square::A1), Bitboard(1u64 << 27));
    assert_eq!(bishop.0, (1u64 << 9) | (1u64 << 18) | (1u64 << 27));
}

#[test]
fn relevance_masks_leave_out_the_edge() {
    assert_eq!(rook_relevant_mask(Square(Square::A1)).0, 0x0001_0101_0101_017E);
    assert_eq!(rook_relevant_mask(Square(Square::A1)).count(), 12);
    assert_eq!(rook_relevant_mask(Square(Square::E4)).count(), 10);
    assert_eq!(bishop_relevant_mask(Square(Square::A1)).0, 0x0040_2010_0804_0200);
    assert_eq!(bishop_relevant_mask(Square(Square::E4)).count(), 9);
    assert_eq!(bishop_relevant_mask(Square(Square::H1)).count(), 6);
}

#[test]
fn table_free_sliders_agree_with_the_ray_walk() {
    let occupied = 0x0012_0400_2200_8100u64;
    for sq in 0..64u32 {
        assert_eq!(
            rook_attacks_neon(sq, occupied),
            generate_rook_attacks_slow(Square(sq as u8), Bitboard(occupied)).0
        );
        assert_eq!(
            bishop_attacks_neon(sq, occupied),
            generate_bishop_attacks_slow(Square(sq as u8), Bitboard(occupied)).0
        );
    }
}

#[test]
fn lookup_equals_ray_walk_for_every_subset_of_a_mask() {
    let tables = init_magics().unwrap();
    for &sq in &[Square::A1, Square::E4, Square::H8, Square::D7] {
        let square = Square(sq);
        let mask = rook_relevant_mask(square).0;
        let mut subset = 0u64;
        loop {
            assert_eq!(
                rook_attacks_magic(&tables, square, Bitboard(subset)),
                generate_rook_attacks_slow(square, Bitboard(subset))
            );
            subset = subset.wrapping_sub(mask) & mask;
            if subset == 0 {
                break;
            }
        }
        let mask = bishop_relevant_mask(square).0;
        let mut subset = 0u64;
        loop {
            assert_eq!(
                bishop_attacks_magic(&tables, square, Bitboard(subset)),
                generate_bishop_attacks_slow(square, Bitboard(subset))
            );
            subset = subset.wrapping_sub(mask) & mask;
            if subset == 0 {
                break;
            }
        }
    }
}

#[test]
fn lookup_ignores_blockers_outside_the_mask() {
    let tables = init_magics().unwrap();
    let occupied = Bitboard(0xFF81_8181_8181_81FF | (1u64 << 36));
    for sq in 0..64u8 {
        let square = Square(sq);
        assert_eq!(
            rook_attacks(&tables, square, occupied),
            generate_rook_attacks_slow(square, occupied)
        );
        assert_eq!(
            bishop_attacks(&tables, square, occupied),
            generate_bishop_attacks_slow(square, occupied)
        );
        assert_eq!(
            queen_attacks(&tables, square, occupied).0,
            generate_rook_attacks_slow(square, occupied).0
                | generate_bishop_attacks_slow(square, occupied).0
        );
        assert_eq!(
            queen_attacks_magic(&tables, square, occupied),
            queen_attacks(&tables, square, occupied)
        );
        assert!(!queen_attacks(&tables, square, occupied).is_occupied(square));
    }
}

#[test]
fn a_colliding_multiplier_is_refused() {
    let square = Square(Square::A1);
    let mask = rook_relevant_mask(square);
    let reference = subset_attacks(Slider::Rook, square, mask);
    assert_eq!(reference.len(), 4096);
    let mut table = vec![Bitboard(0); 4096];
    let mut stamps = vec![0u64; 4096];
    // A multiplier of zero sends every subset to slot zero.
    assert!(!fill_slots(Slider::Rook, square, mask, 0, 52, &reference, &mut table, 0, &mut stamps, 1));
}

#[test]
fn diagonal_masks() {
    assert_eq!(diagonal_mask(0), 0x8040_2010_0804_0201);
    assert_eq!(diagonal_mask(-7), 0x0000_0000_0000_0080);
    assert_eq!(diagonal_mask(7), 0x0100_0000_0000_0000);
    assert_eq!(diagonal_mask(1), 0x4020_1008_0402_0100);
    assert_eq!(diagonal_mask(8), 0);
    assert_eq!(diagonal_mask(-8), 0);
    assert_eq!(anti_diagonal_mask(0), 0x0000_0000_0000_0001);
    assert_eq!(anti_diagonal_mask(7), 0x0102_0408_1020_4080);
    assert_eq!(anti_diagonal_mask(14), 0x8000_0000_0000_0000);
    assert_eq!(anti_diagonal_mask(15), 0);
    assert_eq!(anti_diagonal_mask(-1), 0);
    // On an empty board a bishop attacks its two diagonals but for its own square.
    for sq in 0..64u32 {
        let rank = (sq / 8) as i32;
        let file = (sq % 8) as i32;
        let lines = diagonal_mask(rank - file) | anti_diagonal_mask(rank + file);
        assert_eq!(bishop_attacks_neon(sq, 0), lines & !(1u64 << sq));
    }
}

#[test]
fn the_reference_has_one_attack_set_for_each_subset() {
    let square = Square(Square::D4);
    let mask = bishop_relevant_mask(square);
    assert_eq!(mask.count(), 9);
    let reference = subset_attacks(Slider::Bishop, square, mask);
    assert_eq!(reference.len(), 512);
    // The first entry is for the empty board, the last for the whole mask.
    assert_eq!(reference[0], generate_bishop_attacks_slow(square, Bitboard(0)));
    assert_eq!(reference[511], generate_bishop_attacks_slow(square, mask));
    assert_ne!(reference[0], reference[511]);
    // The subsets are counted up: the second is the lowest square of the mask alone.
    let lowest = Bitboard(mask.0 & mask.0.wrapping_neg());
    assert_eq!(reference[1], generate_bishop_attacks_slow(square, lowest));
    // A mask without a square has the empty subset only.
    assert_eq!(subset_attacks(Slider::Rook, square, Bitboard(0)).len(), 1);
}

#[test]
fn a_found_multiplier_fills_the_slots_and_a_short_reference_is_refused() {
    let square = Square(Square::A1);
    let mask = bishop_relevant_mask(square);
    assert_eq!(mask.count(), 6);
    let mut table = vec![Bitboard(0); 64];
    let magic = find_magic(Slider::Bishop, square, mask, 58, &mut table, 0, 1_000_000).unwrap();
    let reference = subset_attacks(Slider::Bishop, square, mask);
    assert_eq!(reference.len(), 64);
    let mut again = vec![Bitboard(0); 64];
    let mut stamps = vec![0u64; 64];
    assert!(fill_slots(Slider::Bishop, square, mask, magic, 58, &reference, &mut again, 0, &mut stamps, 1));
    assert_eq!(again, table);
    let blockers = Bitboard((1u64 << 18) | (1u64 << 36));
    let slot = ((blockers.0 & mask.0).wrapping_mul(magic) >> 58) as usize;
    assert_eq!(table[slot], generate_bishop_attacks_slow(square, blockers));
    // With one attack set missing the same multiplier is refused.
    let short = reference[..63].to_vec();
    assert!(!fill_slots(Slider::Bishop, square, mask, magic, 58, &short, &mut again, 0, &mut stamps, 2));
    // What lies before the offset stays.
    let mut long = vec![Bitboard(7); 70];
    let mut stamps = vec![0u64; 64];
    assert!(fill_slots(Slider::Bishop, square, mask, magic, 58, &reference, &mut long, 6, &mut stamps, 1));
    assert_eq!(&long[..6], &[Bitboard(7); 6]);
    assert_eq!(&long[6..], &table[..]);
}

#[test]
fn without_an_attempt_no_multiplier_is_found() {
    let square = Square(Square::A1);
    let mask = bishop_relevant_mask(square);
    let mut table = vec![Bitboard(0); 64];
    assert_eq!(find_magic(Slider::Bishop, square, mask, 58, &mut table, 0, 0), None);
    assert_eq!(table, vec![Bitboard(0); 64]);
    assert!(init_slider(Slider::Bishop, 0).is_none());
    assert!(init_slider(Slider::Rook, 0).is_none());
}

#[test]
fn built_tables_lie_square_after_square() {
    let tables = init_magics().unwrap();
    let mut offset = 0usize;
    for sq in 0..64u8 {
        let entry = &tables.bishop_magics[sq as usize];
        assert_eq!(entry.mask, bishop_relevant_mask(Square(sq)));
        assert_eq!(entry.shift, 64 - entry.mask.count());
        assert_eq!(entry.offset, offset);
        assert!((entry.magic.wrapping_mul(entry.mask.0)).count_ones() >= 6);
        offset += 1usize << entry.mask.count();
    }
    assert_eq!(tables.bishop_table.len(), offset);
    assert_eq!(offset, 5248);
    let mut offset = 0usize;
    for sq in 0..64u8 {
        let entry = &tables.rook_magics[sq as usize];
        assert_eq!(entry.mask, rook_relevant_mask(Square(sq)));
        assert_eq!(entry.shift, 64 - entry.mask.count());
        assert_eq!(entry.offset, offset);
        offset += 1usize << entry.mask.count();
    }
    assert_eq!(tables.rook_table.len(), offset);
    assert_eq!(offset, 102_400);
}
