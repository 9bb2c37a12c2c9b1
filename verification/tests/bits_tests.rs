use m4k::bits::{
    clear_bit, complement, deinterleave_bits, deposit_bits, extract_bits, find_and_clear_lsb,
    hamming_distance, has_intersection, interleave_bits, intersection, is_empty, is_power_of_two,
    is_subset, leading_zeros, lsb_index, msb_index, next_power_of_two, popcount, reverse_bits,
    rotate_left, rotate_right, set_bit, swap_bytes, symmetric_difference, test_bit, toggle_bit,
    trailing_zeros, union,
};
use m4k::types::Bitboard;

#[test]
fn test_trailing_zeros() {
    assert_eq!(trailing_zeros(0), 64);
    assert_eq!(trailing_zeros(1), 0);
    assert_eq!(trailing_zeros(2), 1);
    assert_eq!(trailing_zeros(0xFF00), 8);
}

#[test]
fn test_leading_zeros() {
    assert_eq!(leading_zeros(0), 64);
    assert_eq!(leading_zeros(1), 63);
    assert_eq!(leading_zeros(0xFF00_0000_0000_0000), 0);
}

#[test]
fn test_power_of_two() {
    assert!(is_power_of_two(1));
    assert!(is_power_of_two(2));
    assert!(is_power_of_two(4));
    assert!(is_power_of_two(1024));
    assert!(!is_power_of_two(3));
    assert!(!is_power_of_two(6));
    assert!(!is_power_of_two(0));
}

#[test]
fn test_next_power_of_two() {
    assert_eq!(next_power_of_two(0), 1);
    assert_eq!(next_power_of_two(1), 1);
    assert_eq!(next_power_of_two(2), 2);
    assert_eq!(next_power_of_two(3), 4);
    assert_eq!(next_power_of_two(5), 8);
    assert_eq!(next_power_of_two(17), 32);
}

#[test]
fn test_bit_operations() {
    let mut x = 0u64;

    x = set_bit(x, 5);
    assert!(test_bit(x, 5));
    assert_eq!(x, 32);

    x = set_bit(x, 10);
    assert!(test_bit(x, 10));
    assert_eq!(x, 32 | 1024);

    x = clear_bit(x, 5);
    assert!(!test_bit(x, 5));
    assert!(test_bit(x, 10));

    x = toggle_bit(x, 5);
    assert!(test_bit(x, 5));
}

#[test]
fn test_find_and_clear_lsb() {
    let mut x = 0b1011_0000u64;
    assert_eq!(find_and_clear_lsb(&mut x), Some(4));
    assert_eq!(x, 0b1010_0000u64);

    assert_eq!(find_and_clear_lsb(&mut x), Some(5));
    assert_eq!(x, 0b1000_0000u64);

    assert_eq!(find_and_clear_lsb(&mut x), Some(7));
    assert_eq!(x, 0u64);

    assert_eq!(find_and_clear_lsb(&mut x), None);
}

#[test]
fn interleaving_puts_the_first_word_on_even_bits() {
    let x = 0b1010u32;
    let y = 0b1100u32;
    let z = interleave_bits(x, y);
    assert_eq!(z, 0b11100100u64);

    let (dx, dy) = deinterleave_bits(z);
    assert_eq!(dx, x);
    assert_eq!(dy, y);
}

#[test]
fn test_hamming_distance() {
    assert_eq!(hamming_distance(0b1010, 0b1010), 0);
    assert_eq!(hamming_distance(0b1010, 0b0101), 4);
    assert_eq!(hamming_distance(0b1111, 0b0000), 4);
}

#[test]
fn test_bitboard_operations() {
    let a = Bitboard(0b1010);
    let b = Bitboard(0b1100);

    assert!(has_intersection(a, b));
    assert_eq!(intersection(a, b), Bitboard(0b1000));
    assert_eq!(union(a, b), Bitboard(0b1110));
    assert_eq!(symmetric_difference(a, b), Bitboard(0b0110));

    assert!(is_subset(Bitboard(0b1010), Bitboard(0b1111)));
    assert!(!is_subset(Bitboard(0b1010), Bitboard(0b0101)));

    assert!(!is_empty(Bitboard(0b1010)));
    assert!(is_empty(Bitboard(0)));
}

#[test]
fn interleave_round_trips_on_full_words() {
    let z = interleave_bits(0xFFFF_FFFF, 0);
    assert_eq!(z, 0x5555_5555_5555_5555);
    let z = interleave_bits(0, 0xFFFF_FFFF);
    assert_eq!(z, 0xAAAA_AAAA_AAAA_AAAA);
    assert_eq!(deinterleave_bits(0xFFFF_FFFF_FFFF_FFFF), (0xFFFF_FFFF, 0xFFFF_FFFF));
    assert_eq!(deinterleave_bits(interleave_bits(0xDEAD_BEEF, 0x1234_5678)), (0xDEAD_BEEF, 0x1234_5678));
}

#[test]
fn index_of_lowest_and_highest_bit() {
    assert_eq!(lsb_index(0), 64);
    assert_eq!(lsb_index(0b1000), 3);
    assert_eq!(msb_index(1), 0);
    assert_eq!(msb_index(0b1000), 3);
    assert_eq!(msb_index(0x8000_0000_0000_0000), 63);
}

#[test]
fn next_power_of_two_at_the_top() {
    assert_eq!(next_power_of_two(0x8000_0000_0000_0000), 0x8000_0000_0000_0000);
    assert_eq!(next_power_of_two(0x4000_0000_0000_0001), 0x8000_0000_0000_0000);
}

#[test]
fn reversing_and_swapping() {
    assert_eq!(reverse_bits(1), 0x8000_0000_0000_0000);
    assert_eq!(reverse_bits(0x0000_0000_0000_00F0), 0x0F00_0000_0000_0000);
    assert_eq!(swap_bytes(0x0102_0304_0506_0708), 0x0807_0605_0403_0201);
}

#[test]
fn rotating() {
    assert_eq!(rotate_left(0x8000_0000_0000_0001, 1), 0x0000_0000_0000_0003);
    assert_eq!(rotate_right(0x8000_0000_0000_0001, 1), 0xC000_0000_0000_0000);
    assert_eq!(rotate_left(0x1234, 64), 0x1234);
    assert_eq!(rotate_right(rotate_left(0xDEAD_BEEF, 13), 13), 0xDEAD_BEEF);
}

#[test]
fn extracting_and_depositing() {
    assert_eq!(extract_bits(0b1111_0110, 1, 3), 0b011);
    assert_eq!(extract_bits(0xFFFF_FFFF_FFFF_FFFF, 60, 63), 0xF);
    assert_eq!(extract_bits(0xFFFF_FFFF_FFFF_FFFF, 0, 200), 0xFFFF_FFFF_FFFF_FFFF);
    assert_eq!(extract_bits(0b1000, 4, 2), 0);
    assert_eq!(deposit_bits(0xFFFF, 0b101, 4), 0xFFDF);
    assert_eq!(deposit_bits(0, 0b11, 8), 0x300);
}

#[test]
fn counting_and_complement() {
    assert_eq!(popcount(0), 0);
    assert_eq!(popcount(0xF0F0), 8);
    assert_eq!(complement(Bitboard(0)).0, 0xFFFF_FFFF_FFFF_FFFF);
    assert_eq!(complement(Bitboard(0xFF)).0, 0xFFFF_FFFF_FFFF_FF00);
    assert!(!has_intersection(Bitboard(0b0101), Bitboard(0b1010)));
}
