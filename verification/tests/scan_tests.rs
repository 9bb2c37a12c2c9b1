use m4k::scan::{
    bitscan_forward, bitscan_reverse, lsb, neon_and_array, neon_or_array, pdep_neon, pext_neon,
    popcnt, reset_lsb,
};

#[test]
fn test_popcnt() {
    assert_eq!(popcnt(0), 0);
    assert_eq!(popcnt(0xFF), 8);
    assert_eq!(popcnt(0xFFFF_FFFF_FFFF_FFFF), 64);
    assert_eq!(popcnt(0b1010_1010), 4);
}

#[test]
fn test_bitscan_forward() {
    assert_eq!(bitscan_forward(0), 64);
    assert_eq!(bitscan_forward(1), 0);
    assert_eq!(bitscan_forward(0b1000), 3);
    assert_eq!(bitscan_forward(0xFF00), 8);
}

#[test]
fn test_bitscan_reverse() {
    assert_eq!(bitscan_reverse(0), 64);
    assert_eq!(bitscan_reverse(1), 0);
    assert_eq!(bitscan_reverse(0b1000), 3);
    assert_eq!(bitscan_reverse(0xFF), 7);
}

#[test]
fn test_lsb_operations() {
    let x = 0b1011_0000;
    assert_eq!(lsb(x), 0b0001_0000);
    assert_eq!(reset_lsb(x), 0b1010_0000);
}

#[test]
fn lsb_and_reset_lsb_of_zero() {
    assert_eq!(lsb(0), 0);
    assert_eq!(reset_lsb(0), 0);
    assert_eq!(lsb(0x8000_0000_0000_0000), 0x8000_0000_0000_0000);
}

#[test]
fn pdep_spreads_low_bits_over_the_mask() {
    assert_eq!(pdep_neon(0b101, 0b1101_0000), 0b1001_0000);
    assert_eq!(pdep_neon(0b111, 0b1101_0000), 0b1101_0000);
    assert_eq!(pdep_neon(0xFFFF, 0), 0);
    assert_eq!(pdep_neon(0b10, 0x8000_0000_0000_0001), 0x8000_0000_0000_0000);
}

#[test]
fn pext_packs_masked_bits() {
    assert_eq!(pext_neon(0b1001_0000, 0b1101_0000), 0b101);
    assert_eq!(pext_neon(0xFFFF_FFFF_FFFF_FFFF, 0b1101_0000), 0b111);
    assert_eq!(pext_neon(0x1234, 0), 0);
}

#[test]
fn pext_undoes_pdep_on_every_small_subset() {
    let mask = 0x0000_1020_4400_0810u64;
    let bits = popcnt(mask);
    for i in 0..(1u64 << bits) {
        let spread = pdep_neon(i, mask);
        assert_eq!(spread & !mask, 0);
        assert_eq!(pext_neon(spread, mask), i);
    }
}

#[test]
fn four_sets_are_joined_and_met() {
    let sets = [0x0000_0000_0000_00F1, 0x0000_0000_0000_0F01, 0x0000_0000_000F_0001, 0x8000_0000_0000_0011];
    assert_eq!(neon_or_array(&sets), 0x8000_0000_000F_0FF1);
    assert_eq!(neon_and_array(&sets), 0x0000_0000_0000_0001);
    assert_eq!(neon_or_array(&[0, 0, 0, 0]), 0);
    assert_eq!(neon_and_array(&[u64::MAX, u64::MAX, u64::MAX, 0]), 0);
    assert_eq!(neon_and_array(&[u64::MAX; 4]), u64::MAX);
}
