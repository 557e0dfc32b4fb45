use chess5dtools::bitboard::{bitboard_shift, get_bitboard_mask};

const X: u64 = 0b0100101000000100;

#[test]
fn shift_left_by_one_column() {
    assert_eq!(bitboard_shift(X, -1, 0, 4, 4), 0b0010010100000010);
}

#[test]
fn shift_right_by_one_column() {
    assert_eq!(bitboard_shift(X, 1, 0, 4, 4), 0b1000010000001000);
}

#[test]
fn shift_down_by_one_row() {
    assert_eq!(bitboard_shift(X, 0, 1, 4, 4), 0b1010000001000000);
}

#[test]
fn shift_up_by_one_row() {
    assert_eq!(bitboard_shift(X, 0, -1, 4, 4), 0b0000010010100000);
}

#[test]
fn mask_before_shift_right() {
    assert_eq!((X & get_bitboard_mask(4, 1)) << 1, 0b1000010000001000);
}

#[test]
fn shift_by_nothing_keeps_the_board_bits() {
    assert_eq!(bitboard_shift(X, 0, 0, 4, 4), X);
    assert_eq!(bitboard_shift(0xffff_ffff, 0, 0, 4, 4), 0xffff);
    assert_eq!(bitboard_shift(u64::MAX, 0, 0, 8, 8), u64::MAX);
}
