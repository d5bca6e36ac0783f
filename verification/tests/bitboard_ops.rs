use chess_engine::bitboard::{Bitboard, Direction, FILE_A, FILE_H, RANK_1, RANK_8};
use chess_engine::printer::{bitboard_rows, to_2d_coordinates};

#[test]
fn shift_moves_single_bits() {
    let a1: u64 = 1 << 0;
    assert_eq!(a1.shift(Direction::Up), 1 << 8);
    assert_eq!(a1.shift(Direction::Right), 1 << 1);
    assert_eq!(a1.shift(Direction::UpRight), 1 << 9);
    let e4: u64 = 1 << 28;
    assert_eq!(e4.shift(Direction::Down), 1 << 20);
    assert_eq!(e4.shift(Direction::Left), 1 << 27);
    assert_eq!(e4.shift(Direction::DownLeft), 1 << 19);
    assert_eq!(e4.shift(Direction::DownRight), 1 << 21);
    assert_eq!(e4.shift(Direction::UpLeft), 1 << 35);
}

#[test]
fn shift_off_edge_vanishes() {
    let h1: u64 = 1 << 7;
    assert_eq!(h1.shift(Direction::Right), 0);
    assert_eq!(h1.shift(Direction::UpRight), 0);
    assert_eq!(h1.shift(Direction::DownRight), 0);
    let a1: u64 = 1 << 0;
    assert_eq!(a1.shift(Direction::Left), 0);
    assert_eq!(a1.shift(Direction::Down), 0);
    assert_eq!(a1.shift(Direction::DownLeft), 0);
    let a8: u64 = 1 << 56;
    assert_eq!(a8.shift(Direction::Up), 0);
    assert_eq!(a8.shift(Direction::UpLeft), 0);
    assert_eq!(FILE_H.shift(Direction::Right), 0);
    assert_eq!(FILE_A.shift(Direction::Left), 0);
    assert_eq!(RANK_8.shift(Direction::Up), 0);
    assert_eq!(RANK_1.shift(Direction::Down), 0);
}

#[test]
fn shift_never_wraps_around() {
    // A full board shifted right must lose exactly file A's worth of bits.
    let full: u64 = u64::MAX;
    assert_eq!(full.shift(Direction::Right), full & !FILE_A);
    assert_eq!(full.shift(Direction::Left), full & !FILE_H);
}

#[test]
fn flip_over_horizontal_values() {
    assert_eq!(0xff00u64.flip_over_horizontal(), 0x00ff000000000000);
    assert_eq!((1u64 << 0).flip_over_horizontal(), 1 << 56);
    assert_eq!((1u64 << 7).flip_over_horizontal(), 1 << 63);
}

#[test]
fn flip_over_vertical_values() {
    assert_eq!((1u64 << 0).flip_over_vertical(), 1 << 7);
    assert_eq!((1u64 << 56).flip_over_vertical(), 1 << 63);
    assert_eq!(FILE_A.flip_over_vertical(), FILE_H);
}

#[test]
fn flip_diagonal_values() {
    // a1 and h8 lie on the long diagonal and stay put.
    assert_eq!((1u64 << 0).flip_diagonal_a8_h1(), 1 << 0);
    assert_eq!((1u64 << 63).flip_diagonal_a8_h1(), 1 << 63);
    // a2 (file 0, rank 1) trades places with b1 (file 1, rank 0).
    assert_eq!((1u64 << 8).flip_diagonal_a8_h1(), 1 << 1);
    assert_eq!((1u64 << 1).flip_diagonal_a8_h1(), 1 << 8);
}

#[test]
fn flips_are_involutions() {
    let samples: [u64; 5] = [0, u64::MAX, 0x1234_5678_9abc_def0, 1 << 28, 0xff00];
    for b in samples {
        assert_eq!(b.flip_over_horizontal().flip_over_horizontal(), b);
        assert_eq!(b.flip_over_vertical().flip_over_vertical(), b);
        assert_eq!(b.flip_diagonal_a8_h1().flip_diagonal_a8_h1(), b);
    }
}

#[test]
fn rotate_four_times_is_identity() {
    let samples: [u64; 5] = [0, u64::MAX, 0x1234_5678_9abc_def0, 1 << 28, 0xff00];
    for b in samples {
        let r4 = b
            .rotate_90_clockwise()
            .rotate_90_clockwise()
            .rotate_90_clockwise()
            .rotate_90_clockwise();
        assert_eq!(r4, b);
    }
}

#[test]
fn rotate_sends_h1_to_a1() {
    assert_eq!((1u64 << 7).rotate_90_clockwise(), 1 << 0);
    assert_eq!((1u64 << 0).rotate_90_clockwise(), 1 << 56);
}

#[test]
fn bitboard_rows_reads_rank_8_first() {
    let rows = bitboard_rows(1 << 0);
    assert_eq!(rows.len(), 8);
    assert_eq!(rows[7], "10000000");
    assert_eq!(rows[0], "00000000");
    let rows = bitboard_rows(1 << 56);
    assert_eq!(rows[0], "10000000");
    let rows = bitboard_rows(1 << 7);
    assert_eq!(rows[7], "00000001");
    let rows = bitboard_rows(0xff00);
    assert_eq!(rows[6], "11111111");
}

#[test]
fn to_2d_coordinates_lists_set_squares() {
    let coords = to_2d_coordinates((1 << 0) | (1 << 8) | (1 << 9));
    assert_eq!(coords, vec![(0, 0), (0, 1), (1, 1)]);
    assert_eq!(to_2d_coordinates(0), vec![]);
    assert_eq!(to_2d_coordinates(1 << 63), vec![(7, 7)]);
}
