use chess_engine::bitboard::{Bitboard, FILE_A, RANK_1};
use chess_engine::masks::{
    generate_attack_masks_pawn, generate_move_masks_bishop, generate_move_masks_king,
    generate_move_masks_knight, generate_move_masks_pawn, generate_move_masks_queen,
    generate_move_masks_rook,
};

fn bb(squares: &[u32]) -> u64 {
    squares.iter().fold(0u64, |acc, s| acc | (1u64 << s))
}

#[test]
fn knight_mask_center_has_eight_destinations() {
    let masks = generate_move_masks_knight();
    // d4 is index 27: all eight jumps stay on the board.
    let expected = bb(&[10, 12, 17, 21, 33, 37, 42, 44]);
    assert_eq!(masks[27], expected);
    assert_eq!(masks[27].count_ones(), 8);
}

#[test]
fn knight_mask_corner_has_two_destinations() {
    let masks = generate_move_masks_knight();
    assert_eq!(masks[0], bb(&[10, 17]));
}

#[test]
fn king_mask_corner_and_center() {
    let masks = generate_move_masks_king();
    assert_eq!(masks[0], bb(&[1, 8, 9]));
    assert_eq!(masks[27], bb(&[18, 19, 20, 26, 28, 34, 35, 36]));
}

#[test]
fn rook_mask_corner_is_rank_and_file_minus_origin() {
    let masks = generate_move_masks_rook();
    let expected = (RANK_1 | FILE_A) & !1u64;
    assert_eq!(masks[0], expected);
    assert_eq!(masks[0].count_ones(), 14);
}

#[test]
fn bishop_mask_center_covers_both_diagonals() {
    let masks = generate_move_masks_bishop();
    // d4 (index 27): a1-h8 diagonal plus the a7-g1 anti-diagonal, origin excluded.
    let expected = bb(&[0, 9, 18, 36, 45, 54, 63, 48, 41, 34, 20, 13, 6]);
    assert_eq!(masks[27], expected);
}

#[test]
fn queen_mask_is_rook_or_bishop_everywhere() {
    let rook = generate_move_masks_rook();
    let bishop = generate_move_masks_bishop();
    let queen = generate_move_masks_queen();
    for i in 0..64 {
        assert_eq!(queen[i], rook[i] | bishop[i]);
    }
}

#[test]
fn white_pawn_moves_single_and_double() {
    let tables = generate_move_masks_pawn();
    let white = &tables[0];
    // a2 (index 8) may advance one or two ranks.
    assert_eq!(white[8], bb(&[16, 24]));
    // a3 (index 16) only one.
    assert_eq!(white[16], bb(&[24]));
    // e7 (index 52) one step to e8.
    assert_eq!(white[52], bb(&[60]));
    // e8 (index 60): no squares ahead.
    assert_eq!(white[60], 0);
}

#[test]
fn black_pawn_moves_single_and_double() {
    let tables = generate_move_masks_pawn();
    let black = &tables[1];
    // a7 (index 48) may advance down one or two ranks.
    assert_eq!(black[48], bb(&[40, 32]));
    // a6 (index 40) only one.
    assert_eq!(black[40], bb(&[32]));
    // e1 (index 4): no squares ahead.
    assert_eq!(black[4], 0);
}

#[test]
fn black_pawn_table_mirrors_white() {
    let moves = generate_move_masks_pawn();
    let attacks = generate_attack_masks_pawn();
    for i in 0..64usize {
        let mirror = (7 - i / 8) * 8 + i % 8;
        assert_eq!(moves[1][i], moves[0][mirror].flip_over_horizontal());
        assert_eq!(attacks[1][i], attacks[0][mirror].flip_over_horizontal());
    }
}

#[test]
fn pawn_attack_masks_hit_both_diagonals() {
    let attacks = generate_attack_masks_pawn();
    // e2 (index 12) attacks d3 and f3.
    assert_eq!(attacks[0][12], bb(&[19, 21]));
    // a2 (index 8) only b3: the other diagonal leaves the board.
    assert_eq!(attacks[0][8], bb(&[17]));
    // h7 (index 55) for black: only g6.
    assert_eq!(attacks[1][55], bb(&[46]));
}

#[test]
fn rook_masks_have_fourteen_squares_everywhere() {
    let masks = generate_move_masks_rook();
    for i in 0..64 {
        assert_eq!(masks[i].count_ones(), 14);
        assert_eq!(masks[i] & (1u64 << i), 0);
    }
}

#[test]
fn bishop_mask_corner_is_the_long_diagonal() {
    let masks = generate_move_masks_bishop();
    assert_eq!(masks[0], bb(&[9, 18, 27, 36, 45, 54, 63]));
    assert_eq!(masks[63], bb(&[0, 9, 18, 27, 36, 45, 54]));
}

#[test]
fn king_mask_sizes_by_position() {
    let masks = generate_move_masks_king();
    assert_eq!(masks[0].count_ones(), 3);
    assert_eq!(masks[4].count_ones(), 5);
    assert_eq!(masks[27].count_ones(), 8);
}

#[test]
fn pawn_attack_on_rook_file_hits_one_square() {
    let attacks = generate_attack_masks_pawn();
    // h2 (index 15) attacks only g3 (index 22).
    assert_eq!(attacks[0][15], bb(&[22]));
}

