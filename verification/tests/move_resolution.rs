use chess_engine::masks::{
    generate_attack_masks_pawn, generate_move_masks_bishop, generate_move_masks_king,
    generate_move_masks_knight, generate_move_masks_pawn, generate_move_masks_queen,
    generate_move_masks_rook,
};
use chess_engine::moves::{get_possible_moves, get_square_info};
use chess_engine::player::{Color, Piece, Player};
use chess_engine::resolver::{
    possible_moves_bishop, possible_moves_pawn, possible_moves_queen, possible_moves_rook,
};

fn bb(squares: &[u32]) -> u64 {
    squares.iter().fold(0u64, |acc, s| acc | (1u64 << s))
}

#[test]
fn rook_captures_enemy_blocker_and_stops() {
    let rook_masks = generate_move_masks_rook();
    // Rook on a1; an enemy piece on a2; rank 1 otherwise free.
    let enemy = bb(&[8]);
    let whole = bb(&[0, 8]);
    let moves = possible_moves_rook(enemy, whole, &rook_masks, 0);
    assert_eq!(moves, bb(&[1, 2, 3, 4, 5, 6, 7, 8]));
}

#[test]
fn rook_stops_before_friendly_blocker() {
    let rook_masks = generate_move_masks_rook();
    // Rook on a1; an own piece on a2; rank 1 otherwise free.
    let enemy = 0;
    let whole = bb(&[0, 8]);
    let moves = possible_moves_rook(enemy, whole, &rook_masks, 0);
    assert_eq!(moves, bb(&[1, 2, 3, 4, 5, 6, 7]));
}

#[test]
fn rook_on_empty_board_sweeps_rank_and_file() {
    let rook_masks = generate_move_masks_rook();
    let moves = possible_moves_rook(0, bb(&[0]), &rook_masks, 0);
    assert_eq!(moves, rook_masks[0]);
}

#[test]
fn bishop_blocked_on_one_diagonal() {
    let bishop_masks = generate_move_masks_bishop();
    // Bishop on c1 (index 2); own pawn on b2 (index 9) blocks the up-left ray.
    let whole = bb(&[2, 9]);
    let moves = possible_moves_bishop(0, whole, &bishop_masks, 2);
    assert_eq!(moves, bb(&[11, 20, 29, 38, 47]));
}

#[test]
fn queen_combines_blocked_rays() {
    let queen_masks = generate_move_masks_queen();
    // Queen on a1; enemy on a3, friend on b2; rank 1 free.
    let enemy = bb(&[16]);
    let whole = bb(&[0, 16, 9]);
    let moves = possible_moves_queen(enemy, whole, &queen_masks, 0);
    assert_eq!(moves, bb(&[1, 2, 3, 4, 5, 6, 7, 8, 16]));
}

#[test]
fn pawn_advance_requires_empty_squares() {
    let moves = generate_move_masks_pawn();
    let attacks = generate_attack_masks_pawn();
    let white_moves = &moves[0];
    let white_attacks = &attacks[0];
    // Free board: a2 pawn advances one or two.
    let r = possible_moves_pawn(Color::White, 0, bb(&[8]), white_moves, white_attacks, 8);
    assert_eq!(r, bb(&[16, 24]));
    // a4 occupied: only the single step stays.
    let r = possible_moves_pawn(Color::White, 0, bb(&[8, 24]), white_moves, white_attacks, 8);
    assert_eq!(r, bb(&[16]));
    // a3 occupied: the pawn cannot advance at all, not even two squares.
    let r = possible_moves_pawn(Color::White, 0, bb(&[8, 16]), white_moves, white_attacks, 8);
    assert_eq!(r, 0);
}

#[test]
fn pawn_captures_only_enemy_pieces() {
    let moves = generate_move_masks_pawn();
    let attacks = generate_attack_masks_pawn();
    // e2 pawn; enemies on d3 and e3; e3 blocks the advance but cannot be taken.
    let enemy = bb(&[19, 20]);
    let whole = bb(&[12, 19, 20]);
    let r = possible_moves_pawn(Color::White, enemy, whole, &moves[0], &attacks[0], 12);
    assert_eq!(r, bb(&[19]));
    // Black pawn on d7 (index 51) captures c6 (42), blocked ahead by d6 (43).
    let enemy = bb(&[42, 43]);
    let whole = bb(&[51, 42, 43]);
    let r = possible_moves_pawn(Color::Black, enemy, whole, &moves[1], &attacks[1], 51);
    assert_eq!(r, bb(&[42]));
}

#[test]
fn knight_and_king_exclude_their_own_side() {
    let pawn_moves = generate_move_masks_pawn();
    let pawn_attacks = generate_attack_masks_pawn();
    let knight_masks = generate_move_masks_knight();
    let bishop_masks = generate_move_masks_bishop();
    let rook_masks = generate_move_masks_rook();
    let queen_masks = generate_move_masks_queen();
    let king_masks = generate_move_masks_king();
    // Knight on b1; own pawns on a3 and d2; enemy on c3.
    let friendly = bb(&[1, 16, 11]);
    let enemy = bb(&[18]);
    let whole = friendly | enemy;
    let r = get_possible_moves(
        Piece::WhiteKnight,
        whole,
        friendly,
        enemy,
        1,
        &pawn_moves[0],
        &pawn_attacks[0],
        &pawn_moves[1],
        &pawn_attacks[1],
        &knight_masks,
        &bishop_masks,
        &rook_masks,
        &queen_masks,
        &king_masks,
    );
    assert_eq!(r, bb(&[18]));
    // King on e1; own pawn on e2; the rest of the ring is open.
    let friendly = bb(&[4, 12]);
    let r = get_possible_moves(
        Piece::WhiteKing,
        friendly,
        friendly,
        0,
        4,
        &pawn_moves[0],
        &pawn_attacks[0],
        &pawn_moves[1],
        &pawn_attacks[1],
        &knight_masks,
        &bishop_masks,
        &rook_masks,
        &queen_masks,
        &king_masks,
    );
    assert_eq!(r, bb(&[3, 5, 11, 13]));
}

#[test]
fn initial_players_have_standard_setup() {
    let white = Player::new(Color::White);
    assert_eq!(white.pawn_bitboard, 0xff00);
    assert_eq!(white.knight_bitboard, 0x42);
    assert_eq!(white.bishop_bitboard, 0x24);
    assert_eq!(white.rook_bitboard, 0x81);
    assert_eq!(white.queen_bitboard, 0x08);
    assert_eq!(white.king_bitboard, 0x10);
    assert_eq!(white.all_bitboards(), 0xffff);
    let black = Player::new(Color::Black);
    assert_eq!(black.pawn_bitboard, 0x00ff_0000_0000_0000);
    assert_eq!(black.knight_bitboard, 0x4200_0000_0000_0000);
    assert_eq!(black.bishop_bitboard, 0x2400_0000_0000_0000);
    assert_eq!(black.rook_bitboard, 0x8100_0000_0000_0000);
    assert_eq!(black.queen_bitboard, 0x0800_0000_0000_0000);
    assert_eq!(black.king_bitboard, 0x1000_0000_0000_0000);
    assert_eq!(black.all_bitboards(), 0xffff_0000_0000_0000);
}

#[test]
fn as_pieces_lists_every_piece_with_coordinates() {
    let white = Player::new(Color::White);
    let pieces = white.as_pieces();
    assert_eq!(pieces.len(), 16);
    assert_eq!(pieces[0], (Piece::WhitePawn, 0, 1));
    assert_eq!(pieces[7], (Piece::WhitePawn, 7, 1));
    assert_eq!(pieces[8], (Piece::WhiteKnight, 1, 0));
    assert_eq!(pieces[9], (Piece::WhiteKnight, 6, 0));
    assert_eq!(pieces[14], (Piece::WhiteQueen, 3, 0));
    assert_eq!(pieces[15], (Piece::WhiteKing, 4, 0));
    let black = Player::new(Color::Black);
    let pieces = black.as_pieces();
    assert_eq!(pieces.len(), 16);
    assert_eq!(pieces[0], (Piece::BlackPawn, 0, 6));
    assert_eq!(pieces[15], (Piece::BlackKing, 4, 7));
}

#[test]
fn get_square_info_finds_the_piece_on_a_square() {
    let white = Player::new(Color::White);
    let black = Player::new(Color::Black);
    let r = get_square_info(1 << 0, &white, &black);
    assert_eq!(r, Some((Color::White, Piece::WhiteRook, white.rook_bitboard)));
    let r = get_square_info(1 << 4, &white, &black);
    assert_eq!(r, Some((Color::White, Piece::WhiteKing, white.king_bitboard)));
    let r = get_square_info(1 << 59, &white, &black);
    assert_eq!(r, Some((Color::Black, Piece::BlackQueen, black.queen_bitboard)));
    let r = get_square_info(1 << 52, &white, &black);
    assert_eq!(r, Some((Color::Black, Piece::BlackPawn, black.pawn_bitboard)));
    assert_eq!(get_square_info(1 << 32, &white, &black), None);
}

#[test]
fn queen_on_empty_board_sweeps_its_whole_mask() {
    let queen_masks = generate_move_masks_queen();
    let moves = possible_moves_queen(0, bb(&[27]), &queen_masks, 27);
    assert_eq!(moves, queen_masks[27]);
}

#[test]
fn rook_hemmed_in_by_friends_cannot_move() {
    let rook_masks = generate_move_masks_rook();
    // Rook on a1 with own pieces on a2 and b1.
    let whole = bb(&[0, 8, 1]);
    let moves = possible_moves_rook(0, whole, &rook_masks, 0);
    assert_eq!(moves, 0);
}

