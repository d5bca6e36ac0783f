//! Game-level queries: which piece sits on a clicked square, and the legal
//! destinations of a selected piece, dispatching on its kind.

use vstd::prelude::*;
use crate::bits::{has_sq, lemma_and_sq, lemma_not_sq};
use crate::masks::{
    bishop_mask, king_mask, king_move, knight_mask, knight_move, lemma_king_mask_sq,
    lemma_knight_mask_sq, pawn_attack_mask, pawn_move_mask, queen_mask, rook_mask,
};
use crate::player::{Color, Piece, Player};
use crate::resolver::{
    bishop_dest, pawn_dest, possible_moves_bishop, possible_moves_pawn, possible_moves_queen,
    possible_moves_rook, queen_dest, rook_dest,
};

verus! {

/// The legal destinations of `piece` standing on `s`: pawns advance onto
/// empty squares and capture diagonally, knights and kings reach their
/// static mask less their own side's squares, and the sliding pieces cast
/// blocker-cut rays.
pub open spec fn piece_dest(
    piece: Piece,
    whole: u64,
    friendly: u64,
    enemy: u64,
    s: int,
    j: int,
) -> bool {
    match piece {
        Piece::WhitePawn => pawn_dest(Color::White, whole, enemy, s, j),
        Piece::BlackPawn => pawn_dest(Color::Black, whole, enemy, s, j),
        Piece::WhiteKnight | Piece::BlackKnight => knight_move(s, j) && !has_sq(friendly, j),
        Piece::WhiteKing | Piece::BlackKing => king_move(s, j) && !has_sq(friendly, j),
        Piece::WhiteBishop | Piece::BlackBishop => bishop_dest(s, whole, enemy, j),
        Piece::WhiteQueen | Piece::BlackQueen => queen_dest(s, whole, enemy, j),
        Piece::WhiteRook | Piece::BlackRook => rook_dest(s, whole, enemy, j),
    }
}

/// The legal destinations of `selected_piece` on `board_index`, given the
/// occupancies and the precomputed mask tables.
pub fn get_possible_moves(
    selected_piece: Piece,
    whole_bitboard: u64,
    friendly_bitboard: u64,
    enemy_bitboard: u64,
    board_index: usize,
    all_pawn_moves_white: &Vec<u64>,
    all_pawn_attack_moves_white: &Vec<u64>,
    all_pawn_moves_black: &Vec<u64>,
    all_pawn_attack_moves_black: &Vec<u64>,
    all_knight_moves: &Vec<u64>,
    all_bishop_moves: &Vec<u64>,
    all_rook_moves: &Vec<u64>,
    all_queen_moves: &Vec<u64>,
    all_king_moves: &Vec<u64>,
) -> (r: u64)
    requires
        board_index < 64,
        all_pawn_moves_white@.len() == 64,
        all_pawn_attack_moves_white@.len() == 64,
        all_pawn_moves_black@.len() == 64,
        all_pawn_attack_moves_black@.len() == 64,
        all_knight_moves@.len() == 64,
        all_bishop_moves@.len() == 64,
        all_rook_moves@.len() == 64,
        all_queen_moves@.len() == 64,
        all_king_moves@.len() == 64,
        all_pawn_moves_white@[board_index as int] == pawn_move_mask(
            Color::White,
            board_index as int,
        ),
        all_pawn_attack_moves_white@[board_index as int] == pawn_attack_mask(
            Color::White,
            board_index as int,
        ),
        all_pawn_moves_black@[board_index as int] == pawn_move_mask(
            Color::Black,
            board_index as int,
        ),
        all_pawn_attack_moves_black@[board_index as int] == pawn_attack_mask(
            Color::Black,
            board_index as int,
        ),
        all_knight_moves@[board_index as int] == knight_mask(board_index as int),
        all_bishop_moves@[board_index as int] == bishop_mask(board_index as int),
        all_rook_moves@[board_index as int] == rook_mask(board_index as int),
        all_queen_moves@[board_index as int] == queen_mask(board_index as int),
        all_king_moves@[board_index as int] == king_mask(board_index as int),
    ensures
        forall|j: int|
            #[trigger] has_sq(r, j) <==> piece_dest(
                selected_piece,
                whole_bitboard,
                friendly_bitboard,
                enemy_bitboard,
                board_index as int,
                j,
            ),
{
    let ghost s = board_index as int;
    match selected_piece {
        Piece::WhitePawn => possible_moves_pawn(
            Color::White,
            enemy_bitboard,
            whole_bitboard,
            all_pawn_moves_white,
            all_pawn_attack_moves_white,
            board_index,
        ),
        Piece::BlackPawn => possible_moves_pawn(
            Color::Black,
            enemy_bitboard,
            whole_bitboard,
            all_pawn_moves_black,
            all_pawn_attack_moves_black,
            board_index,
        ),
        Piece::WhiteKnight | Piece::BlackKnight => {
            let r = all_knight_moves[board_index] & !friendly_bitboard;
            proof {
                assert forall|j: int| #[trigger] has_sq(r, j) <==> (knight_move(s, j) && !has_sq(
                    friendly_bitboard,
                    j,
                )) by {
                    lemma_and_sq(knight_mask(s), !friendly_bitboard, j);
                    lemma_knight_mask_sq(s, j);
                    if 0 <= j < 64 {
                        lemma_not_sq(friendly_bitboard, j);
                    }
                }
            }
            r
        },
        Piece::WhiteKing | Piece::BlackKing => {
            let r = all_king_moves[board_index] & !friendly_bitboard;
            proof {
                assert forall|j: int| #[trigger] has_sq(r, j) <==> (king_move(s, j) && !has_sq(
                    friendly_bitboard,
                    j,
                )) by {
                    lemma_and_sq(king_mask(s), !friendly_bitboard, j);
                    lemma_king_mask_sq(s, j);
                    if 0 <= j < 64 {
                        lemma_not_sq(friendly_bitboard, j);
                    }
                }
            }
            r
        },
        Piece::WhiteBishop | Piece::BlackBishop => possible_moves_bishop(
            enemy_bitboard,
            whole_bitboard,
            all_bishop_moves,
            board_index,
        ),
        Piece::WhiteQueen | Piece::BlackQueen => possible_moves_queen(
            enemy_bitboard,
            whole_bitboard,
            all_queen_moves,
            board_index,
        ),
        Piece::WhiteRook | Piece::BlackRook => possible_moves_rook(
            enemy_bitboard,
            whole_bitboard,
            all_rook_moves,
            board_index,
        ),
    }
}

/// The per-kind boards of both sides, in the order `get_square_info` probes
/// them: white's pawns through king, then black's.
pub open spec fn square_candidates(white_player: Player, black_player: Player) -> Seq<
    (Color, Piece, u64),
> {
    seq![
        (Color::White, Piece::WhitePawn, white_player.pawn_bitboard),
        (Color::White, Piece::WhiteKnight, white_player.knight_bitboard),
        (Color::White, Piece::WhiteBishop, white_player.bishop_bitboard),
        (Color::White, Piece::WhiteRook, white_player.rook_bitboard),
        (Color::White, Piece::WhiteQueen, white_player.queen_bitboard),
        (Color::White, Piece::WhiteKing, white_player.king_bitboard),
        (Color::Black, Piece::BlackPawn, black_player.pawn_bitboard),
        (Color::Black, Piece::BlackKnight, black_player.knight_bitboard),
        (Color::Black, Piece::BlackBishop, black_player.bishop_bitboard),
        (Color::Black, Piece::BlackRook, black_player.rook_bitboard),
        (Color::Black, Piece::BlackQueen, black_player.queen_bitboard),
        (Color::Black, Piece::BlackKing, black_player.king_bitboard),
    ]
}

/// Which piece stands on the selected square: the first of the twelve
/// per-kind boards, white's before black's, that intersects it, together
/// with its side and its whole board; `None` when no board intersects it.
pub fn get_square_info(
    selected_square_bitboard: u64,
    white_player: &Player,
    black_player: &Player,
) -> (r: Option<(Color, Piece, u64)>)
    ensures
        ({
            let cands = square_candidates(*white_player, *black_player);
            match r {
                Option::None => forall|k: int|
                    0 <= k < 12 ==> selected_square_bitboard & (#[trigger] cands[k]).2 == 0,
                Option::Some(t) => exists|k: int|
                    0 <= k < 12 && (#[trigger] cands[k]) == t && selected_square_bitboard & t.2 != 0
                        && (forall|n: int|
                        0 <= n < k ==> selected_square_bitboard & (#[trigger] cands[n]).2 == 0),
            }
        }),
{
    let ghost cands = square_candidates(*white_player, *black_player);
    if selected_square_bitboard & white_player.pawn_bitboard > 0 {
        proof {
            assert(cands[0] == (Color::White, Piece::WhitePawn, white_player.pawn_bitboard));
        }
        Some((Color::White, Piece::WhitePawn, white_player.pawn_bitboard))
    } else if selected_square_bitboard & white_player.knight_bitboard > 0 {
        proof {
            assert(cands[1] == (Color::White, Piece::WhiteKnight, white_player.knight_bitboard));
        }
        Some((Color::White, Piece::WhiteKnight, white_player.knight_bitboard))
    } else if selected_square_bitboard & white_player.bishop_bitboard > 0 {
        proof {
            assert(cands[2] == (Color::White, Piece::WhiteBishop, white_player.bishop_bitboard));
        }
        Some((Color::White, Piece::WhiteBishop, white_player.bishop_bitboard))
    } else if selected_square_bitboard & white_player.rook_bitboard > 0 {
        proof {
            assert(cands[3] == (Color::White, Piece::WhiteRook, white_player.rook_bitboard));
        }
        Some((Color::White, Piece::WhiteRook, white_player.rook_bitboard))
    } else if selected_square_bitboard & white_player.queen_bitboard > 0 {
        proof {
            assert(cands[4] == (Color::White, Piece::WhiteQueen, white_player.queen_bitboard));
        }
        Some((Color::White, Piece::WhiteQueen, white_player.queen_bitboard))
    } else if selected_square_bitboard & white_player.king_bitboard > 0 {
        proof {
            assert(cands[5] == (Color::White, Piece::WhiteKing, white_player.king_bitboard));
        }
        Some((Color::White, Piece::WhiteKing, white_player.king_bitboard))
    } else if selected_square_bitboard & black_player.pawn_bitboard > 0 {
        proof {
            assert(cands[6] == (Color::Black, Piece::BlackPawn, black_player.pawn_bitboard));
        }
        Some((Color::Black, Piece::BlackPawn, black_player.pawn_bitboard))
    } else if selected_square_bitboard & black_player.knight_bitboard > 0 {
        proof {
            assert(cands[7] == (Color::Black, Piece::BlackKnight, black_player.knight_bitboard));
        }
        Some((Color::Black, Piece::BlackKnight, black_player.knight_bitboard))
    } else if selected_square_bitboard & black_player.bishop_bitboard > 0 {
        proof {
            assert(cands[8] == (Color::Black, Piece::BlackBishop, black_player.bishop_bitboard));
        }
        Some((Color::Black, Piece::BlackBishop, black_player.bishop_bitboard))
    } else if selected_square_bitboard & black_player.rook_bitboard > 0 {
        proof {
            assert(cands[9] == (Color::Black, Piece::BlackRook, black_player.rook_bitboard));
        }
        Some((Color::Black, Piece::BlackRook, black_player.rook_bitboard))
    } else if selected_square_bitboard & black_player.queen_bitboard > 0 {
        proof {
            assert(cands[10] == (Color::Black, Piece::BlackQueen, black_player.queen_bitboard));
        }
        Some((Color::Black, Piece::BlackQueen, black_player.queen_bitboard))
    } else if selected_square_bitboard & black_player.king_bitboard > 0 {
        proof {
            assert(cands[11] == (Color::Black, Piece::BlackKing, black_player.king_bitboard));
        }
        Some((Color::Black, Piece::BlackKing, black_player.king_bitboard))
    } else {
        proof {
            assert forall|k: int|
                0 <= k < 12 implies selected_square_bitboard & (#[trigger] cands[k]).2 == 0 by {
                assert(cands[0].2 == white_player.pawn_bitboard);
                assert(cands[1].2 == white_player.knight_bitboard);
                assert(cands[2].2 == white_player.bishop_bitboard);
                assert(cands[3].2 == white_player.rook_bitboard);
                assert(cands[4].2 == white_player.queen_bitboard);
                assert(cands[5].2 == white_player.king_bitboard);
                assert(cands[6].2 == black_player.pawn_bitboard);
                assert(cands[7].2 == black_player.knight_bitboard);
                assert(cands[8].2 == black_player.bishop_bitboard);
                assert(cands[9].2 == black_player.rook_bitboard);
                assert(cands[10].2 == black_player.queen_bitboard);
                assert(cands[11].2 == black_player.king_bitboard);
            }
        }
        None
    }
}

} // verus!
