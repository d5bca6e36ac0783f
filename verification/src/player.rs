//! One side's pieces: six per-kind occupancy boards plus the side's color.

use vstd::prelude::*;
use crate::bitboard::{flipped_horizontal, Bitboard};
use crate::bits::has_sq;

verus! {

#[derive(Clone, Copy, Debug, PartialEq, Eq, Structural)]
pub enum Color {
    White,
    Black,
}

#[derive(Hash, PartialEq, Eq, Structural, Clone, Copy, Debug)]
pub enum Piece {
    WhitePawn,
    WhiteKnight,
    WhiteBishop,
    WhiteRook,
    WhiteQueen,
    WhiteKing,
    BlackPawn,
    BlackKnight,
    BlackBishop,
    BlackRook,
    BlackQueen,
    BlackKing,
}

/// The pawn piece of the given side, and likewise below for the other kinds.
pub open spec fn pawn_piece(c: Color) -> Piece {
    match c {
        Color::White => Piece::WhitePawn,
        Color::Black => Piece::BlackPawn,
    }
}

pub open spec fn knight_piece(c: Color) -> Piece {
    match c {
        Color::White => Piece::WhiteKnight,
        Color::Black => Piece::BlackKnight,
    }
}

pub open spec fn bishop_piece(c: Color) -> Piece {
    match c {
        Color::White => Piece::WhiteBishop,
        Color::Black => Piece::BlackBishop,
    }
}

pub open spec fn rook_piece(c: Color) -> Piece {
    match c {
        Color::White => Piece::WhiteRook,
        Color::Black => Piece::BlackRook,
    }
}

pub open spec fn queen_piece(c: Color) -> Piece {
    match c {
        Color::White => Piece::WhiteQueen,
        Color::Black => Piece::BlackQueen,
    }
}

pub open spec fn king_piece(c: Color) -> Piece {
    match c {
        Color::White => Piece::WhiteKing,
        Color::Black => Piece::BlackKing,
    }
}

/// White's starting pawns stand on rank 2; black's board is white's mirrored
/// top-bottom, and likewise below for the other kinds.
pub open spec fn initial_pawns(c: Color) -> u64 {
    match c {
        Color::White => 0xff00u64,
        Color::Black => flipped_horizontal(0xff00u64),
    }
}

pub open spec fn initial_knights(c: Color) -> u64 {
    match c {
        Color::White => 0x42u64,
        Color::Black => flipped_horizontal(0x42u64),
    }
}

pub open spec fn initial_bishops(c: Color) -> u64 {
    match c {
        Color::White => 0x24u64,
        Color::Black => flipped_horizontal(0x24u64),
    }
}

pub open spec fn initial_rooks(c: Color) -> u64 {
    match c {
        Color::White => 0x81u64,
        Color::Black => flipped_horizontal(0x81u64),
    }
}

pub open spec fn initial_queens(c: Color) -> u64 {
    match c {
        Color::White => 0x08u64,
        Color::Black => flipped_horizontal(0x08u64),
    }
}

pub open spec fn initial_kings(c: Color) -> u64 {
    match c {
        Color::White => 0x10u64,
        Color::Black => flipped_horizontal(0x10u64),
    }
}

pub struct Player {
    pub color: Color,
    pub pawn_bitboard: u64,
    pub knight_bitboard: u64,
    pub bishop_bitboard: u64,
    pub rook_bitboard: u64,
    pub queen_bitboard: u64,
    pub king_bitboard: u64,
}

/// The coordinate list of the squares of `bitboard` below square `n`, in
/// ascending square order: one `(piece, file, rank)` entry per set bit.
pub open spec fn coords_below(bitboard: u64, piece: Piece, n: int) -> Seq<(Piece, usize, usize)>
    decreases n,
{
    if n <= 0 {
        Seq::empty()
    } else {
        coords_below(bitboard, piece, n - 1) + (if has_sq(bitboard, n - 1) {
            seq![(piece, ((n - 1) % 8) as usize, ((n - 1) / 8) as usize)]
        } else {
            Seq::empty()
        })
    }
}

/// The coordinate list of all squares of `bitboard`.
pub open spec fn piece_coords(bitboard: u64, piece: Piece) -> Seq<(Piece, usize, usize)> {
    coords_below(bitboard, piece, 64)
}

/// What `Player::as_pieces` returns: the six kinds' coordinate lists, pawns
/// through king, each in ascending square order.
pub open spec fn as_pieces_view(p: Player) -> Seq<(Piece, usize, usize)> {
    piece_coords(p.pawn_bitboard, pawn_piece(p.color)) + piece_coords(
        p.knight_bitboard,
        knight_piece(p.color),
    ) + piece_coords(p.bishop_bitboard, bishop_piece(p.color)) + piece_coords(
        p.rook_bitboard,
        rook_piece(p.color),
    ) + piece_coords(p.queen_bitboard, queen_piece(p.color)) + piece_coords(
        p.king_bitboard,
        king_piece(p.color),
    )
}

fn push_piece_coords(acc: &mut Vec<(Piece, usize, usize)>, piece: Piece, bitboard: u64)
    ensures
        final(acc)@ == old(acc)@ + piece_coords(bitboard, piece),
{
    let mut i: usize = 0;
    while i < 64
        invariant
            i <= 64,
            acc@ == old(acc)@ + coords_below(bitboard, piece, i as int),
        decreases 64 - i,
    {
        let current = 1u64 << (i as u64);
        if bitboard & current > 0 {
            acc.push((piece, i % 8, i / 8));
        }
        i = i + 1;
        proof {
            assert(acc@ =~= old(acc)@ + coords_below(bitboard, piece, i as int));
        }
    }
    proof {
        assert(acc@ =~= old(acc)@ + piece_coords(bitboard, piece));
    }
}

impl Player {
    /// A side with every piece on its starting square.
    pub fn new(color: Color) -> (r: Player)
        ensures
            r.color == color,
            r.pawn_bitboard == initial_pawns(color),
            r.knight_bitboard == initial_knights(color),
            r.bishop_bitboard == initial_bishops(color),
            r.rook_bitboard == initial_rooks(color),
            r.queen_bitboard == initial_queens(color),
            r.king_bitboard == initial_kings(color),
    {
        let pawn_bitboard: u64 = 0b1111111100000000;
        let knight_bitboard: u64 = 0b01000010;
        let bishop_bitboard: u64 = 0b00100100;
        let rook_bitboard: u64 = 0b10000001;
        let king_bitboard: u64 = 0b00010000;
        let queen_bitboard: u64 = 0b00001000;

        match color {
            Color::White => Player {
                color,
                pawn_bitboard,
                knight_bitboard,
                bishop_bitboard,
                rook_bitboard,
                queen_bitboard,
                king_bitboard,
            },
            Color::Black => {
                let pawns = pawn_bitboard.flip_over_horizontal();
                let knights = knight_bitboard.flip_over_horizontal();
                let bishops = bishop_bitboard.flip_over_horizontal();
                let rooks = rook_bitboard.flip_over_horizontal();
                let queens = queen_bitboard.flip_over_horizontal();
                let kings = king_bitboard.flip_over_horizontal();
                Player {
                    color,
                    pawn_bitboard: pawns,
                    knight_bitboard: knights,
                    bishop_bitboard: bishops,
                    rook_bitboard: rooks,
                    queen_bitboard: queens,
                    king_bitboard: kings,
                }
            },
        }
    }

    /// The union of the side's six boards: every square this side occupies.
    pub fn all_bitboards(&self) -> (r: u64)
        ensures
            r == (self.pawn_bitboard | self.knight_bitboard | self.bishop_bitboard
                | self.rook_bitboard | self.queen_bitboard | self.king_bitboard),
    {
        self.pawn_bitboard | self.knight_bitboard | self.bishop_bitboard | self.rook_bitboard
            | self.queen_bitboard | self.king_bitboard
    }

    /// Every piece of this side as a `(piece, file, rank)` triple, listed by
    /// kind (pawns through king) and by square within each kind.
    pub fn as_pieces(&self) -> (r: Vec<(Piece, usize, usize)>)
        ensures
            r@ == as_pieces_view(*self),
    {
        let mut piece_coords: Vec<(Piece, usize, usize)> = Vec::new();
        let (pawn, knight, bishop, rook, queen, king) = match self.color {
            Color::White => (
                Piece::WhitePawn,
                Piece::WhiteKnight,
                Piece::WhiteBishop,
                Piece::WhiteRook,
                Piece::WhiteQueen,
                Piece::WhiteKing,
            ),
            Color::Black => (
                Piece::BlackPawn,
                Piece::BlackKnight,
                Piece::BlackBishop,
                Piece::BlackRook,
                Piece::BlackQueen,
                Piece::BlackKing,
            ),
        };
        push_piece_coords(&mut piece_coords, pawn, self.pawn_bitboard);
        push_piece_coords(&mut piece_coords, knight, self.knight_bitboard);
        push_piece_coords(&mut piece_coords, bishop, self.bishop_bitboard);
        push_piece_coords(&mut piece_coords, rook, self.rook_bitboard);
        push_piece_coords(&mut piece_coords, queen, self.queen_bitboard);
        push_piece_coords(&mut piece_coords, king, self.king_bitboard);
        proof {
            assert(piece_coords@ =~= as_pieces_view(*self));
        }
        piece_coords
    }
}

} // verus!
