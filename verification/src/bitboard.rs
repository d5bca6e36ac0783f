//! The 64-bit board representation: square geometry, the directional shift
//! primitive, and the whole-board transforms (mirror, transpose, rotate).
//!
//! Squares are indexed `rank * 8 + file`.  Every operation is specified per
//! square: the contracts say which source square each result square takes its
//! bit from, and that bits pushed over an edge vanish rather than wrap.

use vstd::prelude::*;
use crate::bits::{
    bit_get, board_of, has_sq, lemma_board_of_intro, lemma_board_sq, lemma_one_sq, lemma_sq_ext,
    lemma_zero_sq,
};

verus! {

pub const FILE_A: u64 = 0x0101010101010101;
pub const FILE_B: u64 = 0x0202020202020202;
pub const FILE_C: u64 = 0x0404040404040404;
pub const FILE_D: u64 = 0x0808080808080808;
pub const FILE_E: u64 = 0x1010101010101010;
pub const FILE_F: u64 = 0x2020202020202020;
pub const FILE_G: u64 = 0x4040404040404040;
pub const FILE_H: u64 = 0x8080808080808080;

pub const RANK_1: u64 = 0x00000000000000ff;
pub const RANK_2: u64 = 0x000000000000ff00;
pub const RANK_3: u64 = 0x0000000000ff0000;
pub const RANK_4: u64 = 0x00000000ff000000;
pub const RANK_5: u64 = 0x000000ff00000000;
pub const RANK_6: u64 = 0x0000ff0000000000;
pub const RANK_7: u64 = 0x00ff000000000000;
pub const RANK_8: u64 = 0xff00000000000000;

#[derive(Clone, Copy)]
pub enum Direction {
    Up,
    UpRight,
    Right,
    DownRight,
    Down,
    DownLeft,
    Left,
    UpLeft,
}

/// File (0 = a .. 7 = h) of square `i`.
pub open spec fn file_of(i: int) -> int {
    i % 8
}

/// Rank (0 = rank 1 .. 7 = rank 8) of square `i`.
pub open spec fn rank_of(i: int) -> int {
    i / 8
}

/// The square at the given file and rank.
pub open spec fn square_at(file: int, rank: int) -> int {
    rank * 8 + file
}

/// The coordinates denote a square of the 8x8 board.
pub open spec fn coords_on_board(file: int, rank: int) -> bool {
    0 <= file < 8 && 0 <= rank < 8
}

/// How one step in `d` changes the file.
pub open spec fn file_delta(d: Direction) -> int {
    match d {
        Direction::Up => 0,
        Direction::UpRight => 1,
        Direction::Right => 1,
        Direction::DownRight => 1,
        Direction::Down => 0,
        Direction::DownLeft => -1,
        Direction::Left => -1,
        Direction::UpLeft => -1,
    }
}

/// How one step in `d` changes the rank.
pub open spec fn rank_delta(d: Direction) -> int {
    match d {
        Direction::Up => 1,
        Direction::UpRight => 1,
        Direction::Right => 0,
        Direction::DownRight => -1,
        Direction::Down => -1,
        Direction::DownLeft => -1,
        Direction::Left => 0,
        Direction::UpLeft => 1,
    }
}

/// The square one step against `d` from square `i`: the square whose bit
/// lands on `i` when a board is shifted in `d`.
pub open spec fn shift_src(d: Direction, i: int) -> int {
    square_at(file_of(i) - file_delta(d), rank_of(i) - rank_delta(d))
}

/// Whether square `i` receives a bit at all when shifting in `d`: the source
/// square one step against `d` must lie on the board.
pub open spec fn shift_src_on_board(d: Direction, i: int) -> bool {
    coords_on_board(file_of(i) - file_delta(d), rank_of(i) - rank_delta(d))
}

/// Source square of the top-bottom mirror: same file, mirrored rank.
pub open spec fn flip_h_src(i: int) -> int {
    square_at(file_of(i), 7 - rank_of(i))
}

/// Source square of the left-right mirror: mirrored file, same rank.
pub open spec fn flip_v_src(i: int) -> int {
    square_at(7 - file_of(i), rank_of(i))
}

/// Source square of the reflection across the long diagonal: file and rank
/// swap roles, so square `(f, r)` takes its bit from square `(r, f)`.
pub open spec fn flip_diag_src(i: int) -> int {
    square_at(rank_of(i), file_of(i))
}

/// Source square of the quarter-turn clockwise rotation: square `(f, r)`
/// takes its bit from square `(7 - r, f)`.
pub open spec fn rotate_src(i: int) -> int {
    square_at(7 - rank_of(i), file_of(i))
}

/// `b` shifted one step in `d`, as a value.
pub open spec fn shifted(b: u64, d: Direction) -> u64 {
    board_of(|i: int| shift_src_on_board(d, i) && has_sq(b, shift_src(d, i)))
}

/// `b` mirrored top-bottom, as a value.
pub open spec fn flipped_horizontal(b: u64) -> u64 {
    board_of(|i: int| has_sq(b, flip_h_src(i)))
}

/// `b` mirrored left-right, as a value.
pub open spec fn flipped_vertical(b: u64) -> u64 {
    board_of(|i: int| has_sq(b, flip_v_src(i)))
}

/// `b` reflected across the long diagonal, as a value.
pub open spec fn flipped_diagonal(b: u64) -> u64 {
    board_of(|i: int| has_sq(b, flip_diag_src(i)))
}

/// `b` rotated a quarter turn clockwise, as a value.
pub open spec fn rotated_90_clockwise(b: u64) -> u64 {
    board_of(|i: int| has_sq(b, rotate_src(i)))
}

/// The board holding exactly square `k`, and nothing off the board.
pub open spec fn square_bb(k: int) -> u64 {
    if 0 <= k < 64 {
        1u64 << (k as u64)
    } else {
        0u64
    }
}

pub trait Bitboard: Sized {
    /// Square `i` of the board.
    spec fn sq(&self, i: int) -> bool;

    /// Every bit moved one step in `direction`; bits that would leave the
    /// board vanish rather than wrap to the opposite edge.
    fn shift(&self, direction: Direction) -> (r: Self)
        ensures
            forall|i: int|
                0 <= i < 64 ==> (#[trigger] r.sq(i) <==> shift_src_on_board(direction, i)
                    && self.sq(shift_src(direction, i))),
    ;

    /// Mirror top-bottom: rank `r` maps to rank `7 - r`, files unchanged.
    fn flip_over_horizontal(&self) -> (r: Self)
        ensures
            forall|i: int| 0 <= i < 64 ==> (#[trigger] r.sq(i) <==> self.sq(flip_h_src(i))),
    ;

    /// Mirror left-right: file `f` maps to file `7 - f`, ranks unchanged.
    fn flip_over_vertical(&self) -> (r: Self)
        ensures
            forall|i: int| 0 <= i < 64 ==> (#[trigger] r.sq(i) <==> self.sq(flip_v_src(i))),
    ;

    /// Reflect across the long diagonal: file and rank swap roles.
    fn flip_diagonal_a8_h1(&self) -> (r: Self)
        ensures
            forall|i: int| 0 <= i < 64 ==> (#[trigger] r.sq(i) <==> self.sq(flip_diag_src(i))),
    ;

    /// Rotate the board a quarter turn clockwise.
    fn rotate_90_clockwise(&self) -> (r: Self)
        ensures
            forall|i: int| 0 <= i < 64 ==> (#[trigger] r.sq(i) <==> self.sq(rotate_src(i))),
    ;
}

proof fn lemma_shift_up_sq(b: u64, r: u64)
    requires
        r == b << 8,
    ensures
        forall|i: int|
            0 <= i < 64 ==> (#[trigger] has_sq(r, i) <==> shift_src_on_board(Direction::Up, i)
                && has_sq(b, shift_src(Direction::Up, i))),
{
    assert forall|i: int|
        0 <= i < 64 implies (#[trigger] has_sq(r, i) <==> shift_src_on_board(Direction::Up, i)
        && has_sq(b, shift_src(Direction::Up, i))) by {
        let j = i as u64;
        let s: u64 = if 8 <= j {
            (j - 8) as u64
        } else {
            0u64
        };
        assert(bit_get(b << 8, j) == (8 <= j && bit_get(b, s))) by (bit_vector)
            requires
                j < 64,
                s == (if 8 <= j {
                    j - 8
                } else {
                    0
                }),
        ;
    }
}

proof fn lemma_shift_down_sq(b: u64, r: u64)
    requires
        r == b >> 8,
    ensures
        forall|i: int|
            0 <= i < 64 ==> (#[trigger] has_sq(r, i) <==> shift_src_on_board(Direction::Down, i)
                && has_sq(b, shift_src(Direction::Down, i))),
{
    assert forall|i: int|
        0 <= i < 64 implies (#[trigger] has_sq(r, i) <==> shift_src_on_board(Direction::Down, i)
        && has_sq(b, shift_src(Direction::Down, i))) by {
        let j = i as u64;
        let s: u64 = (j + 8) as u64;
        assert(bit_get(b >> 8, j) == (j < 56 && bit_get(b, s))) by (bit_vector)
            requires
                j < 64,
                s == j + 8,
        ;
    }
}

proof fn lemma_shift_right_sq(b: u64, r: u64)
    requires
        r == (b & !FILE_H) << 1,
    ensures
        forall|i: int|
            0 <= i < 64 ==> (#[trigger] has_sq(r, i) <==> shift_src_on_board(Direction::Right, i)
                && has_sq(b, shift_src(Direction::Right, i))),
{
    assert forall|i: int|
        0 <= i < 64 implies (#[trigger] has_sq(r, i) <==> shift_src_on_board(Direction::Right, i)
        && has_sq(b, shift_src(Direction::Right, i))) by {
        let j = i as u64;
        let s: u64 = if 1 <= j % 8 {
            (j - 1) as u64
        } else {
            0u64
        };
        assert(bit_get((b & !0x8080808080808080u64) << 1, j) == (1 <= j % 8 && bit_get(b, s)))
            by (bit_vector)
            requires
                j < 64,
                s == (if 1 <= j % 8 {
                    j - 1
                } else {
                    0
                }),
        ;
    }
}

proof fn lemma_shift_left_sq(b: u64, r: u64)
    requires
        r == (b & !FILE_A) >> 1,
    ensures
        forall|i: int|
            0 <= i < 64 ==> (#[trigger] has_sq(r, i) <==> shift_src_on_board(Direction::Left, i)
                && has_sq(b, shift_src(Direction::Left, i))),
{
    assert forall|i: int|
        0 <= i < 64 implies (#[trigger] has_sq(r, i) <==> shift_src_on_board(Direction::Left, i)
        && has_sq(b, shift_src(Direction::Left, i))) by {
        let j = i as u64;
        let s: u64 = (j + 1) as u64;
        assert(bit_get((b & !0x0101010101010101u64) >> 1, j) == (j % 8 < 7 && bit_get(b, s)))
            by (bit_vector)
            requires
                j < 64,
                s == j + 1,
        ;
    }
}

proof fn lemma_shift_up_right_sq(b: u64, r: u64)
    requires
        r == (b & !FILE_H) << 9,
    ensures
        forall|i: int|
            0 <= i < 64 ==> (#[trigger] has_sq(r, i) <==> shift_src_on_board(Direction::UpRight, i)
                && has_sq(b, shift_src(Direction::UpRight, i))),
{
    assert forall|i: int|
        0 <= i < 64 implies (#[trigger] has_sq(r, i) <==> shift_src_on_board(Direction::UpRight, i)
        && has_sq(b, shift_src(Direction::UpRight, i))) by {
        let j = i as u64;
        let s: u64 = if 1 <= j % 8 && 8 <= j {
            (j - 9) as u64
        } else {
            0u64
        };
        assert(bit_get((b & !0x8080808080808080u64) << 9, j) == (1 <= j % 8 && 8 <= j && bit_get(
            b,
            s,
        ))) by (bit_vector)
            requires
                j < 64,
                s == (if 1 <= j % 8 && 8 <= j {
                    j - 9
                } else {
                    0
                }),
        ;
    }
}

proof fn lemma_shift_up_left_sq(b: u64, r: u64)
    requires
        r == (b & !FILE_A) << 7,
    ensures
        forall|i: int|
            0 <= i < 64 ==> (#[trigger] has_sq(r, i) <==> shift_src_on_board(Direction::UpLeft, i)
                && has_sq(b, shift_src(Direction::UpLeft, i))),
{
    assert forall|i: int|
        0 <= i < 64 implies (#[trigger] has_sq(r, i) <==> shift_src_on_board(Direction::UpLeft, i)
        && has_sq(b, shift_src(Direction::UpLeft, i))) by {
        let j = i as u64;
        let s: u64 = if j % 8 < 7 && 8 <= j {
            (j - 7) as u64
        } else {
            0u64
        };
        assert(bit_get((b & !0x0101010101010101u64) << 7, j) == (j % 8 < 7 && 8 <= j && bit_get(
            b,
            s,
        ))) by (bit_vector)
            requires
                j < 64,
                s == (if j % 8 < 7 && 8 <= j {
                    j - 7
                } else {
                    0
                }),
        ;
    }
}

proof fn lemma_shift_down_right_sq(b: u64, r: u64)
    requires
        r == (b & !FILE_H) >> 7,
    ensures
        forall|i: int|
            0 <= i < 64 ==> (#[trigger] has_sq(r, i) <==> shift_src_on_board(
                Direction::DownRight,
                i,
            ) && has_sq(b, shift_src(Direction::DownRight, i))),
{
    assert forall|i: int|
        0 <= i < 64 implies (#[trigger] has_sq(r, i) <==> shift_src_on_board(
        Direction::DownRight,
        i,
    ) && has_sq(b, shift_src(Direction::DownRight, i))) by {
        let j = i as u64;
        let s: u64 = (j + 7) as u64;
        assert(bit_get((b & !0x8080808080808080u64) >> 7, j) == (1 <= j % 8 && j < 56 && bit_get(
            b,
            s,
        ))) by (bit_vector)
            requires
                j < 64,
                s == j + 7,
        ;
    }
}

proof fn lemma_shift_down_left_sq(b: u64, r: u64)
    requires
        r == (b & !FILE_A) >> 9,
    ensures
        forall|i: int|
            0 <= i < 64 ==> (#[trigger] has_sq(r, i) <==> shift_src_on_board(
                Direction::DownLeft,
                i,
            ) && has_sq(b, shift_src(Direction::DownLeft, i))),
{
    assert forall|i: int|
        0 <= i < 64 implies (#[trigger] has_sq(r, i) <==> shift_src_on_board(
        Direction::DownLeft,
        i,
    ) && has_sq(b, shift_src(Direction::DownLeft, i))) by {
        let j = i as u64;
        let s: u64 = (j + 9) as u64;
        assert(bit_get((b & !0x0101010101010101u64) >> 9, j) == (j % 8 < 7 && j < 56 && bit_get(
            b,
            s,
        ))) by (bit_vector)
            requires
                j < 64,
                s == j + 9,
        ;
    }
}

proof fn lemma_flip_h_sq(b: u64, r: u64)
    requires
        r == (b << 56) | ((b & 0xff00u64) << 40) | ((b & 0xff0000u64) << 24) | ((b
            & 0xff000000u64) << 8) | ((b >> 8) & 0xff000000u64) | ((b >> 24) & 0xff0000u64) | ((b
            >> 40) & 0xff00u64) | (b >> 56),
    ensures
        forall|i: int| 0 <= i < 64 ==> (#[trigger] has_sq(r, i) <==> has_sq(b, flip_h_src(i))),
{
    assert forall|i: int|
        0 <= i < 64 implies (#[trigger] has_sq(r, i) <==> has_sq(b, flip_h_src(i))) by {
        let j = i as u64;
        let s: u64 = flip_h_src(i) as u64;
        assert(bit_get(
            (b << 56) | ((b & 0xff00u64) << 40) | ((b & 0xff0000u64) << 24) | ((b
                & 0xff000000u64) << 8) | ((b >> 8) & 0xff000000u64) | ((b >> 24) & 0xff0000u64) | ((
            b >> 40) & 0xff00u64) | (b >> 56),
            j,
        ) == bit_get(b, s)) by (bit_vector)
            requires
                j < 64,
                s == (7 - j / 8) * 8 + j % 8,
        ;
    }
}

proof fn lemma_flip_v_sq(b: u64, r: u64)
    requires
        ({
            let b1 = ((b >> 1) & 0x5555555555555555u64) | ((b & 0x5555555555555555u64) << 1);
            let b2 = ((b1 >> 2) & 0x3333333333333333u64) | ((b1 & 0x3333333333333333u64) << 2);
            r == (((b2 >> 4) & 0x0f0f0f0f0f0f0f0fu64) | ((b2 & 0x0f0f0f0f0f0f0f0fu64) << 4))
        }),
    ensures
        forall|i: int| 0 <= i < 64 ==> (#[trigger] has_sq(r, i) <==> has_sq(b, flip_v_src(i))),
{
    let b1 = ((b >> 1) & 0x5555555555555555u64) | ((b & 0x5555555555555555u64) << 1);
    let b2 = ((b1 >> 2) & 0x3333333333333333u64) | ((b1 & 0x3333333333333333u64) << 2);
    assert forall|i: int|
        0 <= i < 64 implies (#[trigger] has_sq(r, i) <==> has_sq(b, flip_v_src(i))) by {
        let j = i as u64;
        let s: u64 = flip_v_src(i) as u64;
        assert(bit_get(r, j) == bit_get(b, s)) by (bit_vector)
            requires
                j < 64,
                s == (j / 8) * 8 + 7 - j % 8,
                b1 == ((b >> 1) & 0x5555555555555555u64) | ((b & 0x5555555555555555u64) << 1),
                b2 == ((b1 >> 2) & 0x3333333333333333u64) | ((b1 & 0x3333333333333333u64) << 2),
                r == (((b2 >> 4) & 0x0f0f0f0f0f0f0f0fu64) | ((b2 & 0x0f0f0f0f0f0f0f0fu64) << 4)),
        ;
    }
}

proof fn lemma_flip_diag_sq(b: u64, r: u64)
    requires
        ({
            let t1 = 0x0f0f0f0f00000000u64 & (b ^ (b << 28));
            let b1 = b ^ t1 ^ (t1 >> 28);
            let t2 = 0x3333000033330000u64 & (b1 ^ (b1 << 14));
            let b2 = b1 ^ t2 ^ (t2 >> 14);
            let t3 = 0x5500550055005500u64 & (b2 ^ (b2 << 7));
            r == (b2 ^ t3 ^ (t3 >> 7))
        }),
    ensures
        forall|i: int| 0 <= i < 64 ==> (#[trigger] has_sq(r, i) <==> has_sq(b, flip_diag_src(i))),
{
    let t1 = 0x0f0f0f0f00000000u64 & (b ^ (b << 28));
    let b1 = b ^ t1 ^ (t1 >> 28);
    let t2 = 0x3333000033330000u64 & (b1 ^ (b1 << 14));
    let b2 = b1 ^ t2 ^ (t2 >> 14);
    let t3 = 0x5500550055005500u64 & (b2 ^ (b2 << 7));
    assert forall|i: int|
        0 <= i < 64 implies (#[trigger] has_sq(r, i) <==> has_sq(b, flip_diag_src(i))) by {
        let j = i as u64;
        let s: u64 = flip_diag_src(i) as u64;
        assert(bit_get(r, j) == bit_get(b, s)) by (bit_vector)
            requires
                j < 64,
                s == (j % 8) * 8 + j / 8,
                t1 == 0x0f0f0f0f00000000u64 & (b ^ (b << 28)),
                b1 == b ^ t1 ^ (t1 >> 28),
                t2 == 0x3333000033330000u64 & (b1 ^ (b1 << 14)),
                b2 == b1 ^ t2 ^ (t2 >> 14),
                t3 == 0x5500550055005500u64 & (b2 ^ (b2 << 7)),
                r == (b2 ^ t3 ^ (t3 >> 7)),
        ;
    }
}

impl Bitboard for u64 {
    open spec fn sq(&self, i: int) -> bool {
        has_sq(*self, i)
    }

    fn shift(&self, direction: Direction) -> (r: u64)
        ensures
            r == shifted(*self, direction),
    {
        let b = *self;
        match direction {
            Direction::Up => {
                let r = b << 8;
                proof {
                    lemma_shift_up_sq(b, r);
                    lemma_is_shifted(b, direction, r);
                }
                r
            },
            Direction::UpRight => {
                let r = (b & !FILE_H) << 9;
                proof {
                    lemma_shift_up_right_sq(b, r);
                    lemma_is_shifted(b, direction, r);
                }
                r
            },
            Direction::Right => {
                let r = (b & !FILE_H) << 1;
                proof {
                    lemma_shift_right_sq(b, r);
                    lemma_is_shifted(b, direction, r);
                }
                r
            },
            Direction::DownRight => {
                let r = (b & !FILE_H) >> 7;
                proof {
                    lemma_shift_down_right_sq(b, r);
                    lemma_is_shifted(b, direction, r);
                }
                r
            },
            Direction::Down => {
                let r = b >> 8;
                proof {
                    lemma_shift_down_sq(b, r);
                    lemma_is_shifted(b, direction, r);
                }
                r
            },
            Direction::DownLeft => {
                let r = (b & !FILE_A) >> 9;
                proof {
                    lemma_shift_down_left_sq(b, r);
                    lemma_is_shifted(b, direction, r);
                }
                r
            },
            Direction::Left => {
                let r = (b & !FILE_A) >> 1;
                proof {
                    lemma_shift_left_sq(b, r);
                    lemma_is_shifted(b, direction, r);
                }
                r
            },
            Direction::UpLeft => {
                let r = (b & !FILE_A) << 7;
                proof {
                    lemma_shift_up_left_sq(b, r);
                    lemma_is_shifted(b, direction, r);
                }
                r
            },
        }
    }

    fn flip_over_horizontal(&self) -> (r: u64)
        ensures
            r == flipped_horizontal(*self),
    {
        let b = *self;
        let r = (b << 56) | ((b & 0xff00u64) << 40) | ((b & 0xff0000u64) << 24) | ((b
            & 0xff000000u64) << 8) | ((b >> 8) & 0xff000000u64) | ((b >> 24) & 0xff0000u64) | ((b
            >> 40) & 0xff00u64) | (b >> 56);
        proof {
            lemma_flip_h_sq(b, r);
            lemma_is_flipped_horizontal(b, r);
        }
        r
    }

    fn flip_over_vertical(&self) -> (r: u64)
        ensures
            r == flipped_vertical(*self),
    {
        let b = *self;
        let b1 = ((b >> 1) & 0x5555555555555555u64) | ((b & 0x5555555555555555u64) << 1);
        let b2 = ((b1 >> 2) & 0x3333333333333333u64) | ((b1 & 0x3333333333333333u64) << 2);
        let r = ((b2 >> 4) & 0x0f0f0f0f0f0f0f0fu64) | ((b2 & 0x0f0f0f0f0f0f0f0fu64) << 4);
        proof {
            lemma_flip_v_sq(b, r);
            lemma_is_flipped_vertical(b, r);
        }
        r
    }

    fn flip_diagonal_a8_h1(&self) -> (r: u64)
        ensures
            r == flipped_diagonal(*self),
    {
        let b = *self;
        let t1 = 0x0f0f0f0f00000000u64 & (b ^ (b << 28));
        let b1 = b ^ t1 ^ (t1 >> 28);
        let t2 = 0x3333000033330000u64 & (b1 ^ (b1 << 14));
        let b2 = b1 ^ t2 ^ (t2 >> 14);
        let t3 = 0x5500550055005500u64 & (b2 ^ (b2 << 7));
        let r = b2 ^ t3 ^ (t3 >> 7);
        proof {
            lemma_flip_diag_sq(b, r);
            lemma_is_flipped_diagonal(b, r);
        }
        r
    }

    fn rotate_90_clockwise(&self) -> (r: u64)
        ensures
            r == rotated_90_clockwise(*self),
    {
        let b = *self;
        let transposed = self.flip_diagonal_a8_h1();
        let r = transposed.flip_over_horizontal();
        proof {
            assert forall|i: int| 0 <= i < 64 implies (#[trigger] has_sq(r, i) <==> has_sq(
                b,
                rotate_src(i),
            )) by {
                lemma_flipped_horizontal_sq(flipped_diagonal(b), i);
                assert(0 <= flip_h_src(i) < 64);
                lemma_flipped_diagonal_sq(b, flip_h_src(i));
                assert(flip_diag_src(flip_h_src(i)) == rotate_src(i));
            }
            lemma_is_rotated(b, r);
        }
        r
    }
}

/// Each result square of a shift is characterized by its source square.
pub proof fn lemma_shifted_sq(b: u64, d: Direction, i: int)
    ensures
        has_sq(shifted(b, d), i) == (0 <= i < 64 && shift_src_on_board(d, i) && has_sq(
            b,
            shift_src(d, i),
        )),
{
    lemma_board_sq(|j: int| shift_src_on_board(d, j) && has_sq(b, shift_src(d, j)), i);
}

pub proof fn lemma_flipped_horizontal_sq(b: u64, i: int)
    ensures
        has_sq(flipped_horizontal(b), i) == (0 <= i < 64 && has_sq(b, flip_h_src(i))),
{
    lemma_board_sq(|j: int| has_sq(b, flip_h_src(j)), i);
}

pub proof fn lemma_flipped_vertical_sq(b: u64, i: int)
    ensures
        has_sq(flipped_vertical(b), i) == (0 <= i < 64 && has_sq(b, flip_v_src(i))),
{
    lemma_board_sq(|j: int| has_sq(b, flip_v_src(j)), i);
}

pub proof fn lemma_flipped_diagonal_sq(b: u64, i: int)
    ensures
        has_sq(flipped_diagonal(b), i) == (0 <= i < 64 && has_sq(b, flip_diag_src(i))),
{
    lemma_board_sq(|j: int| has_sq(b, flip_diag_src(j)), i);
}

pub proof fn lemma_rotated_sq(b: u64, i: int)
    ensures
        has_sq(rotated_90_clockwise(b), i) == (0 <= i < 64 && has_sq(b, rotate_src(i))),
{
    lemma_board_sq(|j: int| has_sq(b, rotate_src(j)), i);
}

pub proof fn lemma_square_bb_sq(k: int, i: int)
    ensures
        has_sq(square_bb(k), i) == (0 <= i < 64 && i == k),
{
    if 0 <= k < 64 {
        lemma_one_sq(k, i);
    } else {
        lemma_zero_sq(i);
    }
}

/// Coordinates of `square_at(f, r)`, whenever `f` is a valid file.
pub proof fn lemma_square_at_coords(f: int, r: int)
    requires
        0 <= f < 8,
    ensures
        file_of(square_at(f, r)) == f,
        rank_of(square_at(f, r)) == r,
{
    vstd::arithmetic::div_mod::lemma_fundamental_div_mod_converse(square_at(f, r), 8, r, f);
}

/// The square one step in `d` from square `s`, or 64 when the step leaves
/// the board; 64 indexes no square, so `square_bb(step_sq(s, d))` is the
/// board a shift moves the lone bit of `square_bb(s)` to.
pub open spec fn step_sq(s: int, d: Direction) -> int {
    if 0 <= s < 64 && coords_on_board(file_of(s) + file_delta(d), rank_of(s) + rank_delta(d)) {
        square_at(file_of(s) + file_delta(d), rank_of(s) + rank_delta(d))
    } else {
        64
    }
}

/// Shifting a board holding one square (or none: `s == 64`) yields the board
/// holding the stepped square, or nothing when the step leaves the board.
pub proof fn lemma_shift_from_square(s: int, d: Direction, b: u64, r: u64)
    requires
        0 <= s <= 64,
        b == square_bb(s),
        forall|i: int|
            0 <= i < 64 ==> (#[trigger] r.sq(i) <==> shift_src_on_board(d, i) && b.sq(
                shift_src(d, i),
            )),
    ensures
        r == square_bb(step_sq(s, d)),
        0 <= step_sq(s, d) <= 64,
{
    assert forall|i: int| 0 <= i < 64 implies has_sq(r, i) == has_sq(
        square_bb(step_sq(s, d)),
        i,
    ) by {
        assert(r.sq(i) <==> shift_src_on_board(d, i) && b.sq(shift_src(d, i)));
        lemma_square_bb_sq(s, shift_src(d, i));
        lemma_square_bb_sq(step_sq(s, d), i);
        vstd::arithmetic::div_mod::lemma_fundamental_div_mod(i, 8);
        if shift_src_on_board(d, i) {
            lemma_square_at_coords(file_of(i) - file_delta(d), rank_of(i) - rank_delta(d));
        }
        if 0 <= s < 64 && coords_on_board(file_of(s) + file_delta(d), rank_of(s) + rank_delta(d)) {
            lemma_square_at_coords(file_of(s) + file_delta(d), rank_of(s) + rank_delta(d));
            vstd::arithmetic::div_mod::lemma_fundamental_div_mod(s, 8);
        }
    }
    lemma_sq_ext(r, square_bb(step_sq(s, d)));
}

/// Two steps in a row: the composite target square, with both steps checked
/// against the board edge.
pub proof fn lemma_step_twice(s: int, d1: Direction, d2: Direction)
    requires
        0 <= s < 64,
    ensures
        ({
            let mf = file_of(s) + file_delta(d1);
            let mr = rank_of(s) + rank_delta(d1);
            let tf = mf + file_delta(d2);
            let tr = mr + rank_delta(d2);
            step_sq(step_sq(s, d1), d2) == if coords_on_board(mf, mr) && coords_on_board(tf, tr) {
                square_at(tf, tr)
            } else {
                64
            }
        }),
{
    let mf = file_of(s) + file_delta(d1);
    let mr = rank_of(s) + rank_delta(d1);
    if coords_on_board(mf, mr) {
        lemma_square_at_coords(mf, mr);
    }
}

/// A board whose squares satisfy the per-square description of a shift is
/// the value `shifted(b, d)`, and likewise below for the other transforms.
proof fn lemma_is_shifted(b: u64, d: Direction, r: u64)
    requires
        forall|i: int|
            0 <= i < 64 ==> (#[trigger] has_sq(r, i) <==> shift_src_on_board(d, i) && has_sq(
                b,
                shift_src(d, i),
            )),
    ensures
        r == shifted(b, d),
{
    lemma_board_of_intro(r, |i: int| shift_src_on_board(d, i) && has_sq(b, shift_src(d, i)));
}

proof fn lemma_is_flipped_horizontal(b: u64, r: u64)
    requires
        forall|i: int| 0 <= i < 64 ==> (#[trigger] has_sq(r, i) <==> has_sq(b, flip_h_src(i))),
    ensures
        r == flipped_horizontal(b),
{
    lemma_board_of_intro(r, |i: int| has_sq(b, flip_h_src(i)));
}

proof fn lemma_is_flipped_vertical(b: u64, r: u64)
    requires
        forall|i: int| 0 <= i < 64 ==> (#[trigger] has_sq(r, i) <==> has_sq(b, flip_v_src(i))),
    ensures
        r == flipped_vertical(b),
{
    lemma_board_of_intro(r, |i: int| has_sq(b, flip_v_src(i)));
}

proof fn lemma_is_flipped_diagonal(b: u64, r: u64)
    requires
        forall|i: int| 0 <= i < 64 ==> (#[trigger] has_sq(r, i) <==> has_sq(b, flip_diag_src(i))),
    ensures
        r == flipped_diagonal(b),
{
    lemma_board_of_intro(r, |i: int| has_sq(b, flip_diag_src(i)));
}

proof fn lemma_is_rotated(b: u64, r: u64)
    requires
        forall|i: int| 0 <= i < 64 ==> (#[trigger] has_sq(r, i) <==> has_sq(b, rotate_src(i))),
    ensures
        r == rotated_90_clockwise(b),
{
    lemma_board_of_intro(r, |i: int| has_sq(b, rotate_src(i)));
}

/// Mirroring left-right twice gives back the original board.
pub proof fn lemma_flip_over_vertical_involution(b: u64)
    ensures
        flipped_vertical(flipped_vertical(b)) == b,
{
    let f1 = flipped_vertical(b);
    assert forall|i: int| 0 <= i < 64 implies has_sq(flipped_vertical(f1), i) == has_sq(b, i) by {
        lemma_flipped_vertical_sq(f1, i);
        lemma_flipped_vertical_sq(b, flip_v_src(i));
        assert(flip_v_src(flip_v_src(i)) == i);
    }
    lemma_sq_ext(flipped_vertical(f1), b);
}

/// Mirroring top-bottom twice gives back the original board.
pub proof fn lemma_flip_over_horizontal_involution(b: u64)
    ensures
        flipped_horizontal(flipped_horizontal(b)) == b,
{
    let f1 = flipped_horizontal(b);
    assert forall|i: int| 0 <= i < 64 implies has_sq(flipped_horizontal(f1), i) == has_sq(b, i) by {
        lemma_flipped_horizontal_sq(f1, i);
        lemma_flipped_horizontal_sq(b, flip_h_src(i));
        assert(flip_h_src(flip_h_src(i)) == i);
    }
    lemma_sq_ext(flipped_horizontal(f1), b);
}

/// Reflecting across the long diagonal twice gives back the original board.
pub proof fn lemma_flip_diagonal_involution(b: u64)
    ensures
        flipped_diagonal(flipped_diagonal(b)) == b,
{
    let f1 = flipped_diagonal(b);
    assert forall|i: int| 0 <= i < 64 implies has_sq(flipped_diagonal(f1), i) == has_sq(b, i) by {
        lemma_flipped_diagonal_sq(f1, i);
        lemma_flipped_diagonal_sq(b, flip_diag_src(i));
        assert(flip_diag_src(flip_diag_src(i)) == i);
    }
    lemma_sq_ext(flipped_diagonal(f1), b);
}

/// Four quarter turns clockwise give back the original board.
pub proof fn lemma_rotate_90_clockwise_four_times(b: u64)
    ensures
        rotated_90_clockwise(
            rotated_90_clockwise(rotated_90_clockwise(rotated_90_clockwise(b))),
        ) == b,
{
    let r1 = rotated_90_clockwise(b);
    let r2 = rotated_90_clockwise(r1);
    let r3 = rotated_90_clockwise(r2);
    assert forall|i: int| 0 <= i < 64 implies has_sq(rotated_90_clockwise(r3), i) == has_sq(
        b,
        i,
    ) by {
        lemma_rotated_sq(r3, i);
        lemma_rotated_sq(r2, rotate_src(i));
        lemma_rotated_sq(r1, rotate_src(rotate_src(i)));
        lemma_rotated_sq(b, rotate_src(rotate_src(rotate_src(i))));
        assert(rotate_src(rotate_src(rotate_src(rotate_src(i)))) == i);
    }
    lemma_sq_ext(rotated_90_clockwise(r3), b);
}

/// Shifting a lone bit toward an edge it already sits on yields the empty
/// board: the bit leaves the board instead of wrapping.
pub proof fn lemma_shift_off_edge_vanishes(k: int, d: Direction)
    requires
        0 <= k < 64,
        !coords_on_board(file_of(k) + file_delta(d), rank_of(k) + rank_delta(d)),
    ensures
        shifted(square_bb(k), d) == 0u64,
{
    assert forall|i: int| 0 <= i < 64 implies has_sq(shifted(square_bb(k), d), i) == has_sq(
        0u64,
        i,
    ) by {
        lemma_shifted_sq(square_bb(k), d, i);
        lemma_square_bb_sq(k, shift_src(d, i));
        lemma_zero_sq(i);
        if shift_src_on_board(d, i) && shift_src(d, i) == k {
            assert(file_of(i) == file_of(k) + file_delta(d));
            assert(rank_of(i) == rank_of(k) + rank_delta(d));
        }
    }
    lemma_sq_ext(shifted(square_bb(k), d), 0u64);
}

} // verus!
