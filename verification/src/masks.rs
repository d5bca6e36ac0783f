//! Precomputed per-square move and attack masks.
//!
//! For every origin square 0..64 and every piece kind, the mask holds the
//! squares the piece could reach on an empty board; blockers are resolved
//! later, per query.  Each mask is specified by a per-square move predicate
//! (`knight_move`, `rook_move`, ...), and each generator returns exactly the
//! 64 masks of that predicate.

use vstd::prelude::*;
use crate::bitboard::{
    coords_on_board, file_delta, file_of, flip_h_src, flipped_horizontal, lemma_flipped_horizontal_sq,
    lemma_shift_from_square, lemma_square_at_coords, lemma_square_bb_sq, lemma_step_twice,
    rank_delta, rank_of, shift_src, shift_src_on_board, square_bb, step_sq, Bitboard, Direction,
    FILE_A, RANK_1, RANK_2,
};
use crate::bits::{
    bit_get, board_of, has_sq, lemma_and_sq, lemma_board_of_intro, lemma_board_sq, lemma_not_sq,
    lemma_one_sq, lemma_or_sq, lemma_sq_ext,
};
use crate::player::Color;

verus! {

/// A knight on `s` reaches `j`: both on the board, one step of two files and
/// one rank or one file and two ranks, in any direction.
pub open spec fn knight_move(s: int, j: int) -> bool {
    &&& 0 <= s < 64
    &&& 0 <= j < 64
    &&& ({
        let df = file_of(j) - file_of(s);
        let dr = rank_of(j) - rank_of(s);
        ((df == 1 || df == -1) && (dr == 2 || dr == -2)) || ((df == 2 || df == -2) && (dr == 1
            || dr == -1))
    })
}

/// A king on `s` reaches `j`: adjacent squares, diagonals included.
pub open spec fn king_move(s: int, j: int) -> bool {
    &&& 0 <= s < 64
    &&& 0 <= j < 64
    &&& j != s
    &&& ({
        let df = file_of(j) - file_of(s);
        let dr = rank_of(j) - rank_of(s);
        -1 <= df <= 1 && -1 <= dr <= 1
    })
}

/// A rook on `s` reaches `j` on an empty board: same rank or same file.
pub open spec fn rook_move(s: int, j: int) -> bool {
    &&& 0 <= s < 64
    &&& 0 <= j < 64
    &&& j != s
    &&& (file_of(j) == file_of(s) || rank_of(j) == rank_of(s))
}

/// A bishop on `s` reaches `j` on an empty board: same diagonal.
pub open spec fn bishop_move(s: int, j: int) -> bool {
    &&& 0 <= s < 64
    &&& 0 <= j < 64
    &&& j != s
    &&& ({
        let df = file_of(j) - file_of(s);
        let dr = rank_of(j) - rank_of(s);
        df == dr || df == -dr
    })
}

/// A queen on `s` reaches `j` on an empty board: rook or bishop move.
pub open spec fn queen_move(s: int, j: int) -> bool {
    rook_move(s, j) || bishop_move(s, j)
}

/// The rank a pawn of side `c` advances toward per step: up for white, down
/// for black.
pub open spec fn forward_rank_delta(c: Color) -> int {
    match c {
        Color::White => 1,
        Color::Black => -1,
    }
}

/// The rank a pawn of side `c` starts on, from which it may advance two.
pub open spec fn pawn_start_rank(c: Color) -> int {
    match c {
        Color::White => 1,
        Color::Black => 6,
    }
}

/// A pawn of side `c` on `s` may advance quietly to `j`: one rank forward on
/// the same file, or two ranks forward from the side's starting rank.
pub open spec fn pawn_quiet_move(c: Color, s: int, j: int) -> bool {
    &&& 0 <= s < 64
    &&& 0 <= j < 64
    &&& file_of(j) == file_of(s)
    &&& (rank_of(j) == rank_of(s) + forward_rank_delta(c) || (rank_of(s) == pawn_start_rank(c)
        && rank_of(j) == rank_of(s) + 2 * forward_rank_delta(c)))
}

/// A pawn of side `c` on `s` attacks `j`: one rank forward, one file aside.
pub open spec fn pawn_attack_move(c: Color, s: int, j: int) -> bool {
    &&& 0 <= s < 64
    &&& 0 <= j < 64
    &&& (file_of(j) == file_of(s) + 1 || file_of(j) == file_of(s) - 1)
    &&& rank_of(j) == rank_of(s) + forward_rank_delta(c)
}

pub open spec fn knight_mask(s: int) -> u64 {
    board_of(|j: int| knight_move(s, j))
}

pub open spec fn king_mask(s: int) -> u64 {
    board_of(|j: int| king_move(s, j))
}

pub open spec fn rook_mask(s: int) -> u64 {
    board_of(|j: int| rook_move(s, j))
}

pub open spec fn bishop_mask(s: int) -> u64 {
    board_of(|j: int| bishop_move(s, j))
}

pub open spec fn queen_mask(s: int) -> u64 {
    board_of(|j: int| queen_move(s, j))
}

pub open spec fn pawn_move_mask(c: Color, s: int) -> u64 {
    board_of(|j: int| pawn_quiet_move(c, s, j))
}

pub open spec fn pawn_attack_mask(c: Color, s: int) -> u64 {
    board_of(|j: int| pawn_attack_move(c, s, j))
}

pub proof fn lemma_knight_mask_sq(s: int, j: int)
    ensures
        has_sq(knight_mask(s), j) == knight_move(s, j),
{
    lemma_board_sq(|t: int| knight_move(s, t), j);
}

pub proof fn lemma_king_mask_sq(s: int, j: int)
    ensures
        has_sq(king_mask(s), j) == king_move(s, j),
{
    lemma_board_sq(|t: int| king_move(s, t), j);
}

pub proof fn lemma_rook_mask_sq(s: int, j: int)
    ensures
        has_sq(rook_mask(s), j) == rook_move(s, j),
{
    lemma_board_sq(|t: int| rook_move(s, t), j);
}

pub proof fn lemma_bishop_mask_sq(s: int, j: int)
    ensures
        has_sq(bishop_mask(s), j) == bishop_move(s, j),
{
    lemma_board_sq(|t: int| bishop_move(s, t), j);
}

pub proof fn lemma_queen_mask_sq(s: int, j: int)
    ensures
        has_sq(queen_mask(s), j) == queen_move(s, j),
{
    lemma_board_sq(|t: int| queen_move(s, t), j);
}

pub proof fn lemma_pawn_move_mask_sq(c: Color, s: int, j: int)
    ensures
        has_sq(pawn_move_mask(c, s), j) == pawn_quiet_move(c, s, j),
{
    lemma_board_sq(|t: int| pawn_quiet_move(c, s, t), j);
}

pub proof fn lemma_pawn_attack_mask_sq(c: Color, s: int, j: int)
    ensures
        has_sq(pawn_attack_mask(c, s), j) == pawn_attack_move(c, s, j),
{
    lemma_board_sq(|t: int| pawn_attack_move(c, s, t), j);
}

proof fn lemma_knight_mask_intro(s: int, m: u64)
    requires
        forall|j: int| 0 <= j < 64 ==> (#[trigger] has_sq(m, j) <==> knight_move(s, j)),
    ensures
        m == knight_mask(s),
{
    lemma_board_of_intro(m, |j: int| knight_move(s, j));
}

proof fn lemma_king_mask_intro(s: int, m: u64)
    requires
        forall|j: int| 0 <= j < 64 ==> (#[trigger] has_sq(m, j) <==> king_move(s, j)),
    ensures
        m == king_mask(s),
{
    lemma_board_of_intro(m, |j: int| king_move(s, j));
}

proof fn lemma_rook_mask_intro(s: int, m: u64)
    requires
        forall|j: int| 0 <= j < 64 ==> (#[trigger] has_sq(m, j) <==> rook_move(s, j)),
    ensures
        m == rook_mask(s),
{
    lemma_board_of_intro(m, |j: int| rook_move(s, j));
}

/// The rank line and file line through square `s`, as boards.
proof fn lemma_line_masks(s: int, rank_line: u64, file_line: u64)
    requires
        0 <= s < 64,
        rank_line == RANK_1 << ((rank_of(s) * 8) as u64),
        file_line == FILE_A << (file_of(s) as u64),
    ensures
        forall|j: int| 0 <= j < 64 ==> (#[trigger] has_sq(rank_line, j) <==> rank_of(j) == rank_of(s)),
        forall|j: int| 0 <= j < 64 ==> (#[trigger] has_sq(file_line, j) <==> file_of(j) == file_of(s)),
{
    let ss = s as u64;
    assert forall|j: int| 0 <= j < 64 implies (#[trigger] has_sq(rank_line, j) <==> rank_of(j)
        == rank_of(s)) by {
        let jj = j as u64;
        assert(bit_get(0xffu64 << ((ss / 8) * 8), jj) == (jj / 8 == ss / 8)) by (bit_vector)
            requires
                ss < 64,
                jj < 64,
        ;
    }
    assert forall|j: int| 0 <= j < 64 implies (#[trigger] has_sq(file_line, j) <==> file_of(j)
        == file_of(s)) by {
        let jj = j as u64;
        assert(bit_get(0x0101010101010101u64 << (ss % 8), jj) == (jj % 8 == ss % 8))
            by (bit_vector)
            requires
                ss < 64,
                jj < 64,
        ;
    }
}

/// The 64 rook masks: for each origin, the whole rank and file lines through
/// it, minus the origin square itself.
pub fn generate_move_masks_rook() -> (r: Vec<u64>)
    ensures
        r@.len() == 64,
        forall|s: int| 0 <= s < 64 ==> r@[s] == rook_mask(s),
{
    let mut move_masks: Vec<u64> = Vec::new();
    let mut i: usize = 0;
    while i < 64
        invariant
            i <= 64,
            move_masks@.len() == i as int,
            forall|s: int| 0 <= s < i ==> move_masks@[s] == rook_mask(s),
        decreases 64 - i,
    {
        let current: u64 = 1u64 << (i as u64);
        let y: u64 = (i as u64 / 8) * 8;
        let rank_line: u64 = RANK_1 << y;
        let file_line: u64 = FILE_A << (i as u64 % 8);
        let line: u64 = rank_line | file_line;
        let mask: u64 = line & !current;
        proof {
            let s = i as int;
            lemma_line_masks(s, rank_line, file_line);
            assert forall|j: int| 0 <= j < 64 implies (#[trigger] has_sq(mask, j) <==> rook_move(
                s,
                j,
            )) by {
                lemma_or_sq(rank_line, file_line, j);
                lemma_not_sq(current, j);
                lemma_and_sq(line, !current, j);
                lemma_one_sq(s, j);
            }
            lemma_rook_mask_intro(s, mask);
        }
        move_masks.push(mask);
        i = i + 1;
    }
    move_masks
}

/// The 64 knight masks: for each origin, the up-to-eight squares a knight
/// jump reaches, edge jumps dropped.
#[verifier::rlimit(100)]
pub fn generate_move_masks_knight() -> (r: Vec<u64>)
    ensures
        r@.len() == 64,
        forall|s: int| 0 <= s < 64 ==> r@[s] == knight_mask(s),
{
    let mut move_masks: Vec<u64> = Vec::new();
    let mut i: usize = 0;
    while i < 64
        invariant
            i <= 64,
            move_masks@.len() == i as int,
            forall|s: int| 0 <= s < i ==> move_masks@[s] == knight_mask(s),
        decreases 64 - i,
    {
        let current: u64 = 1u64 << (i as u64);
        let u1 = current.shift(Direction::Up);
        let t1 = u1.shift(Direction::UpRight);
        let u2 = current.shift(Direction::Up);
        let t2 = u2.shift(Direction::UpLeft);
        let u3 = current.shift(Direction::Right);
        let t3 = u3.shift(Direction::UpRight);
        let u4 = current.shift(Direction::Right);
        let t4 = u4.shift(Direction::DownRight);
        let u5 = current.shift(Direction::Down);
        let t5 = u5.shift(Direction::DownRight);
        let u6 = current.shift(Direction::Down);
        let t6 = u6.shift(Direction::DownLeft);
        let u7 = current.shift(Direction::Left);
        let t7 = u7.shift(Direction::UpLeft);
        let u8 = current.shift(Direction::Left);
        let t8 = u8.shift(Direction::DownLeft);
        let m1 = t1 | t2;
        let m2 = m1 | t3;
        let m3 = m2 | t4;
        let m4 = m3 | t5;
        let m5 = m4 | t6;
        let m6 = m5 | t7;
        let mask = m6 | t8;
        proof {
            let s = i as int;
            assert(current == square_bb(s));
            lemma_shift_from_square(s, Direction::Up, current, u1);
            lemma_shift_from_square(step_sq(s, Direction::Up), Direction::UpRight, u1, t1);
            lemma_shift_from_square(s, Direction::Up, current, u2);
            lemma_shift_from_square(step_sq(s, Direction::Up), Direction::UpLeft, u2, t2);
            lemma_shift_from_square(s, Direction::Right, current, u3);
            lemma_shift_from_square(step_sq(s, Direction::Right), Direction::UpRight, u3, t3);
            lemma_shift_from_square(s, Direction::Right, current, u4);
            lemma_shift_from_square(step_sq(s, Direction::Right), Direction::DownRight, u4, t4);
            lemma_shift_from_square(s, Direction::Down, current, u5);
            lemma_shift_from_square(step_sq(s, Direction::Down), Direction::DownRight, u5, t5);
            lemma_shift_from_square(s, Direction::Down, current, u6);
            lemma_shift_from_square(step_sq(s, Direction::Down), Direction::DownLeft, u6, t6);
            lemma_shift_from_square(s, Direction::Left, current, u7);
            lemma_shift_from_square(step_sq(s, Direction::Left), Direction::UpLeft, u7, t7);
            lemma_shift_from_square(s, Direction::Left, current, u8);
            lemma_shift_from_square(step_sq(s, Direction::Left), Direction::DownLeft, u8, t8);
            lemma_step_twice(s, Direction::Up, Direction::UpRight);
            lemma_step_twice(s, Direction::Up, Direction::UpLeft);
            lemma_step_twice(s, Direction::Right, Direction::UpRight);
            lemma_step_twice(s, Direction::Right, Direction::DownRight);
            lemma_step_twice(s, Direction::Down, Direction::DownRight);
            lemma_step_twice(s, Direction::Down, Direction::DownLeft);
            lemma_step_twice(s, Direction::Left, Direction::UpLeft);
            lemma_step_twice(s, Direction::Left, Direction::DownLeft);
            let k1 = step_sq(step_sq(s, Direction::Up), Direction::UpRight);
            let k2 = step_sq(step_sq(s, Direction::Up), Direction::UpLeft);
            let k3 = step_sq(step_sq(s, Direction::Right), Direction::UpRight);
            let k4 = step_sq(step_sq(s, Direction::Right), Direction::DownRight);
            let k5 = step_sq(step_sq(s, Direction::Down), Direction::DownRight);
            let k6 = step_sq(step_sq(s, Direction::Down), Direction::DownLeft);
            let k7 = step_sq(step_sq(s, Direction::Left), Direction::UpLeft);
            let k8 = step_sq(step_sq(s, Direction::Left), Direction::DownLeft);
            if coords_on_board(file_of(s) + 1, rank_of(s) + 2) {
                lemma_square_at_coords(file_of(s) + 1, rank_of(s) + 2);
            }
            if coords_on_board(file_of(s) - 1, rank_of(s) + 2) {
                lemma_square_at_coords(file_of(s) - 1, rank_of(s) + 2);
            }
            if coords_on_board(file_of(s) + 2, rank_of(s) + 1) {
                lemma_square_at_coords(file_of(s) + 2, rank_of(s) + 1);
            }
            if coords_on_board(file_of(s) + 2, rank_of(s) - 1) {
                lemma_square_at_coords(file_of(s) + 2, rank_of(s) - 1);
            }
            if coords_on_board(file_of(s) + 1, rank_of(s) - 2) {
                lemma_square_at_coords(file_of(s) + 1, rank_of(s) - 2);
            }
            if coords_on_board(file_of(s) - 1, rank_of(s) - 2) {
                lemma_square_at_coords(file_of(s) - 1, rank_of(s) - 2);
            }
            if coords_on_board(file_of(s) - 2, rank_of(s) + 1) {
                lemma_square_at_coords(file_of(s) - 2, rank_of(s) + 1);
            }
            if coords_on_board(file_of(s) - 2, rank_of(s) - 1) {
                lemma_square_at_coords(file_of(s) - 2, rank_of(s) - 1);
            }
            assert forall|j: int| 0 <= j < 64 implies (#[trigger] has_sq(mask, j) <==> knight_move(
                s,
                j,
            )) by {
                lemma_or_sq(t1, t2, j);
                lemma_or_sq(m1, t3, j);
                lemma_or_sq(m2, t4, j);
                lemma_or_sq(m3, t5, j);
                lemma_or_sq(m4, t6, j);
                lemma_or_sq(m5, t7, j);
                lemma_or_sq(m6, t8, j);
                lemma_square_bb_sq(k1, j);
                lemma_square_bb_sq(k2, j);
                lemma_square_bb_sq(k3, j);
                lemma_square_bb_sq(k4, j);
                lemma_square_bb_sq(k5, j);
                lemma_square_bb_sq(k6, j);
                lemma_square_bb_sq(k7, j);
                lemma_square_bb_sq(k8, j);
                vstd::arithmetic::div_mod::lemma_fundamental_div_mod(j, 8);
                vstd::arithmetic::div_mod::lemma_fundamental_div_mod(s, 8);
            }
            lemma_knight_mask_intro(s, mask);
        }
        move_masks.push(mask);
        i = i + 1;
    }
    move_masks
}

/// The 64 king masks: for each origin, the adjacent squares on the board.
pub fn generate_move_masks_king() -> (r: Vec<u64>)
    ensures
        r@.len() == 64,
        forall|s: int| 0 <= s < 64 ==> r@[s] == king_mask(s),
{
    let mut move_masks: Vec<u64> = Vec::new();
    let mut i: usize = 0;
    while i < 64
        invariant
            i <= 64,
            move_masks@.len() == i as int,
            forall|s: int| 0 <= s < i ==> move_masks@[s] == king_mask(s),
        decreases 64 - i,
    {
        let current: u64 = 1u64 << (i as u64);
        let t1 = current.shift(Direction::Up);
        let t2 = current.shift(Direction::UpRight);
        let t3 = current.shift(Direction::Right);
        let t4 = current.shift(Direction::DownRight);
        let t5 = current.shift(Direction::Down);
        let t6 = current.shift(Direction::DownLeft);
        let t7 = current.shift(Direction::Left);
        let t8 = current.shift(Direction::UpLeft);
        let m1 = t1 | t2;
        let m2 = m1 | t3;
        let m3 = m2 | t4;
        let m4 = m3 | t5;
        let m5 = m4 | t6;
        let m6 = m5 | t7;
        let mask = m6 | t8;
        proof {
            let s = i as int;
            assert(current == square_bb(s));
            lemma_shift_from_square(s, Direction::Up, current, t1);
            lemma_shift_from_square(s, Direction::UpRight, current, t2);
            lemma_shift_from_square(s, Direction::Right, current, t3);
            lemma_shift_from_square(s, Direction::DownRight, current, t4);
            lemma_shift_from_square(s, Direction::Down, current, t5);
            lemma_shift_from_square(s, Direction::DownLeft, current, t6);
            lemma_shift_from_square(s, Direction::Left, current, t7);
            lemma_shift_from_square(s, Direction::UpLeft, current, t8);
            if coords_on_board(file_of(s), rank_of(s) + 1) {
                lemma_square_at_coords(file_of(s), rank_of(s) + 1);
            }
            if coords_on_board(file_of(s) + 1, rank_of(s) + 1) {
                lemma_square_at_coords(file_of(s) + 1, rank_of(s) + 1);
            }
            if coords_on_board(file_of(s) + 1, rank_of(s)) {
                lemma_square_at_coords(file_of(s) + 1, rank_of(s));
            }
            if coords_on_board(file_of(s) + 1, rank_of(s) - 1) {
                lemma_square_at_coords(file_of(s) + 1, rank_of(s) - 1);
            }
            if coords_on_board(file_of(s), rank_of(s) - 1) {
                lemma_square_at_coords(file_of(s), rank_of(s) - 1);
            }
            if coords_on_board(file_of(s) - 1, rank_of(s) - 1) {
                lemma_square_at_coords(file_of(s) - 1, rank_of(s) - 1);
            }
            if coords_on_board(file_of(s) - 1, rank_of(s)) {
                lemma_square_at_coords(file_of(s) - 1, rank_of(s));
            }
            if coords_on_board(file_of(s) - 1, rank_of(s) + 1) {
                lemma_square_at_coords(file_of(s) - 1, rank_of(s) + 1);
            }
            assert forall|j: int| 0 <= j < 64 implies (#[trigger] has_sq(mask, j) <==> king_move(
                s,
                j,
            )) by {
                lemma_or_sq(t1, t2, j);
                lemma_or_sq(m1, t3, j);
                lemma_or_sq(m2, t4, j);
                lemma_or_sq(m3, t5, j);
                lemma_or_sq(m4, t6, j);
                lemma_or_sq(m5, t7, j);
                lemma_or_sq(m6, t8, j);
                lemma_square_bb_sq(step_sq(s, Direction::Up), j);
                lemma_square_bb_sq(step_sq(s, Direction::UpRight), j);
                lemma_square_bb_sq(step_sq(s, Direction::Right), j);
                lemma_square_bb_sq(step_sq(s, Direction::DownRight), j);
                lemma_square_bb_sq(step_sq(s, Direction::Down), j);
                lemma_square_bb_sq(step_sq(s, Direction::DownLeft), j);
                lemma_square_bb_sq(step_sq(s, Direction::Left), j);
                lemma_square_bb_sq(step_sq(s, Direction::UpLeft), j);
                vstd::arithmetic::div_mod::lemma_fundamental_div_mod(j, 8);
                vstd::arithmetic::div_mod::lemma_fundamental_div_mod(s, 8);
            }
            lemma_king_mask_intro(s, mask);
        }
        move_masks.push(mask);
        i = i + 1;
    }
    move_masks
}

/// How far `m` steps in `d` travel along the file axis.
pub open spec fn file_travel(d: Direction, m: int) -> int {
    match d {
        Direction::Up => 0,
        Direction::UpRight => m,
        Direction::Right => m,
        Direction::DownRight => m,
        Direction::Down => 0,
        Direction::DownLeft => -m,
        Direction::Left => -m,
        Direction::UpLeft => -m,
    }
}

/// How far `m` steps in `d` travel along the rank axis.
pub open spec fn rank_travel(d: Direction, m: int) -> int {
    match d {
        Direction::Up => m,
        Direction::UpRight => m,
        Direction::Right => 0,
        Direction::DownRight => -m,
        Direction::Down => -m,
        Direction::DownLeft => -m,
        Direction::Left => 0,
        Direction::UpLeft => m,
    }
}

/// How many steps in `d` lead from `s` to `j`, measured along whichever
/// axis `d` moves (negative when `j` lies the other way).
pub open spec fn ray_steps(s: int, d: Direction, j: int) -> int {
    match d {
        Direction::Up => rank_of(j) - rank_of(s),
        Direction::UpRight => file_of(j) - file_of(s),
        Direction::Right => file_of(j) - file_of(s),
        Direction::DownRight => file_of(j) - file_of(s),
        Direction::Down => rank_of(s) - rank_of(j),
        Direction::DownLeft => file_of(s) - file_of(j),
        Direction::Left => file_of(s) - file_of(j),
        Direction::UpLeft => file_of(s) - file_of(j),
    }
}

/// `j` lies on the ray from `s` in direction `d`: some positive number of
/// steps in `d` leads from `s` exactly to `j`.
pub open spec fn ray_move(s: int, d: Direction, j: int) -> bool {
    &&& 0 <= s < 64
    &&& 0 <= j < 64
    &&& 1 <= ray_steps(s, d, j)
    &&& file_of(j) == file_of(s) + file_travel(d, ray_steps(s, d, j))
    &&& rank_of(j) == rank_of(s) + rank_travel(d, ray_steps(s, d, j))
}

/// The facts `lemma_ray_step_rel` establishes: how one shift step relates
/// consecutive squares of the ray from `s` in `d`.
pub open spec fn ray_step_rel(s: int, d: Direction, j: int) -> bool {
    &&& (shift_src_on_board(d, j) && ray_move(s, d, shift_src(d, j)) ==> ray_move(s, d, j)
        && ray_steps(s, d, j) == ray_steps(s, d, shift_src(d, j)) + 1)
    &&& (ray_move(s, d, j) && ray_steps(s, d, j) >= 2 ==> shift_src_on_board(d, j) && ray_move(
        s,
        d,
        shift_src(d, j),
    ) && ray_steps(s, d, shift_src(d, j)) == ray_steps(s, d, j) - 1)
    &&& ((j == step_sq(s, d)) <==> (ray_move(s, d, j) && ray_steps(s, d, j) == 1))
    &&& (ray_move(s, d, j) ==> 1 <= ray_steps(s, d, j) <= 7)
}

/// How one shift step relates consecutive squares of a ray.
pub proof fn lemma_ray_step_rel(s: int, d: Direction, j: int)
    requires
        0 <= s < 64,
        0 <= j < 64,
    ensures
        ray_step_rel(s, d, j),
{
    if shift_src_on_board(d, j) {
        lemma_square_at_coords(file_of(j) - file_delta(d), rank_of(j) - rank_delta(d));
    }
    if coords_on_board(file_of(s) + file_delta(d), rank_of(s) + rank_delta(d)) {
        lemma_square_at_coords(file_of(s) + file_delta(d), rank_of(s) + rank_delta(d));
    }
    vstd::arithmetic::div_mod::lemma_fundamental_div_mod(j, 8);
    vstd::arithmetic::div_mod::lemma_fundamental_div_mod(s, 8);
    match d {
        Direction::Up => {
            assert(ray_step_rel(s, d, j));
        },
        Direction::UpRight => {
            assert(ray_step_rel(s, d, j));
        },
        Direction::Right => {
            assert(ray_step_rel(s, d, j));
        },
        Direction::DownRight => {
            assert(ray_step_rel(s, d, j));
        },
        Direction::Down => {
            assert(ray_step_rel(s, d, j));
        },
        Direction::DownLeft => {
            assert(ray_step_rel(s, d, j));
        },
        Direction::Left => {
            assert(ray_step_rel(s, d, j));
        },
        Direction::UpLeft => {
            assert(ray_step_rel(s, d, j));
        },
    }
}

/// The whole unblocked ray from `s` in `direction`, built by repeatedly
/// extending one step; bits falling off the edge vanish, so the ray stops
/// at the board edge.
fn extend_ray(current: u64, direction: Direction, Ghost(s): Ghost<int>) -> (r: u64)
    requires
        0 <= s < 64,
        current == square_bb(s),
    ensures
        forall|j: int| #[trigger] has_sq(r, j) <==> ray_move(s, direction, j),
{
    let mut ray = current.shift(direction);
    proof {
        lemma_shift_from_square(s, direction, current, ray);
        assert forall|j: int| #[trigger] has_sq(ray, j) <==> (ray_move(s, direction, j)
            && ray_steps(s, direction, j) <= 1) by {
            lemma_square_bb_sq(step_sq(s, direction), j);
            if 0 <= j < 64 {
                lemma_ray_step_rel(s, direction, j);
            }
        }
    }
    let mut n: usize = 0;
    while n < 7
        invariant
            0 <= s < 64,
            n <= 7,
            forall|j: int| #[trigger] has_sq(ray, j) <==> (ray_move(s, direction, j)
                && ray_steps(s, direction, j) <= n + 1),
        decreases 7 - n,
    {
        let ext = ray.shift(direction);
        proof {
            assert forall|j: int| #[trigger] has_sq(ray | ext, j) <==> (ray_move(s, direction, j)
                && ray_steps(s, direction, j) <= n + 2) by {
                lemma_or_sq(ray, ext, j);
                if 0 <= j < 64 {
                    assert(ext.sq(j) <==> shift_src_on_board(direction, j) && ray.sq(
                        shift_src(direction, j),
                    ));
                    lemma_ray_step_rel(s, direction, j);
                } else {
                    assert(!has_sq(ray, j) && !has_sq(ext, j));
                }
            }
        }
        ray = ray | ext;
        n = n + 1;
    }
    proof {
        assert forall|j: int| #[trigger] has_sq(ray, j) <==> ray_move(s, direction, j) by {
            if 0 <= j < 64 {
                lemma_ray_step_rel(s, direction, j);
            }
        }
    }
    ray
}

proof fn lemma_bishop_mask_intro(s: int, m: u64)
    requires
        forall|j: int| 0 <= j < 64 ==> (#[trigger] has_sq(m, j) <==> bishop_move(s, j)),
    ensures
        m == bishop_mask(s),
{
    lemma_board_of_intro(m, |j: int| bishop_move(s, j));
}

proof fn lemma_queen_mask_intro(s: int, m: u64)
    requires
        forall|j: int| 0 <= j < 64 ==> (#[trigger] has_sq(m, j) <==> queen_move(s, j)),
    ensures
        m == queen_mask(s),
{
    lemma_board_of_intro(m, |j: int| queen_move(s, j));
}

/// The 64 bishop masks: for each origin, the four diagonal rays out to the
/// board edge.
pub fn generate_move_masks_bishop() -> (r: Vec<u64>)
    ensures
        r@.len() == 64,
        forall|s: int| 0 <= s < 64 ==> r@[s] == bishop_mask(s),
{
    let mut move_masks: Vec<u64> = Vec::new();
    let mut i: usize = 0;
    while i < 64
        invariant
            i <= 64,
            move_masks@.len() == i as int,
            forall|s: int| 0 <= s < i ==> move_masks@[s] == bishop_mask(s),
        decreases 64 - i,
    {
        let current: u64 = 1u64 << (i as u64);
        proof {
            assert(current == square_bb(i as int));
        }
        let up_left_ray = extend_ray(current, Direction::UpLeft, Ghost(i as int));
        let up_right_ray = extend_ray(current, Direction::UpRight, Ghost(i as int));
        let down_left_ray = extend_ray(current, Direction::DownLeft, Ghost(i as int));
        let down_right_ray = extend_ray(current, Direction::DownRight, Ghost(i as int));
        let m1 = up_left_ray | up_right_ray;
        let m2 = m1 | down_left_ray;
        let mask = m2 | down_right_ray;
        proof {
            let s = i as int;
            assert forall|j: int| 0 <= j < 64 implies (#[trigger] has_sq(mask, j) <==> bishop_move(
                s,
                j,
            )) by {
                lemma_or_sq(up_left_ray, up_right_ray, j);
                lemma_or_sq(m1, down_left_ray, j);
                lemma_or_sq(m2, down_right_ray, j);
                vstd::arithmetic::div_mod::lemma_fundamental_div_mod(j, 8);
                vstd::arithmetic::div_mod::lemma_fundamental_div_mod(s, 8);
                assert(ray_move(s, Direction::UpLeft, j) ==> bishop_move(s, j));
                assert(ray_move(s, Direction::UpRight, j) ==> bishop_move(s, j));
                assert(ray_move(s, Direction::DownLeft, j) ==> bishop_move(s, j));
                assert(ray_move(s, Direction::DownRight, j) ==> bishop_move(s, j));
                if bishop_move(s, j) {
                    let df = file_of(j) - file_of(s);
                    let dr = rank_of(j) - rank_of(s);
                    if df > 0 && dr > 0 {
                        assert(ray_move(s, Direction::UpRight, j));
                    }
                    if df < 0 && dr < 0 {
                        assert(ray_move(s, Direction::DownLeft, j));
                    }
                    if df > 0 && dr < 0 {
                        assert(ray_move(s, Direction::DownRight, j));
                    }
                    if df < 0 && dr > 0 {
                        assert(ray_move(s, Direction::UpLeft, j));
                    }
                }
            }
            lemma_bishop_mask_intro(s, mask);
        }
        move_masks.push(mask);
        i = i + 1;
    }
    move_masks
}

/// The 64 queen masks: the rook and bishop masks joined square by square.
pub fn generate_move_masks_queen() -> (r: Vec<u64>)
    ensures
        r@.len() == 64,
        forall|s: int| 0 <= s < 64 ==> r@[s] == queen_mask(s),
{
    let mut move_masks: Vec<u64> = Vec::new();
    let rook_masks = generate_move_masks_rook();
    let bishop_masks = generate_move_masks_bishop();
    let mut i: usize = 0;
    while i < 64
        invariant
            i <= 64,
            move_masks@.len() == i as int,
            rook_masks@.len() == 64,
            bishop_masks@.len() == 64,
            forall|s: int| 0 <= s < 64 ==> rook_masks@[s] == rook_mask(s),
            forall|s: int| 0 <= s < 64 ==> bishop_masks@[s] == bishop_mask(s),
            forall|s: int| 0 <= s < i ==> move_masks@[s] == queen_mask(s),
        decreases 64 - i,
    {
        let mask = rook_masks[i] | bishop_masks[i];
        proof {
            let s = i as int;
            assert forall|j: int| 0 <= j < 64 implies (#[trigger] has_sq(mask, j) <==> queen_move(
                s,
                j,
            )) by {
                lemma_or_sq(rook_mask(s), bishop_mask(s), j);
                lemma_rook_mask_sq(s, j);
                lemma_bishop_mask_sq(s, j);
            }
            lemma_queen_mask_intro(s, mask);
        }
        move_masks.push(mask);
        i = i + 1;
    }
    move_masks
}

/// The queen's mask is the rook's and the bishop's joined, at every square.
pub proof fn lemma_queen_mask_is_rook_or_bishop(s: int)
    ensures
        queen_mask(s) == rook_mask(s) | bishop_mask(s),
{
    assert forall|j: int| 0 <= j < 64 implies has_sq(queen_mask(s), j) == has_sq(
        rook_mask(s) | bishop_mask(s),
        j,
    ) by {
        lemma_queen_mask_sq(s, j);
        lemma_rook_mask_sq(s, j);
        lemma_bishop_mask_sq(s, j);
        lemma_or_sq(rook_mask(s), bishop_mask(s), j);
    }
    lemma_sq_ext(queen_mask(s), rook_mask(s) | bishop_mask(s));
}

proof fn lemma_pawn_move_mask_intro(c: Color, s: int, m: u64)
    requires
        forall|j: int| 0 <= j < 64 ==> (#[trigger] has_sq(m, j) <==> pawn_quiet_move(c, s, j)),
    ensures
        m == pawn_move_mask(c, s),
{
    lemma_board_of_intro(m, |j: int| pawn_quiet_move(c, s, j));
}

proof fn lemma_pawn_attack_mask_intro(c: Color, s: int, m: u64)
    requires
        forall|j: int| 0 <= j < 64 ==> (#[trigger] has_sq(m, j) <==> pawn_attack_move(c, s, j)),
    ensures
        m == pawn_attack_mask(c, s),
{
    lemma_board_of_intro(m, |j: int| pawn_attack_move(c, s, j));
}

/// Mirroring the board top-bottom turns white pawn geometry into black pawn
/// geometry: a black pawn on `s` moves (attacks) toward `j` exactly when a
/// white pawn on the mirrored origin moves (attacks) toward the mirrored
/// destination.
proof fn lemma_pawn_mirror(s: int, j: int)
    requires
        0 <= s < 64,
        0 <= j < 64,
    ensures
        pawn_quiet_move(Color::White, flip_h_src(s), flip_h_src(j)) == pawn_quiet_move(
            Color::Black,
            s,
            j,
        ),
        pawn_attack_move(Color::White, flip_h_src(s), flip_h_src(j)) == pawn_attack_move(
            Color::Black,
            s,
            j,
        ),
{
    lemma_square_at_coords(file_of(s), 7 - rank_of(s));
    lemma_square_at_coords(file_of(j), 7 - rank_of(j));
}

/// Black's pawn tables are white's mirrored top-bottom: at every square, the
/// black mask is the flip of the white mask at the mirrored square.
pub proof fn lemma_black_pawn_masks_mirror_white(s: int)
    requires
        0 <= s < 64,
    ensures
        pawn_move_mask(Color::Black, s) == flipped_horizontal(
            pawn_move_mask(Color::White, flip_h_src(s)),
        ),
        pawn_attack_mask(Color::Black, s) == flipped_horizontal(
            pawn_attack_mask(Color::White, flip_h_src(s)),
        ),
{
    lemma_square_at_coords(file_of(s), 7 - rank_of(s));
    let wm = pawn_move_mask(Color::White, flip_h_src(s));
    assert forall|j: int| 0 <= j < 64 implies has_sq(pawn_move_mask(Color::Black, s), j) == has_sq(
        flipped_horizontal(wm),
        j,
    ) by {
        lemma_pawn_move_mask_sq(Color::Black, s, j);
        lemma_flipped_horizontal_sq(wm, j);
        lemma_pawn_move_mask_sq(Color::White, flip_h_src(s), flip_h_src(j));
        lemma_pawn_mirror(s, j);
        lemma_square_at_coords(file_of(j), 7 - rank_of(j));
    }
    lemma_sq_ext(pawn_move_mask(Color::Black, s), flipped_horizontal(wm));
    let wa = pawn_attack_mask(Color::White, flip_h_src(s));
    assert forall|j: int| 0 <= j < 64 implies has_sq(pawn_attack_mask(Color::Black, s), j)
        == has_sq(flipped_horizontal(wa), j) by {
        lemma_pawn_attack_mask_sq(Color::Black, s, j);
        lemma_flipped_horizontal_sq(wa, j);
        lemma_pawn_attack_mask_sq(Color::White, flip_h_src(s), flip_h_src(j));
        lemma_pawn_mirror(s, j);
        lemma_square_at_coords(file_of(j), 7 - rank_of(j));
    }
    lemma_sq_ext(pawn_attack_mask(Color::Black, s), flipped_horizontal(wa));
}

/// The white pawn quiet-move masks, one per origin square.
fn generate_white_pawn_move_masks() -> (r: Vec<u64>)
    ensures
        r@.len() == 64,
        forall|s: int| 0 <= s < 64 ==> r@[s] == pawn_move_mask(Color::White, s),
{
    let mut move_masks: Vec<u64> = Vec::new();
    let mut i: usize = 0;
    while i < 64
        invariant
            i <= 64,
            move_masks@.len() == i as int,
            forall|s: int| 0 <= s < i ==> move_masks@[s] == pawn_move_mask(Color::White, s),
        decreases 64 - i,
    {
        let current: u64 = 1u64 << (i as u64);
        let single = current.shift(Direction::Up);
        let start: u64 = current & RANK_2;
        let dbl1 = start.shift(Direction::Up);
        let double = dbl1.shift(Direction::Up);
        let mask = single | double;
        proof {
            let s = i as int;
            assert(current == square_bb(s));
            lemma_shift_from_square(s, Direction::Up, current, single);
            let s2: int = if rank_of(s) == 1 {
                s
            } else {
                64
            };
            assert(0xff00u64 == 0xffu64 << 8u64 && 0x0101010101010101u64 == 0x0101010101010101u64
                << 0u64) by (bit_vector);
            lemma_line_masks(8, RANK_2, FILE_A);
            assert forall|j: int| 0 <= j < 64 implies has_sq(start, j) == has_sq(
                square_bb(s2),
                j,
            ) by {
                lemma_and_sq(current, RANK_2, j);
                lemma_one_sq(s, j);
                lemma_square_bb_sq(s2, j);
            }
            lemma_sq_ext(start, square_bb(s2));
            lemma_square_bb_sq(s2, s2);
            lemma_shift_from_square(s2, Direction::Up, start, dbl1);
            lemma_shift_from_square(step_sq(s2, Direction::Up), Direction::Up, dbl1, double);
            if 0 <= s2 < 64 {
                lemma_step_twice(s2, Direction::Up, Direction::Up);
            }
            if coords_on_board(file_of(s), rank_of(s) + 1) {
                lemma_square_at_coords(file_of(s), rank_of(s) + 1);
            }
            if coords_on_board(file_of(s), rank_of(s) + 2) {
                lemma_square_at_coords(file_of(s), rank_of(s) + 2);
            }
            assert forall|j: int| 0 <= j < 64 implies (#[trigger] has_sq(mask, j)
                <==> pawn_quiet_move(Color::White, s, j)) by {
                lemma_or_sq(single, double, j);
                lemma_square_bb_sq(step_sq(s, Direction::Up), j);
                lemma_square_bb_sq(step_sq(step_sq(s2, Direction::Up), Direction::Up), j);
                vstd::arithmetic::div_mod::lemma_fundamental_div_mod(j, 8);
                vstd::arithmetic::div_mod::lemma_fundamental_div_mod(s, 8);
            }
            lemma_pawn_move_mask_intro(Color::White, s, mask);
        }
        move_masks.push(mask);
        i = i + 1;
    }
    move_masks
}

/// The white pawn attack masks, one per origin square.
fn generate_white_pawn_attack_masks() -> (r: Vec<u64>)
    ensures
        r@.len() == 64,
        forall|s: int| 0 <= s < 64 ==> r@[s] == pawn_attack_mask(Color::White, s),
{
    let mut attack_masks: Vec<u64> = Vec::new();
    let mut i: usize = 0;
    while i < 64
        invariant
            i <= 64,
            attack_masks@.len() == i as int,
            forall|s: int| 0 <= s < i ==> attack_masks@[s] == pawn_attack_mask(Color::White, s),
        decreases 64 - i,
    {
        let current: u64 = 1u64 << (i as u64);
        let left = current.shift(Direction::UpLeft);
        let right = current.shift(Direction::UpRight);
        let mask = left | right;
        proof {
            let s = i as int;
            assert(current == square_bb(s));
            lemma_shift_from_square(s, Direction::UpLeft, current, left);
            lemma_shift_from_square(s, Direction::UpRight, current, right);
            if coords_on_board(file_of(s) - 1, rank_of(s) + 1) {
                lemma_square_at_coords(file_of(s) - 1, rank_of(s) + 1);
            }
            if coords_on_board(file_of(s) + 1, rank_of(s) + 1) {
                lemma_square_at_coords(file_of(s) + 1, rank_of(s) + 1);
            }
            assert forall|j: int| 0 <= j < 64 implies (#[trigger] has_sq(mask, j)
                <==> pawn_attack_move(Color::White, s, j)) by {
                lemma_or_sq(left, right, j);
                lemma_square_bb_sq(step_sq(s, Direction::UpLeft), j);
                lemma_square_bb_sq(step_sq(s, Direction::UpRight), j);
                vstd::arithmetic::div_mod::lemma_fundamental_div_mod(j, 8);
                vstd::arithmetic::div_mod::lemma_fundamental_div_mod(s, 8);
            }
            lemma_pawn_attack_mask_intro(Color::White, s, mask);
        }
        attack_masks.push(mask);
        i = i + 1;
    }
    attack_masks
}

/// The pawn quiet-move tables, white (index 0) and black (index 1).  The
/// black table is the white table mirrored top-bottom: entry `s` is the
/// white mask at the mirrored square, flipped, so the two-step advance stays
/// tied to each side's own starting rank.
pub fn generate_move_masks_pawn() -> (r: Vec<Vec<u64>>)
    ensures
        r@.len() == 2,
        r@[0]@.len() == 64,
        r@[1]@.len() == 64,
        forall|s: int| 0 <= s < 64 ==> r@[0]@[s] == pawn_move_mask(Color::White, s),
        forall|s: int| 0 <= s < 64 ==> r@[1]@[s] == pawn_move_mask(Color::Black, s),
{
    let white = generate_white_pawn_move_masks();
    let mut black: Vec<u64> = Vec::new();
    let mut i: usize = 0;
    while i < 64
        invariant
            i <= 64,
            black@.len() == i as int,
            white@.len() == 64,
            forall|s: int| 0 <= s < 64 ==> white@[s] == pawn_move_mask(Color::White, s),
            forall|s: int| 0 <= s < i ==> black@[s] == pawn_move_mask(Color::Black, s),
        decreases 64 - i,
    {
        let mirror: usize = (7 - i / 8) * 8 + i % 8;
        let white_mask = white[mirror];
        let flipped = white_mask.flip_over_horizontal();
        proof {
            let s = i as int;
            assert(mirror as int == flip_h_src(s));
            lemma_square_at_coords(file_of(s), 7 - rank_of(s));
            assert forall|j: int| 0 <= j < 64 implies (#[trigger] has_sq(flipped, j)
                <==> pawn_quiet_move(Color::Black, s, j)) by {
                assert(flipped.sq(j) <==> white_mask.sq(flip_h_src(j)));
                lemma_square_at_coords(file_of(j), 7 - rank_of(j));
                lemma_pawn_move_mask_sq(Color::White, flip_h_src(s), flip_h_src(j));
                lemma_pawn_mirror(s, j);
            }
            lemma_pawn_move_mask_intro(Color::Black, s, flipped);
        }
        black.push(flipped);
        i = i + 1;
    }
    let mut tables: Vec<Vec<u64>> = Vec::new();
    tables.push(white);
    tables.push(black);
    tables
}

/// The pawn attack tables, white (index 0) and black (index 1); black again
/// mirrors white square by square.
pub fn generate_attack_masks_pawn() -> (r: Vec<Vec<u64>>)
    ensures
        r@.len() == 2,
        r@[0]@.len() == 64,
        r@[1]@.len() == 64,
        forall|s: int| 0 <= s < 64 ==> r@[0]@[s] == pawn_attack_mask(Color::White, s),
        forall|s: int| 0 <= s < 64 ==> r@[1]@[s] == pawn_attack_mask(Color::Black, s),
{
    let white = generate_white_pawn_attack_masks();
    let mut black: Vec<u64> = Vec::new();
    let mut i: usize = 0;
    while i < 64
        invariant
            i <= 64,
            black@.len() == i as int,
            white@.len() == 64,
            forall|s: int| 0 <= s < 64 ==> white@[s] == pawn_attack_mask(Color::White, s),
            forall|s: int| 0 <= s < i ==> black@[s] == pawn_attack_mask(Color::Black, s),
        decreases 64 - i,
    {
        let mirror: usize = (7 - i / 8) * 8 + i % 8;
        let white_mask = white[mirror];
        let flipped = white_mask.flip_over_horizontal();
        proof {
            let s = i as int;
            assert(mirror as int == flip_h_src(s));
            lemma_square_at_coords(file_of(s), 7 - rank_of(s));
            assert forall|j: int| 0 <= j < 64 implies (#[trigger] has_sq(flipped, j)
                <==> pawn_attack_move(Color::Black, s, j)) by {
                assert(flipped.sq(j) <==> white_mask.sq(flip_h_src(j)));
                lemma_square_at_coords(file_of(j), 7 - rank_of(j));
                lemma_pawn_attack_mask_sq(Color::White, flip_h_src(s), flip_h_src(j));
                lemma_pawn_mirror(s, j);
            }
            lemma_pawn_attack_mask_intro(Color::Black, s, flipped);
        }
        black.push(flipped);
        i = i + 1;
    }
    let mut tables: Vec<Vec<u64>> = Vec::new();
    tables.push(white);
    tables.push(black);
    tables
}

} // verus!
