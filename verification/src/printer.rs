//! Text rendering of a board: eight rows of `0`/`1` characters, rank 8
//! first and file a leftmost, the way a player seated behind white reads
//! the board.

use vstd::prelude::*;
use vstd::string::StringExecFns;
use crate::bitboard::square_at;
use crate::bits::has_sq;

verus! {

/// The character square `i` of `b` prints as: '1' when set, '0' when clear.
pub open spec fn square_char(b: u64, i: int) -> char {
    if has_sq(b, i) {
        '1'
    } else {
        '0'
    }
}

/// The eight text rows of `bitboard`: row `k` shows rank `7 - k`, its
/// column `c` the square on file `c` of that rank.
pub fn bitboard_rows(bitboard: u64) -> (rows: Vec<String>)
    ensures
        rows@.len() == 8,
        forall|k: int| 0 <= k < 8 ==> (#[trigger] rows@[k])@.len() == 8,
        forall|k: int, c: int|
            0 <= k < 8 && 0 <= c < 8 ==> (#[trigger] rows@[k]@[c]) == square_char(
                bitboard,
                square_at(c, 7 - k),
            ),
{
    proof {
        reveal_strlit("0");
        reveal_strlit("1");
    }
    let mut rows: Vec<String> = Vec::new();
    let mut row_i: usize = 0;
    while row_i < 8
        invariant
            row_i <= 8,
            rows@.len() == row_i as int,
            forall|k: int| 0 <= k < row_i ==> (#[trigger] rows@[k])@.len() == 8,
            forall|k: int, c: int|
                0 <= k < row_i && 0 <= c < 8 ==> (#[trigger] rows@[k]@[c]) == square_char(
                    bitboard,
                    square_at(c, 7 - k),
                ),
        decreases 8 - row_i,
    {
        proof {
            reveal_strlit("0");
            reveal_strlit("1");
        }
        let rank: usize = 7 - row_i;
        let mut line = String::new();
        let mut file: usize = 0;
        while file < 8
            invariant
                file <= 8,
                rank == 7 - row_i,
                row_i < 8,
                line@.len() == file as int,
                forall|c: int|
                    0 <= c < file ==> line@[c] == square_char(bitboard, square_at(c, rank as int)),
            decreases 8 - file,
        {
            proof {
                reveal_strlit("0");
                reveal_strlit("1");
            }
            let idx: u64 = (rank * 8 + file) as u64;
            if bitboard & (1u64 << idx) != 0 {
                line.append("1");
            } else {
                line.append("0");
            }
            file = file + 1;
        }
        rows.push(line);
        row_i = row_i + 1;
    }
    rows
}

/// The squares of `bitboard` below square `n` as `(file, rank)` pairs, in
/// ascending square order.
pub open spec fn coords_of_below(bitboard: u64, n: int) -> Seq<(usize, usize)>
    decreases n,
{
    if n <= 0 {
        Seq::empty()
    } else {
        coords_of_below(bitboard, n - 1) + (if has_sq(bitboard, n - 1) {
            seq![(((n - 1) % 8) as usize, ((n - 1) / 8) as usize)]
        } else {
            Seq::empty()
        })
    }
}

/// All squares of `bitboard` as `(file, rank)` pairs, ascending.
pub open spec fn coords_of(bitboard: u64) -> Seq<(usize, usize)> {
    coords_of_below(bitboard, 64)
}

/// Every set square of `bitboard` as a `(file, rank)` pair, in ascending
/// square order.
pub fn to_2d_coordinates(bitboard: u64) -> (r: Vec<(usize, usize)>)
    ensures
        r@ == coords_of(bitboard),
{
    let mut coords: Vec<(usize, usize)> = Vec::new();
    let mut i: usize = 0;
    while i < 64
        invariant
            i <= 64,
            coords@ == coords_of_below(bitboard, i as int),
        decreases 64 - i,
    {
        let current = 1u64 << (i as u64);
        if bitboard & current > 0 {
            coords.push((i % 8, i / 8));
        }
        i = i + 1;
        proof {
            assert(coords@ =~= coords_of_below(bitboard, i as int));
        }
    }
    coords
}

} // verus!
