//! Blocker-aware resolution of sliding-piece moves.
//!
//! Given a piece's unblocked ray mask, the full occupancy and the enemy
//! occupancy, each ray is cut at the first occupied square: an enemy square
//! may be entered (a capture), a friendly square may not, and nothing beyond
//! the first occupied square is reachable.

use vstd::prelude::*;
use crate::bitboard::{
    file_delta, file_of, lemma_shift_from_square, lemma_square_at_coords, lemma_square_bb_sq,
    rank_delta, rank_of, shift_src, shift_src_on_board, square_at, square_bb, step_sq, Bitboard,
    Direction,
};
use crate::bits::{
    has_sq, lemma_and_sq, lemma_nonzero_has_sq, lemma_not_sq, lemma_or_sq, lemma_zero_sq,
};
use crate::masks::{
    bishop_mask, bishop_move, forward_rank_delta, lemma_bishop_mask_sq, lemma_pawn_attack_mask_sq,
    lemma_pawn_move_mask_sq, lemma_queen_mask_sq, lemma_ray_step_rel, lemma_rook_mask_sq,
    pawn_attack_mask, pawn_attack_move, pawn_move_mask, pawn_quiet_move, queen_mask, queen_move,
    ray_move, ray_steps, rook_mask, rook_move,
};
use crate::player::Color;

verus! {

/// The direction pointing the opposite way.
pub open spec fn opposite_of(d: Direction) -> Direction {
    match d {
        Direction::Up => Direction::Down,
        Direction::UpRight => Direction::DownLeft,
        Direction::Right => Direction::Left,
        Direction::DownRight => Direction::UpLeft,
        Direction::Down => Direction::Up,
        Direction::DownLeft => Direction::UpRight,
        Direction::Left => Direction::Right,
        Direction::UpLeft => Direction::DownRight,
    }
}

/// `j` is a legal destination along the ray from `s` in `d`: `j` lies on the
/// ray, every nearer ray square is empty in `occupied`, and `j` itself is
/// empty or holds an enemy piece (a capture).
pub open spec fn ray_dest(s: int, d: Direction, occupied: u64, enemy: u64, j: int) -> bool {
    &&& ray_move(s, d, j)
    &&& (forall|t: int|
        #[trigger] ray_move(s, d, t) && ray_steps(s, d, t) < ray_steps(s, d, j) ==> !has_sq(
            occupied,
            t,
        ))
    &&& (!has_sq(occupied, j) || has_sq(enemy, j))
}

/// The legal rook destinations from `s`: the four orthogonal rays, each cut
/// at its first occupied square.
pub open spec fn rook_dest(s: int, whole: u64, enemy: u64, j: int) -> bool {
    ||| ray_dest(s, Direction::Left, whole, enemy, j)
    ||| ray_dest(s, Direction::Right, whole, enemy, j)
    ||| ray_dest(s, Direction::Up, whole, enemy, j)
    ||| ray_dest(s, Direction::Down, whole, enemy, j)
}

/// The legal bishop destinations from `s`: the four diagonal rays, each cut
/// at its first occupied square.
pub open spec fn bishop_dest(s: int, whole: u64, enemy: u64, j: int) -> bool {
    ||| ray_dest(s, Direction::UpLeft, whole, enemy, j)
    ||| ray_dest(s, Direction::UpRight, whole, enemy, j)
    ||| ray_dest(s, Direction::DownLeft, whole, enemy, j)
    ||| ray_dest(s, Direction::DownRight, whole, enemy, j)
}

/// The legal queen destinations from `s`: all eight rays, each cut at its
/// first occupied square.
pub open spec fn queen_dest(s: int, whole: u64, enemy: u64, j: int) -> bool {
    rook_dest(s, whole, enemy, j) || bishop_dest(s, whole, enemy, j)
}

/// Two ray squares the same number of steps out are the same square.
proof fn lemma_ray_sq_unique(s: int, d: Direction, a: int, b: int)
    requires
        ray_move(s, d, a),
        ray_move(s, d, b),
        ray_steps(s, d, a) == ray_steps(s, d, b),
    ensures
        a == b,
{
    vstd::arithmetic::div_mod::lemma_fundamental_div_mod(a, 8);
    vstd::arithmetic::div_mod::lemma_fundamental_div_mod(b, 8);
}

/// Every step count up to a ray square's is reached by some ray square.
proof fn lemma_ray_reaches(s: int, d: Direction, w: int, m: int)
    requires
        ray_move(s, d, w),
        1 <= m <= ray_steps(s, d, w),
    ensures
        exists|t: int| #[trigger] ray_move(s, d, t) && ray_steps(s, d, t) == m,
    decreases ray_steps(s, d, w) - m,
{
    if m == ray_steps(s, d, w) {
        assert(ray_move(s, d, w) && ray_steps(s, d, w) == m);
    } else {
        lemma_ray_step_rel(s, d, w);
        let prev = shift_src(d, w);
        assert(ray_move(s, d, prev) && ray_steps(s, d, prev) == ray_steps(s, d, w) - 1);
        lemma_ray_reaches(s, d, prev, m);
    }
}

/// Cast one ray from the lone bit of `current` in `ray_direction` and cut it
/// at the first square of `blockers_bitboard`: that square stays in the result
/// only if `enemy_bitboard` holds it (a capture), and nothing beyond it stays.
/// The origin square itself is never part of the result.
pub fn closest_sliding_moves(
    ray_direction: Direction,
    opposite_direction: Direction,
    enemy_bitboard: u64,
    blockers_bitboard: u64,
    current: u64,
    Ghost(origin): Ghost<int>,
) -> (r: u64)
    requires
        0 <= origin < 64,
        current == square_bb(origin),
        opposite_direction == opposite_of(ray_direction),
    ensures
        forall|j: int|
            #[trigger] has_sq(r, j) <==> ray_dest(
                origin,
                ray_direction,
                blockers_bitboard,
                enemy_bitboard,
                j,
            ),
{
    let ghost s = origin;
    let ghost d = ray_direction;
    let mut current_ray = current.shift(ray_direction);
    proof {
        lemma_shift_from_square(s, d, current, current_ray);
        assert forall|j: int| #[trigger] has_sq(current_ray, j) <==> (ray_move(s, d, j)
            && ray_steps(s, d, j) <= 1) by {
            lemma_square_bb_sq(step_sq(s, d), j);
            if 0 <= j < 64 {
                lemma_ray_step_rel(s, d, j);
            }
        }
    }
    let mut n: usize = 0;
    let mut done: bool = false;
    while n < 8 && !done
        invariant
            0 <= s < 64,
            current == square_bb(s),
            d == ray_direction,
            opposite_direction == opposite_of(d),
            n <= 8,
            done ==> forall|j: int|
                j != s ==> (#[trigger] has_sq(current_ray, j) <==> ray_dest(
                    s,
                    d,
                    blockers_bitboard,
                    enemy_bitboard,
                    j,
                )),
            !done ==> forall|j: int|
                #[trigger] has_sq(current_ray, j) <==> (ray_move(s, d, j) && ray_steps(s, d, j)
                    <= n + 1),
            !done ==> forall|j: int|
                ray_move(s, d, j) && ray_steps(s, d, j) <= n ==> !(#[trigger] has_sq(
                    blockers_bitboard,
                    j,
                )),
        decreases 8 - n, (if done { 0int } else { 1int }),
    {
        if enemy_bitboard & current_ray & blockers_bitboard > 0 {
            proof {
                lemma_nonzero_has_sq(enemy_bitboard & current_ray & blockers_bitboard);
                let w = choose|t: int|
                    0 <= t < 64 && #[trigger] has_sq(
                        enemy_bitboard & current_ray & blockers_bitboard,
                        t,
                    );
                lemma_and_sq(enemy_bitboard, current_ray, w);
                lemma_and_sq(enemy_bitboard & current_ray, blockers_bitboard, w);
                assert(has_sq(current_ray, w) && has_sq(blockers_bitboard, w) && has_sq(
                    enemy_bitboard,
                    w,
                ));
                assert(ray_move(s, d, w) && ray_steps(s, d, w) == n + 1);
                assert forall|j: int|
                    j != s implies (#[trigger] has_sq(current_ray, j) <==> ray_dest(
                    s,
                    d,
                    blockers_bitboard,
                    enemy_bitboard,
                    j,
                )) by {
                    if ray_move(s, d, j) {
                        if ray_steps(s, d, j) == n + 1 {
                            lemma_ray_sq_unique(s, d, j, w);
                        }
                        if ray_steps(s, d, j) > n + 1 {
                            assert(ray_move(s, d, w) && ray_steps(s, d, w) < ray_steps(s, d, j)
                                && has_sq(blockers_bitboard, w));
                            assert(!ray_dest(s, d, blockers_bitboard, enemy_bitboard, j));
                        }
                    }
                }
            }
            done = true;
        } else if current_ray & blockers_bitboard > 0 {
            proof {
                lemma_nonzero_has_sq(current_ray & blockers_bitboard);
                let w = choose|t: int|
                    0 <= t < 64 && #[trigger] has_sq(current_ray & blockers_bitboard, t);
                lemma_and_sq(current_ray, blockers_bitboard, w);
                assert(ray_move(s, d, w) && ray_steps(s, d, w) == n + 1);
                lemma_and_sq(enemy_bitboard, current_ray, w);
                lemma_and_sq(enemy_bitboard & current_ray, blockers_bitboard, w);
                lemma_zero_sq(w);
                assert(!has_sq(enemy_bitboard, w));
            }
            let retreated = current_ray.shift(opposite_direction);
            proof {
                let w = choose|t: int|
                    0 <= t < 64 && #[trigger] has_sq(current_ray & blockers_bitboard, t);
                lemma_and_sq(current_ray, blockers_bitboard, w);
                assert forall|j: int|
                    j != s implies (#[trigger] has_sq(retreated, j) <==> ray_dest(
                    s,
                    d,
                    blockers_bitboard,
                    enemy_bitboard,
                    j,
                )) by {
                    assert(retreated.sq(j) <==> shift_src_on_board(opposite_direction, j)
                        && current_ray.sq(shift_src(opposite_direction, j)));
                    if 0 <= j < 64 {
                        vstd::arithmetic::div_mod::lemma_fundamental_div_mod(j, 8);
                        lemma_ray_step_rel(s, d, j);
                        let fwd = shift_src(opposite_direction, j);
                        if shift_src_on_board(opposite_direction, j) {
                            lemma_square_at_coords(
                                file_of(j) - file_delta(opposite_direction),
                                rank_of(j) - rank_delta(opposite_direction),
                            );
                            lemma_ray_step_rel(s, d, fwd);
                            assert(shift_src(d, fwd) == j);
                        }
                        if ray_move(s, d, j) && ray_steps(s, d, j) <= n && ray_steps(s, d, j)
                            >= 1 {
                            let m = ray_steps(s, d, j);
                            lemma_ray_reaches(s, d, w, m + 1);
                            let t = choose|t: int|
                                #[trigger] ray_move(s, d, t) && ray_steps(s, d, t) == m + 1;
                            vstd::arithmetic::div_mod::lemma_fundamental_div_mod(t, 8);
                            lemma_ray_step_rel(s, d, t);
                            assert(shift_src(d, t) == j) by {
                                lemma_ray_sq_unique(s, d, shift_src(d, t), j);
                            }
                            assert(shift_src_on_board(opposite_direction, j));
                            assert(fwd == t);
                            assert(has_sq(current_ray, t));
                        }
                    }
                }
            }
            current_ray = retreated;
            done = true;
        } else {
            let ext = current_ray.shift(ray_direction);
            proof {
                assert forall|j: int|
                    ray_move(s, d, j) && ray_steps(s, d, j) <= n + 1 implies !(#[trigger] has_sq(
                    blockers_bitboard,
                    j,
                )) by {
                    lemma_and_sq(current_ray, blockers_bitboard, j);
                    lemma_zero_sq(j);
                }
                assert forall|j: int| #[trigger] has_sq(current_ray | ext, j) <==> (ray_move(
                    s,
                    d,
                    j,
                ) && ray_steps(s, d, j) <= n + 2) by {
                    lemma_or_sq(current_ray, ext, j);
                    if 0 <= j < 64 {
                        assert(ext.sq(j) <==> shift_src_on_board(d, j) && current_ray.sq(
                            shift_src(d, j),
                        ));
                        lemma_ray_step_rel(s, d, j);
                    } else {
                        assert(!has_sq(current_ray, j) && !has_sq(ext, j));
                    }
                }
            }
            current_ray = current_ray | ext;
            n = n + 1;
        }
    }
    proof {
        if !done {
            assert forall|j: int|
                j != s implies (#[trigger] has_sq(current_ray, j) <==> ray_dest(
                s,
                d,
                blockers_bitboard,
                enemy_bitboard,
                j,
            )) by {
                if 0 <= j < 64 {
                    lemma_ray_step_rel(s, d, j);
                }
            }
        }
    }
    let r = current_ray & !current;
    proof {
        assert forall|j: int| #[trigger] has_sq(r, j) <==> ray_dest(
            s,
            d,
            blockers_bitboard,
            enemy_bitboard,
            j,
        ) by {
            lemma_and_sq(current_ray, !current, j);
            if 0 <= j < 64 {
                lemma_not_sq(current, j);
                lemma_square_bb_sq(s, j);
            }
        }
    }
    r
}

/// Changing the occupancy only off the ray leaves the ray's destinations
/// unchanged.
proof fn lemma_ray_dest_occ_agree(s: int, d: Direction, occ1: u64, occ2: u64, enemy: u64, j: int)
    requires
        forall|t: int| #[trigger] ray_move(s, d, t) ==> has_sq(occ1, t) == has_sq(occ2, t),
    ensures
        ray_dest(s, d, occ1, enemy, j) == ray_dest(s, d, occ2, enemy, j),
{
    if ray_dest(s, d, occ1, enemy, j) {
        assert forall|t: int|
            #[trigger] ray_move(s, d, t) && ray_steps(s, d, t) < ray_steps(s, d, j) implies !has_sq(
            occ2,
            t,
        ) by {
            assert(!has_sq(occ1, t));
        }
        assert(ray_dest(s, d, occ2, enemy, j));
    }
    if ray_dest(s, d, occ2, enemy, j) {
        assert forall|t: int|
            #[trigger] ray_move(s, d, t) && ray_steps(s, d, t) < ray_steps(s, d, j) implies !has_sq(
            occ1,
            t,
        ) by {
            assert(!has_sq(occ2, t));
        }
        assert(ray_dest(s, d, occ1, enemy, j));
    }
}

/// Legal bishop moves for the piece on `board_index`, given its unblocked
/// mask, the enemy occupancy and the whole occupancy.
pub fn possible_moves_bishop(
    enemy_bitboard: u64,
    whole_bitboard: u64,
    all_bishop_moves: &Vec<u64>,
    board_index: usize,
) -> (r: u64)
    requires
        board_index < 64,
        all_bishop_moves@.len() == 64,
        all_bishop_moves@[board_index as int] == bishop_mask(board_index as int),
    ensures
        forall|j: int|
            #[trigger] has_sq(r, j) <==> bishop_dest(
                board_index as int,
                whole_bitboard,
                enemy_bitboard,
                j,
            ),
{
    let possible_moves = all_bishop_moves[board_index];
    let blockers_bitboard = possible_moves & whole_bitboard;
    let current: u64 = 1u64 << (board_index as u64);
    let ghost s = board_index as int;
    proof {
        assert(current == square_bb(s));
    }
    let up_left_ray = closest_sliding_moves(
        Direction::UpLeft,
        Direction::DownRight,
        enemy_bitboard,
        blockers_bitboard,
        current,
        Ghost(s),
    );
    let up_right_ray = closest_sliding_moves(
        Direction::UpRight,
        Direction::DownLeft,
        enemy_bitboard,
        blockers_bitboard,
        current,
        Ghost(s),
    );
    let down_left_ray = closest_sliding_moves(
        Direction::DownLeft,
        Direction::UpRight,
        enemy_bitboard,
        blockers_bitboard,
        current,
        Ghost(s),
    );
    let down_right_ray = closest_sliding_moves(
        Direction::DownRight,
        Direction::UpLeft,
        enemy_bitboard,
        blockers_bitboard,
        current,
        Ghost(s),
    );
    let m1 = up_left_ray | up_right_ray;
    let m2 = m1 | down_left_ray;
    let r = m2 | down_right_ray;
    proof {
        assert forall|j: int| #[trigger] has_sq(r, j) <==> bishop_dest(
            s,
            whole_bitboard,
            enemy_bitboard,
            j,
        ) by {
            lemma_or_sq(up_left_ray, up_right_ray, j);
            lemma_or_sq(m1, down_left_ray, j);
            lemma_or_sq(m2, down_right_ray, j);
            lemma_bishop_blockers_agree(s, Direction::UpLeft, possible_moves, whole_bitboard);
            lemma_bishop_blockers_agree(s, Direction::UpRight, possible_moves, whole_bitboard);
            lemma_bishop_blockers_agree(s, Direction::DownLeft, possible_moves, whole_bitboard);
            lemma_bishop_blockers_agree(s, Direction::DownRight, possible_moves, whole_bitboard);
            lemma_ray_dest_occ_agree(
                s,
                Direction::UpLeft,
                blockers_bitboard,
                whole_bitboard,
                enemy_bitboard,
                j,
            );
            lemma_ray_dest_occ_agree(
                s,
                Direction::UpRight,
                blockers_bitboard,
                whole_bitboard,
                enemy_bitboard,
                j,
            );
            lemma_ray_dest_occ_agree(
                s,
                Direction::DownLeft,
                blockers_bitboard,
                whole_bitboard,
                enemy_bitboard,
                j,
            );
            lemma_ray_dest_occ_agree(
                s,
                Direction::DownRight,
                blockers_bitboard,
                whole_bitboard,
                enemy_bitboard,
                j,
            );
        }
    }
    r
}

/// On a diagonal ray every square lies in the bishop mask, so masking the
/// occupancy with it changes nothing on the ray.
proof fn lemma_bishop_blockers_agree(s: int, d: Direction, mask: u64, whole: u64)
    requires
        0 <= s < 64,
        mask == bishop_mask(s),
        d == Direction::UpLeft || d == Direction::UpRight || d == Direction::DownLeft || d
            == Direction::DownRight,
    ensures
        forall|t: int| #[trigger] ray_move(s, d, t) ==> has_sq(mask & whole, t) == has_sq(whole, t),
{
    assert forall|t: int| #[trigger] ray_move(s, d, t) implies has_sq(mask & whole, t) == has_sq(
        whole,
        t,
    ) by {
        lemma_and_sq(mask, whole, t);
        lemma_bishop_mask_sq(s, t);
        assert(bishop_move(s, t));
    }
}

/// On an orthogonal ray every square lies in the rook mask.
proof fn lemma_rook_blockers_agree(s: int, d: Direction, mask: u64, whole: u64)
    requires
        0 <= s < 64,
        mask == rook_mask(s),
        d == Direction::Left || d == Direction::Right || d == Direction::Up || d == Direction::Down,
    ensures
        forall|t: int| #[trigger] ray_move(s, d, t) ==> has_sq(mask & whole, t) == has_sq(whole, t),
{
    assert forall|t: int| #[trigger] ray_move(s, d, t) implies has_sq(mask & whole, t) == has_sq(
        whole,
        t,
    ) by {
        lemma_and_sq(mask, whole, t);
        lemma_rook_mask_sq(s, t);
        assert(rook_move(s, t));
    }
}

/// On any of the eight rays every square lies in the queen mask.
proof fn lemma_queen_blockers_agree(s: int, d: Direction, mask: u64, whole: u64)
    requires
        0 <= s < 64,
        mask == queen_mask(s),
    ensures
        forall|t: int| #[trigger] ray_move(s, d, t) ==> has_sq(mask & whole, t) == has_sq(whole, t),
{
    assert forall|t: int| #[trigger] ray_move(s, d, t) implies has_sq(mask & whole, t) == has_sq(
        whole,
        t,
    ) by {
        lemma_and_sq(mask, whole, t);
        lemma_queen_mask_sq(s, t);
        assert(queen_move(s, t));
    }
}

/// Legal rook moves for the piece on `board_index`, given its unblocked
/// mask, the enemy occupancy and the whole occupancy.
pub fn possible_moves_rook(
    enemy_bitboard: u64,
    whole_bitboard: u64,
    all_rook_moves: &Vec<u64>,
    board_index: usize,
) -> (r: u64)
    requires
        board_index < 64,
        all_rook_moves@.len() == 64,
        all_rook_moves@[board_index as int] == rook_mask(board_index as int),
    ensures
        forall|j: int|
            #[trigger] has_sq(r, j) <==> rook_dest(
                board_index as int,
                whole_bitboard,
                enemy_bitboard,
                j,
            ),
{
    let possible_moves = all_rook_moves[board_index];
    let blockers_bitboard = possible_moves & whole_bitboard;
    let current: u64 = 1u64 << (board_index as u64);
    let ghost s = board_index as int;
    proof {
        assert(current == square_bb(s));
    }
    let left_ray = closest_sliding_moves(
        Direction::Left,
        Direction::Right,
        enemy_bitboard,
        blockers_bitboard,
        current,
        Ghost(s),
    );
    let right_ray = closest_sliding_moves(
        Direction::Right,
        Direction::Left,
        enemy_bitboard,
        blockers_bitboard,
        current,
        Ghost(s),
    );
    let up_ray = closest_sliding_moves(
        Direction::Up,
        Direction::Down,
        enemy_bitboard,
        blockers_bitboard,
        current,
        Ghost(s),
    );
    let down_ray = closest_sliding_moves(
        Direction::Down,
        Direction::Up,
        enemy_bitboard,
        blockers_bitboard,
        current,
        Ghost(s),
    );
    let m1 = left_ray | right_ray;
    let m2 = m1 | up_ray;
    let r = m2 | down_ray;
    proof {
        assert forall|j: int| #[trigger] has_sq(r, j) <==> rook_dest(
            s,
            whole_bitboard,
            enemy_bitboard,
            j,
        ) by {
            lemma_or_sq(left_ray, right_ray, j);
            lemma_or_sq(m1, up_ray, j);
            lemma_or_sq(m2, down_ray, j);
            lemma_rook_blockers_agree(s, Direction::Left, possible_moves, whole_bitboard);
            lemma_rook_blockers_agree(s, Direction::Right, possible_moves, whole_bitboard);
            lemma_rook_blockers_agree(s, Direction::Up, possible_moves, whole_bitboard);
            lemma_rook_blockers_agree(s, Direction::Down, possible_moves, whole_bitboard);
            lemma_ray_dest_occ_agree(
                s,
                Direction::Left,
                blockers_bitboard,
                whole_bitboard,
                enemy_bitboard,
                j,
            );
            lemma_ray_dest_occ_agree(
                s,
                Direction::Right,
                blockers_bitboard,
                whole_bitboard,
                enemy_bitboard,
                j,
            );
            lemma_ray_dest_occ_agree(
                s,
                Direction::Up,
                blockers_bitboard,
                whole_bitboard,
                enemy_bitboard,
                j,
            );
            lemma_ray_dest_occ_agree(
                s,
                Direction::Down,
                blockers_bitboard,
                whole_bitboard,
                enemy_bitboard,
                j,
            );
        }
    }
    r
}

/// Legal queen moves for the piece on `board_index`, given its unblocked
/// mask, the enemy occupancy and the whole occupancy.
pub fn possible_moves_queen(
    enemy_bitboard: u64,
    whole_bitboard: u64,
    all_queen_moves: &Vec<u64>,
    board_index: usize,
) -> (r: u64)
    requires
        board_index < 64,
        all_queen_moves@.len() == 64,
        all_queen_moves@[board_index as int] == queen_mask(board_index as int),
    ensures
        forall|j: int|
            #[trigger] has_sq(r, j) <==> queen_dest(
                board_index as int,
                whole_bitboard,
                enemy_bitboard,
                j,
            ),
{
    let possible_moves = all_queen_moves[board_index];
    let blockers_bitboard = possible_moves & whole_bitboard;
    let current: u64 = 1u64 << (board_index as u64);
    let ghost s = board_index as int;
    proof {
        assert(current == square_bb(s));
    }
    let left_ray = closest_sliding_moves(
        Direction::Left,
        Direction::Right,
        enemy_bitboard,
        blockers_bitboard,
        current,
        Ghost(s),
    );
    let right_ray = closest_sliding_moves(
        Direction::Right,
        Direction::Left,
        enemy_bitboard,
        blockers_bitboard,
        current,
        Ghost(s),
    );
    let up_ray = closest_sliding_moves(
        Direction::Up,
        Direction::Down,
        enemy_bitboard,
        blockers_bitboard,
        current,
        Ghost(s),
    );
    let down_ray = closest_sliding_moves(
        Direction::Down,
        Direction::Up,
        enemy_bitboard,
        blockers_bitboard,
        current,
        Ghost(s),
    );
    let up_left_ray = closest_sliding_moves(
        Direction::UpLeft,
        Direction::DownRight,
        enemy_bitboard,
        blockers_bitboard,
        current,
        Ghost(s),
    );
    let up_right_ray = closest_sliding_moves(
        Direction::UpRight,
        Direction::DownLeft,
        enemy_bitboard,
        blockers_bitboard,
        current,
        Ghost(s),
    );
    let down_left_ray = closest_sliding_moves(
        Direction::DownLeft,
        Direction::UpRight,
        enemy_bitboard,
        blockers_bitboard,
        current,
        Ghost(s),
    );
    let down_right_ray = closest_sliding_moves(
        Direction::DownRight,
        Direction::UpLeft,
        enemy_bitboard,
        blockers_bitboard,
        current,
        Ghost(s),
    );
    let m1 = up_left_ray | up_right_ray;
    let m2 = m1 | down_left_ray;
    let m3 = m2 | down_right_ray;
    let m4 = m3 | left_ray;
    let m5 = m4 | right_ray;
    let m6 = m5 | up_ray;
    let r = m6 | down_ray;
    proof {
        assert forall|j: int| #[trigger] has_sq(r, j) <==> queen_dest(
            s,
            whole_bitboard,
            enemy_bitboard,
            j,
        ) by {
            lemma_or_sq(up_left_ray, up_right_ray, j);
            lemma_or_sq(m1, down_left_ray, j);
            lemma_or_sq(m2, down_right_ray, j);
            lemma_or_sq(m3, left_ray, j);
            lemma_or_sq(m4, right_ray, j);
            lemma_or_sq(m5, up_ray, j);
            lemma_or_sq(m6, down_ray, j);
            lemma_queen_blockers_agree(s, Direction::Left, possible_moves, whole_bitboard);
            lemma_queen_blockers_agree(s, Direction::Right, possible_moves, whole_bitboard);
            lemma_queen_blockers_agree(s, Direction::Up, possible_moves, whole_bitboard);
            lemma_queen_blockers_agree(s, Direction::Down, possible_moves, whole_bitboard);
            lemma_queen_blockers_agree(s, Direction::UpLeft, possible_moves, whole_bitboard);
            lemma_queen_blockers_agree(s, Direction::UpRight, possible_moves, whole_bitboard);
            lemma_queen_blockers_agree(s, Direction::DownLeft, possible_moves, whole_bitboard);
            lemma_queen_blockers_agree(s, Direction::DownRight, possible_moves, whole_bitboard);
            lemma_ray_dest_occ_agree(
                s,
                Direction::Left,
                blockers_bitboard,
                whole_bitboard,
                enemy_bitboard,
                j,
            );
            lemma_ray_dest_occ_agree(
                s,
                Direction::Right,
                blockers_bitboard,
                whole_bitboard,
                enemy_bitboard,
                j,
            );
            lemma_ray_dest_occ_agree(
                s,
                Direction::Up,
                blockers_bitboard,
                whole_bitboard,
                enemy_bitboard,
                j,
            );
            lemma_ray_dest_occ_agree(
                s,
                Direction::Down,
                blockers_bitboard,
                whole_bitboard,
                enemy_bitboard,
                j,
            );
            lemma_ray_dest_occ_agree(
                s,
                Direction::UpLeft,
                blockers_bitboard,
                whole_bitboard,
                enemy_bitboard,
                j,
            );
            lemma_ray_dest_occ_agree(
                s,
                Direction::UpRight,
                blockers_bitboard,
                whole_bitboard,
                enemy_bitboard,
                j,
            );
            lemma_ray_dest_occ_agree(
                s,
                Direction::DownLeft,
                blockers_bitboard,
                whole_bitboard,
                enemy_bitboard,
                j,
            );
            lemma_ray_dest_occ_agree(
                s,
                Direction::DownRight,
                blockers_bitboard,
                whole_bitboard,
                enemy_bitboard,
                j,
            );
        }
    }
    r
}

/// A pawn's legal destinations: a quiet advance is legal only onto empty
/// squares, with the crossed square also empty for the double step; a
/// diagonal attack is legal only onto an enemy square.
pub open spec fn pawn_dest(c: Color, whole: u64, enemy: u64, s: int, j: int) -> bool {
    ||| (pawn_quiet_move(c, s, j) && !has_sq(whole, j) && !has_sq(
        whole,
        square_at(file_of(s), rank_of(s) + forward_rank_delta(c)),
    ))
    ||| (pawn_attack_move(c, s, j) && has_sq(enemy, j))
}

/// Legal pawn moves for the pawn of side `color` on `board_index`: quiet
/// advances onto empty squares (the double step also needs the crossed
/// square empty) and diagonal captures of enemy pieces.
pub fn possible_moves_pawn(
    color: Color,
    enemy_bitboard: u64,
    whole_bitboard: u64,
    all_pawn_moves: &Vec<u64>,
    all_pawn_attack_moves: &Vec<u64>,
    board_index: usize,
) -> (r: u64)
    requires
        board_index < 64,
        all_pawn_moves@.len() == 64,
        all_pawn_attack_moves@.len() == 64,
        all_pawn_moves@[board_index as int] == pawn_move_mask(color, board_index as int),
        all_pawn_attack_moves@[board_index as int] == pawn_attack_mask(color, board_index as int),
    ensures
        forall|j: int|
            #[trigger] has_sq(r, j) <==> pawn_dest(
                color,
                whole_bitboard,
                enemy_bitboard,
                board_index as int,
                j,
            ),
{
    let attacks = all_pawn_attack_moves[board_index] & enemy_bitboard;
    let step: i32 = match color {
        Color::White => 8,
        Color::Black => -8,
    };
    let crossed: i32 = board_index as i32 + step;
    let quiet: u64 = if 0 <= crossed && crossed < 64 && whole_bitboard & (1u64 << (crossed
        as u64)) == 0 {
        all_pawn_moves[board_index] & !whole_bitboard
    } else {
        0
    };
    let r = quiet | attacks;
    proof {
        let s = board_index as int;
        let mid = square_at(file_of(s), rank_of(s) + forward_rank_delta(color));
        vstd::arithmetic::div_mod::lemma_fundamental_div_mod(s, 8);
        assert(mid == crossed as int);
        assert forall|j: int| #[trigger] has_sq(r, j) <==> pawn_dest(
            color,
            whole_bitboard,
            enemy_bitboard,
            s,
            j,
        ) by {
            lemma_or_sq(quiet, attacks, j);
            lemma_and_sq(all_pawn_attack_moves@[s], enemy_bitboard, j);
            lemma_pawn_attack_mask_sq(color, s, j);
            if 0 <= crossed < 64 && !has_sq(whole_bitboard, crossed as int) {
                lemma_and_sq(all_pawn_moves@[s], !whole_bitboard, j);
                lemma_pawn_move_mask_sq(color, s, j);
                if 0 <= j < 64 {
                    lemma_not_sq(whole_bitboard, j);
                    vstd::arithmetic::div_mod::lemma_fundamental_div_mod(j, 8);
                }
            } else {
                lemma_zero_sq(j);
                if 0 <= j < 64 {
                    vstd::arithmetic::div_mod::lemma_fundamental_div_mod(j, 8);
                }
            }
        }
    }
    r
}

} // verus!
