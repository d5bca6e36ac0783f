//! Per-bit reasoning for 64-bit boards.
//!
//! A board is a `u64`; `has_sq(b, i)` says that square `i` (0..64) is set in
//! `b`.  `board_of(f)` is the unique board whose squares are exactly those
//! `i` with `f(i)`; it is the bridge between per-square predicates and the
//! `u64` values the executable code computes.

use vstd::prelude::*;

verus! {

/// Bit `i` of `b`, for `i < 64`.
pub open spec fn bit_get(b: u64, i: u64) -> bool {
    b & (1u64 << i) != 0
}

/// Square `i` is set in board `b`; false off the board.
pub open spec fn has_sq(b: u64, i: int) -> bool {
    0 <= i < 64 && bit_get(b, i as u64)
}

/// The board whose squares below `n` are exactly those `i` with `f(i)`.
pub open spec fn bits_below(f: spec_fn(int) -> bool, n: int) -> u64
    decreases n,
{
    if n <= 0 {
        0u64
    } else {
        bits_below(f, n - 1) | (if f(n - 1) {
            1u64 << ((n - 1) as u64)
        } else {
            0u64
        })
    }
}

/// The board whose squares are exactly those `i` in 0..64 with `f(i)`.
pub open spec fn board_of(f: spec_fn(int) -> bool) -> u64 {
    bits_below(f, 64)
}

pub proof fn lemma_zero_sq(i: int)
    ensures
        !has_sq(0u64, i),
{
    if 0 <= i < 64 {
        let j = i as u64;
        assert(!bit_get(0u64, j)) by (bit_vector);
    }
}

pub proof fn lemma_one_sq(k: int, i: int)
    requires
        0 <= k < 64,
    ensures
        has_sq(1u64 << (k as u64), i) == (i == k),
{
    let ku = k as u64;
    if 0 <= i < 64 {
        let ju = i as u64;
        assert(bit_get(1u64 << ku, ju) == (ju == ku)) by (bit_vector)
            requires
                ju < 64 && ku < 64,
        ;
    }
}

pub proof fn lemma_or_sq(a: u64, b: u64, i: int)
    ensures
        has_sq(a | b, i) == (has_sq(a, i) || has_sq(b, i)),
{
    if 0 <= i < 64 {
        let j = i as u64;
        assert(bit_get(a | b, j) == (bit_get(a, j) || bit_get(b, j))) by (bit_vector);
    }
}

pub proof fn lemma_and_sq(a: u64, b: u64, i: int)
    ensures
        has_sq(a & b, i) == (has_sq(a, i) && has_sq(b, i)),
{
    if 0 <= i < 64 {
        let j = i as u64;
        assert(bit_get(a & b, j) == (bit_get(a, j) && bit_get(b, j))) by (bit_vector);
    }
}

pub proof fn lemma_not_sq(a: u64, i: int)
    requires
        0 <= i < 64,
    ensures
        has_sq(!a, i) == !has_sq(a, i),
{
    let j = i as u64;
    assert(bit_get(!a, j) == !bit_get(a, j)) by (bit_vector)
        requires
            j < 64,
    ;
}

proof fn lemma_eq_above_rec(a: u64, b: u64, n: u64)
    requires
        n <= 64,
        forall|i: u64| n <= i < 64 ==> #[trigger] bit_get(a, i) == bit_get(b, i),
    ensures
        a >> n == b >> n,
    decreases 64 - n,
{
    if n == 64 {
        assert(a >> 64u64 == 0 && b >> 64u64 == 0) by (bit_vector);
    } else {
        let m: u64 = (n + 1) as u64;
        lemma_eq_above_rec(a, b, m);
        assert(bit_get(a, n) == bit_get(b, n));
        assert(a >> n == b >> n) by (bit_vector)
            requires
                n < 64,
                m == n + 1,
                a >> m == b >> m,
                bit_get(a, n) == bit_get(b, n),
        ;
    }
}

/// A nonzero board has a set square.
pub proof fn lemma_nonzero_has_sq(x: u64)
    requires
        x != 0,
    ensures
        exists|i: int| 0 <= i < 64 && #[trigger] has_sq(x, i),
{
    if forall|i: int| 0 <= i < 64 ==> !#[trigger] has_sq(x, i) {
        assert forall|i: int| 0 <= i < 64 implies has_sq(x, i) == has_sq(0u64, i) by {
            lemma_zero_sq(i);
        }
        lemma_sq_ext(x, 0u64);
    }
}

/// Two boards with the same squares are the same value.
pub proof fn lemma_sq_ext(a: u64, b: u64)
    requires
        forall|i: int| 0 <= i < 64 ==> has_sq(a, i) == has_sq(b, i),
    ensures
        a == b,
{
    assert forall|j: u64| j < 64 implies #[trigger] bit_get(a, j) == bit_get(b, j) by {
        assert(has_sq(a, j as int) == has_sq(b, j as int));
    }
    lemma_eq_above_rec(a, b, 0);
    assert(a >> 0u64 == a && b >> 0u64 == b) by (bit_vector);
}

pub proof fn lemma_bits_below_sq(f: spec_fn(int) -> bool, n: int, i: int)
    requires
        0 <= n <= 64,
    ensures
        has_sq(bits_below(f, n), i) == (0 <= i < n && f(i)),
    decreases n,
{
    if n <= 0 {
        lemma_zero_sq(i);
    } else {
        lemma_bits_below_sq(f, n - 1, i);
        let single: u64 = if f(n - 1) {
            1u64 << ((n - 1) as u64)
        } else {
            0u64
        };
        lemma_or_sq(bits_below(f, n - 1), single, i);
        if f(n - 1) {
            lemma_one_sq(n - 1, i);
        } else {
            lemma_zero_sq(i);
        }
    }
}

/// `board_of(f)` has square `i` exactly when `i` is on the board and `f(i)`.
pub proof fn lemma_board_sq(f: spec_fn(int) -> bool, i: int)
    ensures
        has_sq(board_of(f), i) == (0 <= i < 64 && f(i)),
{
    lemma_bits_below_sq(f, 64, i);
}

/// A board whose squares are exactly those satisfying `f` is `board_of(f)`.
pub proof fn lemma_board_of_intro(x: u64, f: spec_fn(int) -> bool)
    requires
        forall|i: int| 0 <= i < 64 ==> has_sq(x, i) == f(i),
    ensures
        x == board_of(f),
{
    assert forall|i: int| 0 <= i < 64 implies has_sq(x, i) == has_sq(board_of(f), i) by {
        lemma_board_sq(f, i);
    }
    lemma_sq_ext(x, board_of(f));
}

} // verus!
