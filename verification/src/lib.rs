//! Bitboard chess move generation.
//!
//! A board is a `u64` in which bit `i` marks square `i`, with `i = rank * 8 + file`
//! (file 0 = a, rank 0 = rank 1, so a1 is bit 0 and h8 is bit 63).  The crate
//! provides the directional shift and whole-board transform primitives, the
//! precomputed per-square move and attack masks for every piece kind, and the
//! blocker-aware resolution of sliding-piece moves against a live occupancy.

pub mod bits;
pub mod bitboard;
pub mod player;
pub mod masks;
pub mod resolver;
pub mod printer;
pub mod moves;
