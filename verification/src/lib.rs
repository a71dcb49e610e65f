//! A verified core for a 7x7 Ataxx engine.
//!
//! The crate covers the board and its move/unmove history with incremental
//! Zobrist hashing, bitboard-based move generation from step-wise attack
//! algebra, a fixed-capacity transposition table, a quantized two-perspective
//! evaluator with an incrementally maintained accumulator stack, a search
//! limiter, and an iterative-deepening alpha-beta search.

pub mod square;
pub mod bitboard;
pub mod attacks;
pub mod text;
pub mod ataxx_move;
pub mod rng;
pub mod hash;
pub mod position;
pub mod movegen;
pub mod movepick;
pub mod perft;
pub mod fen;
pub mod nnue;
pub mod eval;
pub mod ttable;
pub mod history;
pub mod limit;
pub mod search;

use vstd::prelude::*;

verus! {

} // verus!
