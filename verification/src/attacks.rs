//! Attack sets: the squares reachable from a square in one or two king steps.
//!
//! A single-step attack set is the expansion of the square minus the square
//! itself; a double-step set is the expansion of the single-step set minus
//! everything at most one step away.

use vstd::prelude::*;
use crate::bitboard::{spec_expand, Bitboard, BB_ALL};
use crate::square::Square;

verus! {

/// Masking an on-board set keeps it on the board.
pub proof fn lemma_on_board_and(a: u64, b: u64)
    by (bit_vector)
    requires
        a & !BB_ALL == 0,
    ensures
        (a & b) & !BB_ALL == 0,
        (b & a) & !BB_ALL == 0,
{
}

/// Squares exactly one king-step away from `sq` (a placement's targets).
pub open spec fn spec_singles(sq: Square) -> u64 {
    spec_expand(1u64 << (sq.value as u64)) & !(1u64 << (sq.value as u64))
}

/// Squares exactly two king-steps away from `sq` (a jump's targets).
pub open spec fn spec_doubles(sq: Square) -> u64 {
    spec_expand(spec_singles(sq)) & !spec_expand(1u64 << (sq.value as u64))
}

/// The single-step attack set of `sq`.
pub fn single_attacks(sq: Square) -> (r: Bitboard)
    requires
        sq.is_valid(),
    ensures
        r.value == spec_singles(sq),
        r.on_board(),
{
    let bit = sq.bit();
    let r = bit.expand().and(bit.inverse());
    proof {
        lemma_on_board_and(spec_expand(bit.value), !bit.value);
    }
    r
}

/// The double-step attack set of `sq`.
pub fn double_attacks(sq: Square) -> (r: Bitboard)
    requires
        sq.is_valid(),
    ensures
        r.value == spec_doubles(sq),
        r.on_board(),
{
    let bit = sq.bit();
    let r = single_attacks(sq).expand().and(bit.expand().inverse());
    proof {
        lemma_on_board_and(spec_expand(spec_singles(sq)), !spec_expand(bit.value));
    }
    r
}

} // verus!
