//! Perft: the exact count of leaf nodes of the legal move tree at a fixed
//! depth, the standard oracle for move generation and make/unmake.
//!
//! [`spec_perft`] defines the count over the board model; [`do_perft`]
//! computes it by make/recurse/unmake and provably leaves the position
//! untouched. A finished game has no moves at all, so its count is zero at
//! every depth of at least one.

use vstd::prelude::*;
use crate::ataxx_move::AtaxxMove;
use crate::movegen::{generate_moves, lemma_gen_moves_complete, spec_gen_moves};
use crate::position::{BoardModel, Position};

verus! {

/// Leaf count of the legal move tree of `m` at `depth`.
pub open spec fn spec_perft(m: BoardModel, depth: int) -> nat
    decreases depth, 0nat, 0nat,
{
    if depth <= 0 {
        1
    } else {
        spec_perft_sum(m, spec_gen_moves(m), depth - 1)
    }
}

/// Sum of the leaf counts after each listed move.
pub open spec fn spec_perft_sum(m: BoardModel, moves: Seq<AtaxxMove>, depth: int) -> nat
    decreases depth, moves.len() + 1, 1nat,
{
    if depth < 0 || moves.len() == 0 {
        0
    } else {
        spec_perft(m.apply(moves[0]), depth) + spec_perft_sum(m, moves.drop_first(), depth)
    }
}

/// At depth zero every child is one leaf, so the sum is the move count.
proof fn lemma_perft_sum_zero(m: BoardModel, moves: Seq<AtaxxMove>)
    ensures
        spec_perft_sum(m, moves, 0) == moves.len(),
    decreases moves.len(),
{
    if moves.len() > 0 {
        lemma_perft_sum_zero(m, moves.drop_first());
        assert(spec_perft(m.apply(moves[0]), 0) == 1);
        assert(spec_perft_sum(m, moves, 0) == 1 + spec_perft_sum(m, moves.drop_first(), 0));
    }
}

/// Summing a split list sums the parts.
proof fn lemma_perft_sum_split(m: BoardModel, moves: Seq<AtaxxMove>, i: int, depth: int)
    requires
        0 <= i <= moves.len(),
        depth >= 0,
    ensures
        spec_perft_sum(m, moves, depth) == spec_perft_sum(m, moves.take(i), depth)
            + spec_perft_sum(m, moves.skip(i), depth),
    decreases i,
{
    if i == 0 {
        assert(moves.take(0).len() == 0);
        assert(moves.skip(0) =~= moves);
    } else {
        assert(moves.len() > 0);
        assert(moves.take(i)[0] == moves[0]);
        assert(moves.take(i).drop_first() =~= moves.drop_first().take(i - 1));
        assert(moves.skip(i) =~= moves.drop_first().skip(i - 1));
        lemma_perft_sum_split(m, moves.drop_first(), i - 1, depth);
    }
}

/// One step of the split: the sum over a one-longer prefix adds the next
/// child's count.
proof fn lemma_perft_sum_take_one_more(m: BoardModel, moves: Seq<AtaxxMove>, i: int, depth: int)
    requires
        0 <= i < moves.len(),
        depth >= 0,
    ensures
        spec_perft_sum(m, moves.take(i + 1), depth) == spec_perft_sum(m, moves.take(i), depth)
            + spec_perft(m.apply(moves[i]), depth),
    decreases i,
{
    if i == 0 {
        assert(moves.take(1).len() == 1);
        assert(moves.take(1)[0] == moves[0]);
        assert(moves.take(1).drop_first().len() == 0);
        assert(moves.take(0).len() == 0);
        assert(spec_perft_sum(m, moves.take(1), depth) == spec_perft(m.apply(moves[0]), depth)
            + spec_perft_sum(m, moves.take(1).drop_first(), depth));
    } else {
        assert(moves.take(i + 1)[0] == moves[0]);
        assert(moves.take(i)[0] == moves[0]);
        assert(moves.take(i + 1).drop_first() =~= moves.drop_first().take(i));
        assert(moves.take(i).drop_first() =~= moves.drop_first().take(i - 1));
        lemma_perft_sum_take_one_more(m, moves.drop_first(), i - 1, depth);
        assert(moves.drop_first()[i - 1] == moves[i]);
        assert(spec_perft_sum(m, moves.take(i + 1), depth) == spec_perft(m.apply(moves[0]), depth)
            + spec_perft_sum(m, moves.drop_first().take(i), depth));
        assert(spec_perft_sum(m, moves.take(i), depth) == spec_perft(m.apply(moves[0]), depth)
            + spec_perft_sum(m, moves.drop_first().take(i - 1), depth));
    }
}

/// Every summand is at most the whole sum.
proof fn lemma_perft_sum_bounds_child(m: BoardModel, moves: Seq<AtaxxMove>, i: int, depth: int)
    requires
        0 <= i < moves.len(),
        depth >= 0,
    ensures
        spec_perft(m.apply(moves[i]), depth) <= spec_perft_sum(m, moves, depth),
    decreases i,
{
    if i == 0 {
    } else {
        lemma_perft_sum_bounds_child(m, moves.drop_first(), i - 1, depth);
        assert(moves.drop_first()[i - 1] == moves[i]);
    }
}

/// Counts the leaves of the legal move tree at `depth`, leaving the position
/// exactly as it was.
#[verifier::loop_isolation(false)]
pub fn do_perft(pos: &mut Position, depth: i32) -> (r: usize)
    requires
        old(pos).wf(),
        spec_perft(old(pos).spec_model(), depth as int) <= usize::MAX,
        old(pos).spec_fullmove() + depth <= u32::MAX,
    ensures
        r == spec_perft(old(pos).spec_model(), depth as int),
        final(pos).wf(),
        final(pos).spec_states() == old(pos).spec_states(),
        final(pos).spec_hashes() == old(pos).spec_hashes(),
        final(pos).spec_blue_to_move() == old(pos).spec_blue_to_move(),
        final(pos).spec_fullmove() == old(pos).spec_fullmove(),
        final(pos).spec_gaps() == old(pos).spec_gaps(),
        depth >= 1 && old(pos).spec_game_over() ==> r == 0,
    decreases depth,
{
    let ghost m0 = pos.spec_model();
    if depth <= 0 {
        return 1;
    }
    proof {
        lemma_gen_moves_complete(m0);
        if pos.spec_game_over() {
            lemma_perft_sum_zero(m0, spec_gen_moves(m0));
        }
    }

    let moves = generate_moves(pos);

    if depth == 1 {
        proof {
            lemma_perft_sum_zero(m0, spec_gen_moves(m0));
        }
        return moves.len();
    }

    let ghost p0 = *pos;
    let n = moves.len();
    let mut total: usize = 0;
    let mut i: usize = 0;
    while i < n
        invariant
            0 <= i <= n,
            depth >= 2,
            n == moves@.len(),
            moves@ == spec_gen_moves(m0),
            pos.wf(),
            pos.spec_states() == p0.spec_states(),
            pos.spec_hashes() == p0.spec_hashes(),
            pos.spec_blue_to_move() == p0.spec_blue_to_move(),
            pos.spec_fullmove() == p0.spec_fullmove(),
            pos.spec_gaps() == p0.spec_gaps(),
            total == spec_perft_sum(m0, moves@.take(i as int), depth - 1),
            total <= spec_perft(m0, depth as int),
        decreases n - i,
    {
        let mv = moves[i];
        proof {
            assert(spec_gen_moves(m0).contains(mv)) by {
                assert(spec_gen_moves(m0)[i as int] == mv);
            }
            assert(pos.spec_model() == m0);
            assert(pos.spec_move_ok(mv));
            lemma_perft_sum_bounds_child(m0, moves@, i as int, depth - 1);
        }
        pos.apply_move::<true, false>(mv);
        let ghost p1 = *pos;
        let child = do_perft(pos, depth - 1);
        pos.pop_move::<false>();
        proof {
            assert(pos.spec_states() =~= p0.spec_states());
            lemma_perft_sum_take_one_more(m0, moves@, i as int, depth - 1);
            lemma_perft_sum_split(m0, moves@, i + 1, depth - 1);
            assert(spec_perft_sum(m0, moves@.take(i + 1), depth - 1) <= spec_perft(
                m0,
                depth as int,
            ));
        }
        total = total + child;
        i = i + 1;
    }
    proof {
        assert(moves@.take(n as int) =~= moves@);
    }
    total
}

} // verus!
