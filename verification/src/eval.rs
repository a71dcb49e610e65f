//! The leaf heuristic: the quantized evaluator's score for the side to move,
//! always strictly inside the forced-win band so search can tell heuristic
//! scores from proven game ends.

use vstd::prelude::*;
use crate::nnue::{evaluate_once, spec_eval_score, NnueState};
use crate::position::Position;
use crate::square::{Score, SCORE_WIN};

verus! {

/// The incrementally maintained evaluation of the current position, from the
/// side to move's perspective.
pub fn static_eval(pos: &Position, nnue: &NnueState) -> (r: Score)
    requires
        pos.wf(),
        nnue.wf(),
    ensures
        ({
            let top = nnue.spec_top();
            let ours = if !pos.spec_blue_to_move() {
                top.red.values@
            } else {
                top.blue.values@
            };
            let theirs = if !pos.spec_blue_to_move() {
                top.blue.values@
            } else {
                top.red.values@
            };
            r == spec_eval_score(ours, theirs, nnue.spec_net().l1_weights@)
        }),
        -SCORE_WIN < r < SCORE_WIN,
{
    nnue.evaluate(pos.side_to_move())
}

/// A from-scratch evaluation, for inspection outside a search.
pub fn static_eval_once(pos: &Position) -> (r: Score)
    requires
        pos.wf(),
    ensures
        -SCORE_WIN < r < SCORE_WIN,
{
    evaluate_once(pos)
}

} // verus!
