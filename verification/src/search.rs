//! Iterative-deepening principal-variation search with alpha-beta pruning, a
//! transposition table, and the incrementally updated evaluator.
//!
//! The search never corrupts its inputs: every make is provably unmade, so a
//! whole search leaves the position exactly as it found it, with the key
//! invariant intact. A node interrupted by the limiter reports an upper
//! bound and stores nothing, and the root adopts a best move only from fully
//! completed depths.

use vstd::prelude::*;
use crate::ataxx_move::AtaxxMove;
use crate::bitboard::Bitboard;
use crate::eval::static_eval;
use crate::limit::{duration_as_millis, instant_elapsed, instant_now, SearchLimiter};
use crate::movegen::{fill_scored_move_list, lemma_gen_moves_complete, spec_gen_moves, ScoredMoveList};
use crate::nnue::{spec_eval_score, NnueState};
use crate::position::{BoardModel, GameResult, Position};
use crate::square::{Color, Score, MAX_DEPTH, SCORE_INF, SCORE_MATE, SCORE_WIN};
use crate::ttable::{TtEntry, TtEntryFlag, TTable, TT_MIN_SIZE_MB, TT_MAX_SIZE_MB, TT_ENTRY_BYTES, TT_DEFAULT_SIZE_MB};

verus! {

/// The score of a finished game seen from the side to move at `ply`: a win
/// counts down from the mate base so nearer wins score higher, a loss
/// mirrors it, and equal piece counts draw.
pub open spec fn spec_terminal_score(m: BoardModel, ply: int) -> int {
    let red_n = (Bitboard { value: m.red }).spec_popcount();
    let blue_n = (Bitboard { value: m.blue }).spec_popcount();
    if red_n == blue_n {
        0
    } else if (red_n > blue_n) == !m.blue_to_move {
        SCORE_MATE - ply
    } else {
        -(SCORE_MATE - ply)
    }
}

/// The evaluator's score for the stack top, seen from the given side: what
/// every leaf of the search returns.
pub open spec fn spec_leaf_score(nnue: NnueState, blue_to_move: bool) -> int {
    let top = nnue.spec_top();
    let ours = if !blue_to_move {
        top.red.values@
    } else {
        top.blue.values@
    };
    let theirs = if !blue_to_move {
        top.blue.values@
    } else {
        top.red.values@
    };
    spec_eval_score(ours, theirs, nnue.spec_net().l1_weights@)
}

/// Everything one search invocation carries: the position being searched,
/// the evaluator stack, node and depth counters, and the best root move
/// found so far.
pub struct SearchContext {
    pub pos: Position,
    pub nnue_state: NnueState,
    pub nodes: u64,
    pub seldepth: u32,
    pub best_move: AtaxxMove,
}

impl SearchContext {
    /// The position is sound, its keys are maintained, and the evaluator
    /// stack is sound.
    pub open spec fn wf(&self) -> bool {
        &&& self.pos.wf()
        &&& self.pos.keys_ok()
        &&& self.nnue_state.wf()
        &&& self.best_move.is_wf()
    }

    pub fn new(pos: Position) -> (r: SearchContext)
        requires
            pos.wf(),
            pos.keys_ok(),
        ensures
            r.wf(),
            r.nnue_state.spec_idx() == 0,
            r.pos.spec_states() == pos.spec_states(),
            r.pos.spec_blue_to_move() == pos.spec_blue_to_move(),
            r.pos.spec_fullmove() == pos.spec_fullmove(),
            r.pos.spec_gaps() == pos.spec_gaps(),
            r.nodes == 0,
            r.seldepth == 0,
            r.best_move == AtaxxMove::NoMove,
    {
        SearchContext {
            pos,
            nnue_state: NnueState::new(),
            nodes: 0,
            seldepth: 0,
            best_move: AtaxxMove::NoMove,
        }
    }
}

/// What one completed depth reports: the depth, the deepest ply reached, the
/// nodes so far, the elapsed time, the score and the move believed best.
pub struct DepthReport {
    pub depth: i32,
    pub seldepth: u32,
    pub nodes: u64,
    pub elapsed_ms: u64,
    pub score: Score,
    pub best_move: AtaxxMove,
}

/// The search engine: a limiter and a transposition table.
pub struct Searcher {
    limiter: SearchLimiter,
    ttable: TTable,
}

impl Searcher {
    pub closed spec fn wf(&self) -> bool {
        self.ttable.wf()
    }

    /// The transposition table's slots, for speaking about resets and sizes.
    pub closed spec fn spec_tt_entries(&self) -> Seq<TtEntry> {
        self.ttable.spec_entries()
    }

    /// True once the engine's current limiter has latched.
    pub closed spec fn spec_limiter_stopped(&self) -> bool {
        self.limiter.spec_stopped()
    }

    pub fn new() -> (r: Searcher)
        ensures
            r.wf(),
            r.spec_tt_entries().len() == TT_DEFAULT_SIZE_MB * 1024 * 1024 / TT_ENTRY_BYTES as int,
            forall|i: int|
                0 <= i < r.spec_tt_entries().len() ==> (#[trigger] r.spec_tt_entries()[i]).flag
                    == TtEntryFlag::Empty,
    {
        Searcher { limiter: SearchLimiter::infinite(), ttable: TTable::new() }
    }

    /// Forgets everything learned in earlier games: every table slot is
    /// empty afterwards, the allocation untouched.
    pub fn new_game(&mut self)
        requires
            old(self).wf(),
        ensures
            final(self).wf(),
            final(self).spec_tt_entries().len() == old(self).spec_tt_entries().len(),
            forall|i: int|
                0 <= i < final(self).spec_tt_entries().len() ==> (#[trigger] final(self).spec_tt_entries()[i]).flag == TtEntryFlag::Empty,
    {
        self.ttable.clear();
    }

    /// Reallocates the transposition table to fit `mb` megabytes of entries,
    /// every slot empty.
    pub fn resize_tt(&mut self, mb: usize)
        requires
            old(self).wf(),
            TT_MIN_SIZE_MB <= mb <= TT_MAX_SIZE_MB,
            mb * 1024 * 1024 / TT_ENTRY_BYTES as int <= usize::MAX,
        ensures
            final(self).wf(),
            final(self).spec_tt_entries().len() == mb * 1024 * 1024 / TT_ENTRY_BYTES as int,
            forall|i: int|
                0 <= i < final(self).spec_tt_entries().len() ==> (#[trigger] final(self).spec_tt_entries()[i]).flag == TtEntryFlag::Empty,
    {
        self.ttable.resize(mb);
    }

    /// Searches a position by iterative deepening under the given limiter,
    /// returning one report per completed depth, the best move of the
    /// deepest completed depth, and its score. A limiter that has not
    /// already latched always lets depth one finish, so wherever the
    /// position has moves at all, a report comes back and the move returned
    /// is one of the generated moves.
    pub fn start_search(&mut self, pos: Position, limiter: SearchLimiter, max_depth: i32) -> (r: (
        Vec<DepthReport>,
        AtaxxMove,
        Score,
    ))
        requires
            old(self).wf(),
            pos.wf(),
            pos.keys_ok(),
            max_depth >= 1,
            pos.spec_fullmove() + MAX_DEPTH + 1 <= u32::MAX,
        ensures
            final(self).wf(),
            r.1.is_wf(),
            r.1 == AtaxxMove::NoMove || spec_gen_moves(pos.spec_model()).contains(r.1),
            -SCORE_INF <= r.2 <= SCORE_INF,
            !limiter.spec_stopped() && spec_gen_moves(pos.spec_model()).len() > 0 ==> r.0@.len()
                >= 1 && spec_gen_moves(pos.spec_model()).contains(r.1),
    {
        self.limiter = limiter;
        let mut ctx = SearchContext::new(pos);
        ctx.nnue_state.reset(&ctx.pos);
        let (score, best, reports) = self.search_root(&mut ctx, max_depth);
        (reports, best, score)
    }

    /// Searches an already-prepared context, reporting the score from red's
    /// point of view.
    pub fn run_datagen_search(
        &mut self,
        ctx: &mut SearchContext,
        limiter: SearchLimiter,
        max_depth: i32,
    ) -> (r: Score)
        requires
            old(self).wf(),
            old(ctx).wf(),
            old(ctx).nnue_state.spec_idx() == 0,
            max_depth >= 1,
            old(ctx).pos.spec_fullmove() + MAX_DEPTH + 1 <= u32::MAX,
        ensures
            final(self).wf(),
            final(ctx).wf(),
            final(ctx).nnue_state.spec_idx() == 0,
            final(ctx).pos.spec_states() == old(ctx).pos.spec_states(),
            final(ctx).pos.spec_hashes() == old(ctx).pos.spec_hashes(),
            final(ctx).pos.spec_blue_to_move() == old(ctx).pos.spec_blue_to_move(),
            final(ctx).pos.spec_fullmove() == old(ctx).pos.spec_fullmove(),
            final(ctx).pos.spec_gaps() == old(ctx).pos.spec_gaps(),
            -SCORE_INF <= r <= SCORE_INF,
            final(ctx).best_move == old(ctx).best_move || spec_gen_moves(
                old(ctx).pos.spec_model(),
            ).contains(final(ctx).best_move),
            !limiter.spec_stopped() && spec_gen_moves(old(ctx).pos.spec_model()).len() > 0
                ==> spec_gen_moves(old(ctx).pos.spec_model()).contains(final(ctx).best_move),
            final(ctx).nnue_state.spec_net() == old(ctx).nnue_state.spec_net(),
            final(ctx).nnue_state.spec_stack()[0] == old(ctx).nnue_state.spec_stack()[0],
    {
        self.limiter = limiter;
        let (score, _best, _reports) = self.search_root(ctx, max_depth);
        if ctx.pos.side_to_move().idx() == 1 {
            -score
        } else {
            score
        }
    }

    /// The deepening loop: searches depth 1, 2, ... until the cap or the
    /// limiter ends it; a depth interrupted mid-way contributes nothing.
    /// Depth one never consults the clock, so a limiter that has not already
    /// latched always completes it: wherever moves exist, at least one
    /// report comes back and a generated move is adopted.
    #[verifier::loop_isolation(false)]
    fn search_root(&mut self, ctx: &mut SearchContext, max_depth: i32) -> (r: (
        Score,
        AtaxxMove,
        Vec<DepthReport>,
    ))
        requires
            old(self).wf(),
            old(ctx).wf(),
            old(ctx).nnue_state.spec_idx() == 0,
            max_depth >= 1,
            old(ctx).pos.spec_fullmove() + MAX_DEPTH + 1 <= u32::MAX,
        ensures
            final(self).wf(),
            final(ctx).wf(),
            final(ctx).nnue_state.spec_idx() == old(ctx).nnue_state.spec_idx(),
            final(ctx).pos.spec_states() == old(ctx).pos.spec_states(),
            final(ctx).pos.spec_hashes() == old(ctx).pos.spec_hashes(),
            final(ctx).pos.spec_blue_to_move() == old(ctx).pos.spec_blue_to_move(),
            final(ctx).pos.spec_fullmove() == old(ctx).pos.spec_fullmove(),
            final(ctx).pos.spec_gaps() == old(ctx).pos.spec_gaps(),
            -SCORE_INF <= r.0 <= SCORE_INF,
            r.1.is_wf(),
            r.1 == old(ctx).best_move || r.1 == AtaxxMove::NoMove || spec_gen_moves(
                old(ctx).pos.spec_model(),
            ).contains(r.1),
            final(ctx).best_move == old(ctx).best_move || spec_gen_moves(
                old(ctx).pos.spec_model(),
            ).contains(final(ctx).best_move),
            final(ctx).nnue_state.spec_net() == old(ctx).nnue_state.spec_net(),
            forall|i: int|
                0 <= i <= old(ctx).nnue_state.spec_idx() ==> final(ctx).nnue_state.spec_stack()[i]
                    == old(ctx).nnue_state.spec_stack()[i],
            old(self).spec_limiter_stopped() ==> final(self).spec_limiter_stopped(),
            !old(self).spec_limiter_stopped() && spec_gen_moves(old(ctx).pos.spec_model()).len()
                > 0 ==> r.2@.len() >= 1 && spec_gen_moves(old(ctx).pos.spec_model()).contains(r.1)
                && spec_gen_moves(old(ctx).pos.spec_model()).contains(final(ctx).best_move),
    {
        let cap = if max_depth < MAX_DEPTH {
            max_depth
        } else {
            MAX_DEPTH
        };
        let start = instant_now();
        let mut reports: Vec<DepthReport> = Vec::new();
        let mut score: Score = -SCORE_INF;
        let mut best_move = AtaxxMove::NoMove;
        let mut depth: i32 = 1;
        while depth <= cap
            invariant
                1 <= depth,
                cap <= MAX_DEPTH,
                self.wf(),
                ctx.wf(),
                ctx.nnue_state.spec_idx() == old(ctx).nnue_state.spec_idx(),
                ctx.pos.spec_states() == old(ctx).pos.spec_states(),
                ctx.pos.spec_hashes() == old(ctx).pos.spec_hashes(),
                ctx.pos.spec_blue_to_move() == old(ctx).pos.spec_blue_to_move(),
                ctx.pos.spec_fullmove() == old(ctx).pos.spec_fullmove(),
                ctx.pos.spec_gaps() == old(ctx).pos.spec_gaps(),
                -SCORE_INF <= score <= SCORE_INF,
                best_move.is_wf(),
                best_move == AtaxxMove::NoMove || best_move == old(ctx).best_move
                    || spec_gen_moves(old(ctx).pos.spec_model()).contains(best_move),
                ctx.best_move == old(ctx).best_move || spec_gen_moves(
                    old(ctx).pos.spec_model(),
                ).contains(ctx.best_move),
                ctx.nnue_state.spec_net() == old(ctx).nnue_state.spec_net(),
                forall|i: int|
                    0 <= i <= old(ctx).nnue_state.spec_idx() ==> ctx.nnue_state.spec_stack()[i]
                        == old(ctx).nnue_state.spec_stack()[i],
                old(self).spec_limiter_stopped() ==> self.spec_limiter_stopped(),
                !old(self).spec_limiter_stopped() && spec_gen_moves(
                    old(ctx).pos.spec_model(),
                ).len() > 0 && reports@.len() == 0 ==> depth == 1 && !self.spec_limiter_stopped(),
                !old(self).spec_limiter_stopped() && spec_gen_moves(
                    old(ctx).pos.spec_model(),
                ).len() > 0 && reports@.len() > 0 ==> spec_gen_moves(
                    old(ctx).pos.spec_model(),
                ).contains(best_move) && spec_gen_moves(old(ctx).pos.spec_model()).contains(
                    ctx.best_move,
                ),
            decreases cap + 1 - depth,
        {
            ctx.seldepth = 0;
            proof {
                assert(ctx.pos.spec_model() == old(ctx).pos.spec_model());
            }
            let s = self.search(ctx, -SCORE_INF, SCORE_INF, depth, 0);
            if self.limiter.stopped() {
                break ;
            }
            score = s;
            best_move = ctx.best_move;
            let elapsed = duration_as_millis(&instant_elapsed(&start));
            let elapsed_ms: u64 = if elapsed > u64::MAX as u128 {
                u64::MAX
            } else {
                elapsed as u64
            };
            reports.push(
                DepthReport {
                    depth,
                    seldepth: ctx.seldepth,
                    nodes: ctx.nodes,
                    elapsed_ms,
                    score,
                    best_move,
                },
            );
            if self.limiter.should_stop(ctx.nodes) {
                break ;
            }
            depth = depth + 1;
        }
        (score, best_move, reports)
    }

    /// One alpha-beta node: principal-variation search with a null window on
    /// non-first moves, a transposition probe outside the principal
    /// variation, and a store of the outcome unless the limiter interrupted.
    #[verifier::loop_isolation(false)]
    #[verifier::rlimit(100)]
    fn search(
        &mut self,
        ctx: &mut SearchContext,
        alpha0: Score,
        beta: Score,
        depth: i32,
        ply: i32,
    ) -> (r: Score)
        requires
            old(self).wf(),
            old(ctx).wf(),
            -SCORE_INF <= alpha0 < beta <= SCORE_INF,
            0 <= ply <= MAX_DEPTH,
            depth <= MAX_DEPTH,
            old(ctx).nnue_state.spec_idx() <= ply,
            old(ctx).pos.spec_fullmove() + (MAX_DEPTH - ply) + 1 <= u32::MAX,
        ensures
            final(self).wf(),
            final(ctx).wf(),
            final(ctx).nnue_state.spec_idx() == old(ctx).nnue_state.spec_idx(),
            final(ctx).pos.spec_states() == old(ctx).pos.spec_states(),
            final(ctx).pos.spec_hashes() == old(ctx).pos.spec_hashes(),
            final(ctx).pos.spec_blue_to_move() == old(ctx).pos.spec_blue_to_move(),
            final(ctx).pos.spec_fullmove() == old(ctx).pos.spec_fullmove(),
            final(ctx).pos.spec_gaps() == old(ctx).pos.spec_gaps(),
            -SCORE_INF <= r <= SCORE_INF,
            final(ctx).best_move == old(ctx).best_move || spec_gen_moves(
                old(ctx).pos.spec_model(),
            ).contains(final(ctx).best_move),
            0 < ply ==> final(ctx).best_move == old(ctx).best_move,
            final(ctx).nnue_state.spec_net() == old(ctx).nnue_state.spec_net(),
            forall|i: int|
                0 <= i <= old(ctx).nnue_state.spec_idx() ==> final(ctx).nnue_state.spec_stack()[i]
                    == old(ctx).nnue_state.spec_stack()[i],
            old(self).spec_limiter_stopped() ==> final(self).spec_limiter_stopped(),
            depth <= 1 ==> final(self).spec_limiter_stopped() == old(self).spec_limiter_stopped(),
            depth > 1 && old(self).spec_limiter_stopped() ==> r == beta,
            depth <= 0 || (depth == 1 && ply >= MAX_DEPTH) ==> r == spec_leaf_score(
                old(ctx).nnue_state,
                old(ctx).pos.spec_blue_to_move(),
            ) && -SCORE_WIN < r < SCORE_WIN,
            depth == 1 && ply < MAX_DEPTH && beta - alpha0 > 1 && spec_gen_moves(
                old(ctx).pos.spec_model(),
            ).len() == 0 ==> r == spec_terminal_score(old(ctx).pos.spec_model(), ply as int),
            ply == 0 && depth == 1 && alpha0 == -SCORE_INF && beta == SCORE_INF && spec_gen_moves(
                old(ctx).pos.spec_model(),
            ).len() > 0 ==> spec_gen_moves(old(ctx).pos.spec_model()).contains(
                final(ctx).best_move,
            ),
        decreases depth,
    {
        if depth > 1 && self.limiter.should_stop(ctx.nodes) {
            return beta;
        }
        if ply as u32 > ctx.seldepth {
            ctx.seldepth = ply as u32;
        }
        if depth <= 0 || ply >= MAX_DEPTH {
            return static_eval(&ctx.pos, &ctx.nnue_state);
        }
        let is_root = ply == 0;
        let is_pv = beta - alpha0 > 1;
        let mut alpha = alpha0;

        let key = ctx.pos.key();
        let tt_entry = match self.ttable.probe(key) {
            Some(e) => e,
            _ => TtEntry::empty(),
        };
        let tt_hit = !matches!(tt_entry.flag, TtEntryFlag::Empty);
        if !is_pv && tt_hit && tt_entry.depth as i32 >= depth {
            let cutoff = match tt_entry.flag {
                TtEntryFlag::Exact => true,
                TtEntryFlag::Alpha => tt_entry.score as i32 <= alpha,
                TtEntryFlag::Beta => tt_entry.score as i32 >= beta,
                TtEntryFlag::Empty => false,
            };
            if cutoff {
                return tt_entry.score as i32;
            }
        }
        // An absent probe leaves the absent move, so the orderer sees it
        // only on a hit.
        let tt_move = tt_entry.m.unpack();

        let ghost m0 = ctx.pos.spec_model();
        proof {
            assert(m0 == old(ctx).pos.spec_model());
            lemma_gen_moves_complete(m0);
        }
        let mut moves: ScoredMoveList = Vec::new();
        fill_scored_move_list(&mut moves, &ctx.pos);
        proof {
            assert forall|j: int|
                0 <= j < moves@.len() implies spec_gen_moves(m0).contains(
                #[trigger] moves@[j].0,
            ) by {
                assert(moves@[j] == spec_gen_moves(m0).map_values(|m: AtaxxMove| (m, 0i32))[j]);
                assert(spec_gen_moves(m0)[j] == moves@[j].0);
            }
        }
        // Table move first; everything else stays in generation order.
        Searcher::order_moves(&mut moves, tt_move, Ghost(m0));

        if moves.len() == 0 {
            // No moves at all: a finished game. Mate counts down with the
            // ply so nearer wins score higher.
            let result = ctx.pos.result();
            let stm = ctx.pos.side_to_move();
            return match result {
                GameResult::Win(side) => {
                    if side.idx() == stm.idx() {
                        SCORE_MATE - ply
                    } else {
                        -(SCORE_MATE - ply)
                    }
                },
                GameResult::Draw => 0,
            };
        }

        let mut best_score: Score = -SCORE_INF;
        let mut best_move = AtaxxMove::NoMove;
        let mut entry_flag = TtEntryFlag::Alpha;
        let ghost p0 = ctx.pos;
        let ghost nn0 = ctx.nnue_state;

        let n = moves.len();
        let mut i: usize = 0;
        while i < n
            invariant
                0 <= i <= n == moves@.len(),
                self.wf(),
                ctx.wf(),
                ctx.nnue_state.spec_idx() == nn0.spec_idx(),
                ctx.pos.spec_states() == p0.spec_states(),
                ctx.pos.spec_hashes() == p0.spec_hashes(),
                ctx.pos.spec_blue_to_move() == p0.spec_blue_to_move(),
                ctx.pos.spec_fullmove() == p0.spec_fullmove(),
                ctx.pos.spec_gaps() == p0.spec_gaps(),
                forall|j: int|
                    0 <= j < moves@.len() ==> spec_gen_moves(m0).contains(#[trigger] moves@[j].0),
                -SCORE_INF <= alpha < beta,
                -SCORE_INF <= best_score <= SCORE_INF,
                best_move.is_wf(),
                best_move == AtaxxMove::NoMove || spec_gen_moves(m0).contains(best_move),
                ctx.best_move == old(ctx).best_move || spec_gen_moves(m0).contains(ctx.best_move),
                0 < ply ==> ctx.best_move == old(ctx).best_move,
                ctx.nnue_state.spec_net() == nn0.spec_net(),
                forall|i2: int|
                    0 <= i2 <= nn0.spec_idx() ==> ctx.nnue_state.spec_stack()[i2]
                        == nn0.spec_stack()[i2],
                old(self).spec_limiter_stopped() ==> self.spec_limiter_stopped(),
                depth <= 1 ==> self.spec_limiter_stopped() == old(self).spec_limiter_stopped(),
                i == 0 ==> alpha == alpha0 && best_score == -SCORE_INF,
                ply == 0 && depth == 1 && alpha0 == -SCORE_INF && i > 0 ==> spec_gen_moves(
                    m0,
                ).contains(ctx.best_move),
            decreases n - i,
        {
            if ctx.nodes < u64::MAX {
                ctx.nodes = ctx.nodes + 1;
            }
            let mv = moves[i].0;
            proof {
                assert(spec_gen_moves(m0).contains(moves@[i as int].0));
                assert(ctx.pos.spec_model() == m0);
                assert(ctx.pos.spec_move_ok(mv));
            }
            if matches!(mv, AtaxxMove::Null) {
                ctx.pos.apply_move::<true, true>(mv);
            } else {
                self.apply_with_evaluator(ctx, mv, Ghost(m0));
            }

            let score = if is_pv && i == 0 {
                -self.search(ctx, -beta, -alpha, depth - 1, ply + 1)
            } else {
                let zw = -self.search(ctx, -alpha - 1, -alpha, depth - 1, ply + 1);
                if zw > alpha && zw < beta && is_pv {
                    -self.search(ctx, -beta, -alpha, depth - 1, ply + 1)
                } else {
                    zw
                }
            };

            if matches!(mv, AtaxxMove::Null) {
                ctx.pos.pop_move::<true>();
            } else {
                ctx.pos.pop_move::<true>();
                let _ = ctx.nnue_state.pop();
            }
            proof {
                assert(ctx.pos.spec_states() =~= p0.spec_states());
                assert(ctx.pos.spec_hashes() =~= p0.spec_hashes());
            }

            if score > best_score {
                best_score = score;
                if score > alpha {
                    best_move = mv;
                    if is_root {
                        ctx.best_move = mv;
                    }
                    if score >= beta {
                        entry_flag = TtEntryFlag::Beta;
                        i = i + 1;
                        break ;
                    }
                    alpha = score;
                    entry_flag = TtEntryFlag::Exact;
                }
            }
            i = i + 1;
        }

        // A node the limiter cut short must not poison the table.
        if !self.limiter.stopped() {
            let store_score = if best_score >= SCORE_INF {
                SCORE_INF - 1
            } else if best_score <= -SCORE_INF {
                -SCORE_INF + 1
            } else {
                best_score
            };
            self.ttable.store(key, best_move, store_score, depth, entry_flag);
        }
        best_score
    }

    /// Moves the table move (when present) to the front, leaving every other
    /// move in its generation order.
    #[verifier::loop_isolation(false)]
    fn order_moves(moves: &mut ScoredMoveList, tt_move: AtaxxMove, gm: Ghost<crate::position::BoardModel>)
        requires
            forall|j: int|
                0 <= j < old(moves)@.len() ==> spec_gen_moves(gm@).contains(
                    #[trigger] old(moves)@[j].0,
                ),
        ensures
            final(moves)@.len() == old(moves)@.len(),
            forall|j: int|
                0 <= j < final(moves)@.len() ==> spec_gen_moves(gm@).contains(
                    #[trigger] final(moves)@[j].0,
                ),
    {
        let n = moves.len();
        let mut i: usize = 0;
        while i < n
            invariant
                0 <= i <= n == moves@.len(),
                moves@ == old(moves)@,
            decreases n - i,
        {
            if moves[i].0 == tt_move {
                let ghost m1 = moves@;
                let entry = moves.remove(i);
                let ghost m2 = moves@;
                moves.insert(0, entry);
                proof {
                    assert(m2 == m1.remove(i as int));
                    assert(moves@ == m2.insert(0, entry));
                    assert forall|j: int|
                        0 <= j < moves@.len() implies spec_gen_moves(gm@).contains(
                        #[trigger] moves@[j].0,
                    ) by {
                        if j == 0 {
                            assert(moves@[0] == entry);
                            assert(entry == m1[i as int]);
                        } else if j <= i {
                            assert(moves@[j] == m2[j - 1]);
                            assert(m2[j - 1] == m1[j - 1]);
                        } else {
                            assert(moves@[j] == m2[j - 1]);
                            assert(m2[j - 1] == m1[j]);
                        }
                    }
                }
                return ;
            }
            i = i + 1;
        }
    }

    /// Makes a non-pass move and mirrors every changed square into the
    /// evaluator: the stack is pushed first, then one activate or deactivate
    /// per square whose color changed.
    fn apply_with_evaluator(
        &mut self,
        ctx: &mut SearchContext,
        mv: AtaxxMove,
        gm: Ghost<crate::position::BoardModel>,
    )
        requires
            old(self).wf(),
            old(ctx).wf(),
            old(ctx).pos.spec_model() == gm@,
            old(ctx).pos.spec_move_ok(mv),
            mv != AtaxxMove::Null,
            old(ctx).nnue_state.spec_idx() + 1 < (MAX_DEPTH + 1) as int,
        ensures
            final(self).wf(),
            final(ctx).wf(),
            final(ctx).nnue_state.spec_idx() == old(ctx).nnue_state.spec_idx() + 1,
            final(ctx).pos.spec_states() == old(ctx).pos.spec_states().push(
                old(ctx).pos.spec_next_state(mv, true),
            ),
            final(ctx).pos.spec_hashes() == old(ctx).pos.spec_hashes().push(
                old(ctx).pos.spec_curr().key,
            ),
            final(ctx).pos.spec_blue_to_move() == !old(ctx).pos.spec_blue_to_move(),
            final(ctx).pos.spec_fullmove() == old(ctx).pos.spec_fullmove_after(),
            final(ctx).pos.spec_gaps() == old(ctx).pos.spec_gaps(),
            final(ctx).best_move == old(ctx).best_move,
            final(ctx).seldepth == old(ctx).seldepth,
            final(ctx).nodes == old(ctx).nodes,
            *final(self) == *old(self),
            final(ctx).nnue_state.spec_net() == old(ctx).nnue_state.spec_net(),
            final(ctx).nnue_state.spec_stack().len() == old(ctx).nnue_state.spec_stack().len(),
            forall|i: int|
                0 <= i < old(ctx).nnue_state.spec_stack().len() && i != old(
                    ctx,
                ).nnue_state.spec_idx() + 1 ==> final(ctx).nnue_state.spec_stack()[i] == old(
                    ctx,
                ).nnue_state.spec_stack()[i],
    {
        let old_red = ctx.pos.red_occupancy();
        let old_blue = ctx.pos.blue_occupancy();
        ctx.pos.apply_move::<true, true>(mv);
        let new_red = ctx.pos.red_occupancy();
        let new_blue = ctx.pos.blue_occupancy();
        ctx.nnue_state.push();
        let ghost p1 = ctx.pos;
        let ghost b0 = ctx.best_move;
        let ghost s0 = ctx.seldepth;
        let ghost nd0 = ctx.nodes;
        let mut i: u64 = 0;
        while i < 64
            invariant
                0 <= i <= 64,
                ctx.nnue_state.wf(),
                ctx.nnue_state.spec_idx() == old(ctx).nnue_state.spec_idx() + 1,
                ctx.nnue_state.spec_net() == old(ctx).nnue_state.spec_net(),
                ctx.nnue_state.spec_stack().len() == old(ctx).nnue_state.spec_stack().len(),
                forall|i2: int|
                    0 <= i2 < old(ctx).nnue_state.spec_stack().len() && i2 != old(
                        ctx,
                    ).nnue_state.spec_idx() + 1 ==> ctx.nnue_state.spec_stack()[i2] == old(
                        ctx,
                    ).nnue_state.spec_stack()[i2],
                ctx.pos == p1,
                ctx.best_move == b0,
                ctx.seldepth == s0,
                ctx.nodes == nd0,
                old_red.on_board(),
                old_blue.on_board(),
                new_red.on_board(),
                new_blue.on_board(),
            decreases 64 - i,
        {
            let red_was = (old_red.value >> i) & 1 == 1;
            let red_is = (new_red.value >> i) & 1 == 1;
            let blue_was = (old_blue.value >> i) & 1 == 1;
            let blue_is = (new_blue.value >> i) & 1 == 1;
            if red_was != red_is || blue_was != blue_is {
                proof {
                    if red_was || red_is {
                        crate::position::lemma_on_board_bit_valid(old_red.value, i);
                        crate::position::lemma_on_board_bit_valid(new_red.value, i);
                    }
                    if blue_was || blue_is {
                        crate::position::lemma_on_board_bit_valid(old_blue.value, i);
                        crate::position::lemma_on_board_bit_valid(new_blue.value, i);
                    }
                }
                let sq = crate::square::Square::from_raw(i as u8);
                if red_is && !red_was {
                    ctx.nnue_state.activate_feature(Color::red(), sq);
                }
                if blue_is && !blue_was {
                    ctx.nnue_state.activate_feature(Color::blue(), sq);
                }
                if red_was && !red_is {
                    ctx.nnue_state.deactivate_feature(Color::red(), sq);
                }
                if blue_was && !blue_is {
                    ctx.nnue_state.deactivate_feature(Color::blue(), sq);
                }
            }
            i = i + 1;
        }
    }
}

} // verus!
