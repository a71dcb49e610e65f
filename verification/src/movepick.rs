//! Staged move picking for the search: the transposition-table move first
//! (when it is a real, legal move), then every other generated move in
//! generation order, each legal move exactly once.
//!
//! [`spec_picked`] fixes the full yielded sequence;
//! [`lemma_picker_yields_each_move_once`] states the completeness law: the
//! picker yields every generated move exactly once, the table move (if legal)
//! first, and an illegal or absent table move neither repeats nor suppresses
//! anything.

use vstd::prelude::*;
use crate::ataxx_move::AtaxxMove;
use crate::movegen::{fill_move_list, spec_gen_moves, lemma_gen_moves_complete, MoveList};
use crate::position::{BoardModel, Position};

verus! {

/// Where the picker stands: the table move comes before generation.
#[derive(Debug, Copy, Clone, PartialEq, Eq, Structural)]
pub enum MovepickerStage {
    Start,
    TtMove,
    GenerateMoves,
    End,
}

impl MovepickerStage {
    /// True of the exhausted stage.
    pub fn is_end(&self) -> (r: bool)
        ensures
            r == (*self == MovepickerStage::End),
    {
        match self {
            MovepickerStage::End => true,
            _ => false,
        }
    }

    pub fn next(&self) -> (r: MovepickerStage)
        ensures
            *self == MovepickerStage::Start ==> r == MovepickerStage::TtMove,
            *self == MovepickerStage::TtMove ==> r == MovepickerStage::GenerateMoves,
            *self == MovepickerStage::GenerateMoves ==> r == MovepickerStage::End,
            *self == MovepickerStage::End ==> r == MovepickerStage::End,
    {
        match self {
            MovepickerStage::Start => MovepickerStage::TtMove,
            MovepickerStage::TtMove => MovepickerStage::GenerateMoves,
            MovepickerStage::GenerateMoves => MovepickerStage::End,
            MovepickerStage::End => MovepickerStage::End,
        }
    }
}

/// The predicate keeping every move other than the table move.
pub open spec fn spec_not_tt(tt: AtaxxMove) -> spec_fn(AtaxxMove) -> bool {
    |m: AtaxxMove| m != tt
}

/// Everything the picker will yield for `p` and table move `tt`, in order:
/// `tt` first when it is a real legal move, then the generated moves other
/// than `tt` in generation order.
pub open spec fn spec_picked(p: BoardModel, tt: AtaxxMove) -> Seq<AtaxxMove> {
    let rest = spec_gen_moves(p).filter(spec_not_tt(tt));
    if tt != AtaxxMove::NoMove && spec_gen_moves(p).contains(tt) {
        seq![tt] + rest
    } else {
        rest
    }
}

/// Everything a filter keeps was already there.
proof fn lemma_filter_is_subset<A>(s: Seq<A>, pred: spec_fn(A) -> bool, m: A)
    requires
        s.filter(pred).contains(m),
    ensures
        s.contains(m),
        pred(m),
    decreases s.len(),
{
    reveal(Seq::filter);
    if s.len() > 0 {
        if s.filter(pred) == s.drop_last().filter(pred).push(s.last()) && m == s.last() {
            assert(s.contains(m)) by {
                assert(s[s.len() - 1] == m);
            }
            assert(pred(m));
        } else {
            let sub = s.drop_last().filter(pred);
            if sub.contains(m) {
                lemma_filter_is_subset(s.drop_last(), pred, m);
                let i = choose|i: int| 0 <= i < s.drop_last().len() && s.drop_last()[i] == m;
                assert(s[i] == m);
            } else {
                if pred(s.last()) {
                    let i = choose|i: int|
                        0 <= i < s.filter(pred).len() && s.filter(pred)[i] == m;
                    assert(s.filter(pred) == sub.push(s.last()));
                    if i < sub.len() {
                        assert(sub[i] == m);
                    } else {
                        assert(m == s.last());
                        assert(s[s.len() - 1] == m);
                    }
                }
            }
        }
    }
}

/// A filter keeps exactly the matching members.
proof fn lemma_filter_contains_iff<A>(s: Seq<A>, pred: spec_fn(A) -> bool, m: A)
    ensures
        s.filter(pred).contains(m) <==> (s.contains(m) && pred(m)),
{
    if s.filter(pred).contains(m) {
        lemma_filter_is_subset(s, pred, m);
    }
    if s.contains(m) && pred(m) {
        let i = choose|i: int| 0 <= i < s.len() && s[i] == m;
        s.lemma_filter_contains(pred, i);
    }
}

/// Filtering a duplicate-free sequence stays duplicate-free.
proof fn lemma_filter_no_dup<A>(s: Seq<A>, pred: spec_fn(A) -> bool)
    requires
        s.no_duplicates(),
    ensures
        s.filter(pred).no_duplicates(),
    decreases s.len(),
{
    reveal(Seq::filter);
    if s.len() > 0 {
        assert(s.drop_last().no_duplicates());
        lemma_filter_no_dup(s.drop_last(), pred);
        if pred(s.last()) {
            let sub = s.drop_last().filter(pred);
            if sub.contains(s.last()) {
                lemma_filter_is_subset(s.drop_last(), pred, s.last());
                let i = choose|i: int|
                    0 <= i < s.drop_last().len() && s.drop_last()[i] == s.last();
                assert(s[i] == s[s.len() - 1]);
            }
        }
    }
}

/// The move-picker law: the picker yields every move the generator yields
/// exactly once; when the table move is a real legal move it comes first; an
/// illegal or absent table move is never yielded and suppresses nothing.
pub proof fn lemma_picker_yields_each_move_once(p: BoardModel, tt: AtaxxMove)
    requires
        p.wf(),
    ensures
        spec_picked(p, tt).no_duplicates(),
        forall|m: AtaxxMove| #[trigger]
            spec_picked(p, tt).contains(m) <==> spec_gen_moves(p).contains(m),
        tt != AtaxxMove::NoMove && spec_gen_moves(p).contains(tt) ==> spec_picked(p, tt)[0] == tt,
{
    lemma_gen_moves_complete(p);
    let gen = spec_gen_moves(p);
    let pred = spec_not_tt(tt);
    let rest = gen.filter(pred);
    lemma_filter_no_dup(gen, pred);
    assert forall|m: AtaxxMove| #[trigger]
        spec_picked(p, tt).contains(m) <==> gen.contains(m) by {
        lemma_filter_contains_iff(gen, pred, m);
        if tt != AtaxxMove::NoMove && gen.contains(tt) {
            crate::movegen::lemma_contains_concat(seq![tt], rest, m);
            assert(seq![tt].contains(m) <==> m == tt) by {
                if seq![tt].contains(m) {
                    assert(seq![tt][0] == tt);
                }
                assert(seq![tt][0] == tt);
            }
        }
    }
    if tt != AtaxxMove::NoMove && gen.contains(tt) {
        assert((seq![tt] + rest)[0] == tt);
        assert(spec_picked(p, tt).no_duplicates()) by {
            assert forall|i: int, j: int|
                0 <= i < j < spec_picked(p, tt).len() implies spec_picked(p, tt)[i]
                != spec_picked(p, tt)[j] by {
                if i == 0 {
                    assert(spec_picked(p, tt)[j] == rest[j - 1]);
                    assert(rest.contains(rest[j - 1]));
                    lemma_filter_contains_iff(gen, pred, rest[j - 1]);
                } else {
                    assert(spec_picked(p, tt)[i] == rest[i - 1]);
                    assert(spec_picked(p, tt)[j] == rest[j - 1]);
                }
            }
        }
    }
}

/// Yields the table move first (when real and legal), then every other
/// generated move in generation order.
pub struct Movepicker {
    stage: MovepickerStage,
    tt_move: AtaxxMove,
    generated_moves: MoveList,
    idx: usize,
    yielded: Ghost<Seq<AtaxxMove>>,
}

impl Movepicker {
    /// The table move the picker was built with.
    pub closed spec fn spec_tt_move(&self) -> AtaxxMove {
        self.tt_move
    }

    /// What the picker has yielded so far.
    pub closed spec fn spec_yielded(&self) -> Seq<AtaxxMove> {
        self.yielded@
    }

    /// The picker's state matches `p`: what it has yielded is a prefix of
    /// [`spec_picked`], and its stage bookkeeping agrees.
    pub closed spec fn wf(&self, p: BoardModel) -> bool {
        let picked = spec_picked(p, self.tt_move);
        let tt_first = self.tt_move != AtaxxMove::NoMove && spec_gen_moves(p).contains(
            self.tt_move,
        );
        let pre: Seq<AtaxxMove> = if tt_first {
            seq![self.tt_move]
        } else {
            Seq::empty()
        };
        &&& self.tt_move.is_wf()
        &&& match self.stage {
            MovepickerStage::Start => self.idx == 0 && self.generated_moves@ == Seq::<
                AtaxxMove,
            >::empty() && self.yielded@ == Seq::<AtaxxMove>::empty(),
            MovepickerStage::TtMove => self.idx == 0 && self.generated_moves@ == Seq::<
                AtaxxMove,
            >::empty() && self.yielded@ == pre,
            MovepickerStage::GenerateMoves => self.generated_moves@ == spec_gen_moves(p)
                && self.idx <= self.generated_moves@.len() && self.yielded@ == pre
                + spec_gen_moves(p).take(self.idx as int).filter(spec_not_tt(self.tt_move)),
            MovepickerStage::End => self.generated_moves@ == spec_gen_moves(p) && self.idx
                == self.generated_moves@.len() && self.yielded@ == picked,
        }
    }

    pub fn new(tt_move: AtaxxMove) -> (r: Movepicker)
        requires
            tt_move.is_wf(),
        ensures
            forall|p: BoardModel| r.wf(p),
            r.spec_tt_move() == tt_move,
            r.spec_yielded() == Seq::<AtaxxMove>::empty(),
    {
        Movepicker {
            stage: MovepickerStage::Start,
            tt_move,
            generated_moves: Vec::new(),
            idx: 0,
            yielded: Ghost(Seq::empty()),
        }
    }

    /// The next move: each call advances one step along [`spec_picked`],
    /// returning `None` once it is exhausted.
    #[verifier::loop_isolation(false)]
    pub fn next(&mut self, pos: &Position) -> (r: Option<AtaxxMove>)
        requires
            pos.wf(),
            old(self).wf(pos.spec_model()),
        ensures
            final(self).wf(pos.spec_model()),
            final(self).spec_tt_move() == old(self).spec_tt_move(),
            ({
                let picked = spec_picked(pos.spec_model(), old(self).spec_tt_move());
                match r {
                    Some(m) => old(self).spec_yielded().len() < picked.len() && m == picked[old(
                        self,
                    ).spec_yielded().len() as int] && final(self).spec_yielded() == old(
                        self,
                    ).spec_yielded().push(m),
                    None => old(self).spec_yielded() == picked && final(self).spec_yielded()
                        == picked,
                }
            }),
    {
        proof {
            lemma_gen_moves_complete(pos.spec_model());
            lemma_picker_yields_each_move_once(pos.spec_model(), self.tt_move);
        }
        let ghost picked = spec_picked(pos.spec_model(), self.tt_move);
        let ghost pred = spec_not_tt(self.tt_move);
        while self.idx == self.generated_moves.len() && !self.stage.is_end()
            invariant
                self.wf(pos.spec_model()),
                self.tt_move == old(self).spec_tt_move(),
                self.yielded@ == old(self).spec_yielded(),
            decreases (match self.stage {
                MovepickerStage::Start => 3int,
                MovepickerStage::TtMove => 2int,
                MovepickerStage::GenerateMoves => 1int,
                MovepickerStage::End => 0int,
            }),
        {
            self.stage = self.stage.next();
            match self.stage {
                MovepickerStage::TtMove => {
                    if self.tt_move != AtaxxMove::NoMove && pos.is_legal(self.tt_move) {
                        proof {
                            self.yielded@ = self.yielded@.push(self.tt_move);
                            assert(picked[0] == self.tt_move);
                        }
                        return Some(self.tt_move);
                    }
                },
                MovepickerStage::GenerateMoves => {
                    fill_move_list(&mut self.generated_moves, pos);
                    proof {
                        assert(spec_gen_moves(pos.spec_model()).take(0).filter(spec_not_tt(self.tt_move))
                            =~= Seq::<AtaxxMove>::empty()) by {
                            reveal(Seq::filter);
                            assert(spec_gen_moves(pos.spec_model()).take(0) =~= Seq::<AtaxxMove>::empty());
                        }
                        assert(self.wf(pos.spec_model()));
                    }
                },
                MovepickerStage::End => {
                    proof {
                        lemma_take_all_filter(spec_gen_moves(pos.spec_model()), self.idx as int);
                        assert(self.yielded@ =~= picked);
                    }
                    return None;
                },
                _ => {},
            }
        }
        if self.stage.is_end() {
            return None;
        }
        let ghost gen = spec_gen_moves(pos.spec_model());
        let m = self.generated_moves[self.idx];
        self.idx = self.idx + 1;
        proof {
            lemma_take_one_more_filter(gen, self.idx - 1, self.tt_move);
            assert(gen =~= gen.take(self.idx as int) + gen.skip(self.idx as int));
            Seq::<AtaxxMove>::filter_distributes_over_add(
                gen.take(self.idx as int),
                gen.skip(self.idx as int),
                pred,
            );
        }
        if m != self.tt_move {
            proof {
                self.lemma_yield_step(pos, m, (self.idx - 1) as int);
                self.yielded@ = self.yielded@.push(m);
                assert(self.yielded@ =~= (if self.tt_move != AtaxxMove::NoMove && gen.contains(
                    self.tt_move,
                ) {
                    seq![self.tt_move]
                } else {
                    Seq::<AtaxxMove>::empty()
                }) + gen.take(self.idx as int).filter(pred));
            }
            return Some(m);
        }
        // The table move sits in the generated list here; it was yielded in
        // its own stage, and it occurs only once, so step over it.
        proof {
            assert(gen.take(self.idx as int).filter(pred) == gen.take(self.idx - 1).filter(pred));
            lemma_gen_moves_complete(pos.spec_model());
        }
        if self.idx == self.generated_moves.len() {
            self.stage = self.stage.next();
            proof {
                lemma_take_all_filter(gen, self.idx as int);
                assert(self.yielded@ =~= picked);
            }
            return None;
        }
        let m2 = self.generated_moves[self.idx];
        self.idx = self.idx + 1;
        proof {
            assert(m2 != self.tt_move) by {
                if m2 == self.tt_move {
                    assert(gen[self.idx - 1] == gen[self.idx - 2]);
                }
            }
            lemma_take_one_more_filter(gen, self.idx - 1, self.tt_move);
            assert(gen =~= gen.take(self.idx as int) + gen.skip(self.idx as int));
            Seq::<AtaxxMove>::filter_distributes_over_add(
                gen.take(self.idx as int),
                gen.skip(self.idx as int),
                pred,
            );
            self.lemma_yield_step(pos, m2, (self.idx - 1) as int);
            self.yielded@ = self.yielded@.push(m2);
            assert(self.yielded@ =~= (if self.tt_move != AtaxxMove::NoMove && gen.contains(
                self.tt_move,
            ) {
                seq![self.tt_move]
            } else {
                Seq::<AtaxxMove>::empty()
            }) + gen.take(self.idx as int).filter(pred));
        }
        Some(m2)
    }

    /// One yield from the generated list: the move at `i` extends the yielded
    /// prefix and is the next element of the full picked sequence.
    proof fn lemma_yield_step(&self, pos: &Position, m: AtaxxMove, i: int)
        requires
            pos.wf(),
            0 <= i < spec_gen_moves(pos.spec_model()).len(),
            spec_gen_moves(pos.spec_model())[i] == m,
            m != self.tt_move,
            self.yielded@ == (if self.tt_move != AtaxxMove::NoMove && spec_gen_moves(pos.spec_model()).contains(
                self.tt_move,
            ) {
                seq![self.tt_move]
            } else {
                Seq::<AtaxxMove>::empty()
            }) + spec_gen_moves(pos.spec_model()).take(i).filter(spec_not_tt(self.tt_move)),
        ensures
            self.yielded@.len() < spec_picked(pos.spec_model(), self.tt_move).len(),
            spec_picked(pos.spec_model(), self.tt_move)[self.yielded@.len() as int] == m,
    {
        let gen = spec_gen_moves(pos.spec_model());
        let tt = self.tt_move;
        let pred = spec_not_tt(tt);
        let pre: Seq<AtaxxMove> = if tt != AtaxxMove::NoMove && gen.contains(tt) {
            seq![tt]
        } else {
            Seq::empty()
        };
        let before = gen.take(i).filter(pred);
        lemma_take_one_more_filter(gen, i, tt);
        assert(gen.take(i + 1).filter(pred) == before.push(m));
        assert(gen =~= gen.take(i + 1) + gen.skip(i + 1));
        Seq::<AtaxxMove>::filter_distributes_over_add(gen.take(i + 1), gen.skip(i + 1), pred);
        assert(gen.filter(pred) == before.push(m) + gen.skip(i + 1).filter(pred));
        assert(gen.filter(pred)[before.len() as int] == m) by {
            assert((before.push(m) + gen.skip(i + 1).filter(pred))[before.len() as int] == m);
        }
        assert(spec_picked(pos.spec_model(), tt)[(pre.len() + before.len()) as int] == m);
        assert(self.yielded@.len() == pre.len() + before.len());
    }
}

/// Filtering a one-longer prefix appends the new element when it matches.
proof fn lemma_take_one_more_filter(s: Seq<AtaxxMove>, i: int, tt: AtaxxMove)
    requires
        0 <= i < s.len(),
    ensures
        s.take(i + 1).filter(spec_not_tt(tt)) == if s[i] != tt {
            s.take(i).filter(spec_not_tt(tt)).push(s[i])
        } else {
            s.take(i).filter(spec_not_tt(tt))
        },
{
    reveal(Seq::filter);
    assert(s.take(i + 1).drop_last() =~= s.take(i));
    assert(s.take(i + 1).last() == s[i]);
    assert(spec_not_tt(tt)(s[i]) == (s[i] != tt));
}

/// Filtering the whole sequence is filtering its full-length prefix.
proof fn lemma_take_all_filter(s: Seq<AtaxxMove>, n: int)
    requires
        n == s.len(),
    ensures
        forall|pred: spec_fn(AtaxxMove) -> bool| #[trigger]
            s.take(n).filter(pred) == s.filter(pred),
{
    assert(s.take(n) =~= s);
}

} // verus!
