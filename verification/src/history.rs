//! Per-move history scores, kept by the gravity update rule: a bonus pulls a
//! score toward its sign's extreme, and scores never leave the
//! [-MAX_HISTORY, MAX_HISTORY] band.

use vstd::prelude::*;
use crate::ataxx_move::AtaxxMove;
use crate::nnue::spec_tdiv;

verus! {

/// Cap on the magnitude of a history score.
pub const MAX_HISTORY: i16 = 16384;

/// Cap on a single update's bonus.
pub const MAX_HISTORY_BONUS: i16 = 1536;

/// Bonus slope per depth.
pub const HISTORY_SCALE: i16 = 384;

/// Bonus offset subtracted from the slope.
pub const HISTORY_OFFSET: i16 = 384;

/// The gravity update: the new score, with machine (truncating) division.
pub open spec fn spec_history_next(old_score: int, bonus: int) -> int {
    old_score + bonus - spec_tdiv(
        old_score * (if bonus >= 0 {
            bonus
        } else {
            -bonus
        }),
        MAX_HISTORY as int,
    )
}

/// The gravity update never leaves the history band.
proof fn lemma_history_bounds(old_score: int, bonus: int)
    requires
        -(MAX_HISTORY as int) <= old_score <= MAX_HISTORY as int,
        -(MAX_HISTORY as int) <= bonus <= MAX_HISTORY as int,
    ensures
        -(MAX_HISTORY as int) <= spec_history_next(old_score, bonus) <= MAX_HISTORY as int,
{
    let m = MAX_HISTORY as int;
    let ab: int = if bonus >= 0 {
        bonus
    } else {
        -bonus
    };
    let oa: int = if old_score >= 0 {
        old_score
    } else {
        -old_score
    };
    let t = old_score * ab;
    let at = oa * ab;
    assert(at >= 0 && at <= oa * m && (old_score >= 0 ==> t == at) && (old_score < 0 ==> t == -at))
        by (nonlinear_arith)
        requires
            0 <= ab <= m,
            0 <= oa <= m,
            t == old_score * ab,
            at == oa * ab,
            oa == (if old_score >= 0 {
                old_score
            } else {
                -old_score
            }),
    ;
    let qa = at / m;
    vstd::arithmetic::div_mod::lemma_fundamental_div_mod(at, m);
    vstd::arithmetic::div_mod::lemma_mod_bound(at, m);
    vstd::arithmetic::div_mod::lemma_div_is_ordered(0, at, m);
    assert(qa <= oa) by (nonlinear_arith)
        requires
            m * qa <= at,
            at <= oa * m,
            m > 0,
            qa >= 0,
    ;
    assert(spec_tdiv(t, m) == (if t >= 0 {
        qa
    } else {
        -qa
    }));
    assert(-m <= old_score + bonus - (if t >= 0 {
        qa
    } else {
        -qa
    }) <= m) by (nonlinear_arith)
        requires
            at == m * qa + at % m,
            0 <= at % m < m,
            at == oa * ab,
            0 <= qa <= oa,
            -m <= old_score <= m,
            -m <= bonus <= m,
            0 <= oa <= m,
            0 <= ab <= m,
            oa == (if old_score >= 0 {
                old_score
            } else {
                -old_score
            }),
            ab == (if bonus >= 0 {
                bonus
            } else {
                -bonus
            }),
            (old_score >= 0 ==> t == at),
            (old_score < 0 ==> t == -at),
            m > 0,
    ;
}

/// Move-indexed history scores: one per placement target, one per jump
/// (source, target) pair.
pub struct HistoryTable {
    single: Vec<i16>,
    double: Vec<i16>,
}

impl HistoryTable {
    pub closed spec fn spec_single(&self) -> Seq<i16> {
        self.single@
    }

    pub closed spec fn spec_double(&self) -> Seq<i16> {
        self.double@
    }

    /// Fixed table sizes, every score inside the band.
    pub open spec fn wf(&self) -> bool {
        &&& self.spec_single().len() == 49
        &&& self.spec_double().len() == 49 * 49
        &&& forall|i: int|
            0 <= i < 49 ==> -MAX_HISTORY <= #[trigger] self.spec_single()[i] <= MAX_HISTORY
        &&& forall|i: int|
            0 <= i < 49 * 49 ==> -MAX_HISTORY <= #[trigger] self.spec_double()[i] <= MAX_HISTORY
    }

    /// The slot a move reads and updates, as a flat index; the absent move
    /// and a pass have no slot.
    pub open spec fn spec_slot(m: AtaxxMove) -> int {
        match m {
            AtaxxMove::Single(to) => to.spec_idx(),
            AtaxxMove::Double(from, to) => from.spec_idx() * 49 + to.spec_idx(),
            _ => 0,
        }
    }

    /// A zeroed table.
    pub fn new() -> (r: HistoryTable)
        ensures
            r.wf(),
            forall|i: int| 0 <= i < 49 ==> #[trigger] r.spec_single()[i] == 0,
            forall|i: int| 0 <= i < 49 * 49 ==> #[trigger] r.spec_double()[i] == 0,
    {
        let mut single: Vec<i16> = Vec::new();
        let mut i: usize = 0;
        while i < 49
            invariant
                0 <= i <= 49,
                single@.len() == i,
                forall|j: int| 0 <= j < i ==> #[trigger] single@[j] == 0,
            decreases 49 - i,
        {
            single.push(0);
            i = i + 1;
        }
        let mut double: Vec<i16> = Vec::new();
        let mut k: usize = 0;
        while k < 49 * 49
            invariant
                0 <= k <= 49 * 49,
                double@.len() == k,
                forall|j: int| 0 <= j < k ==> #[trigger] double@[j] == 0,
            decreases 49 * 49 - k,
        {
            double.push(0);
            k = k + 1;
        }
        HistoryTable { single, double }
    }

    /// The stored score of a real move; the absent move scores zero.
    pub fn get_history(&self, m: AtaxxMove) -> (r: i16)
        requires
            self.wf(),
            m.is_wf(),
            m != AtaxxMove::Null,
        ensures
            m is Single ==> r == self.spec_single()[HistoryTable::spec_slot(m)],
            m is Double ==> r == self.spec_double()[HistoryTable::spec_slot(m)],
            m is NoMove ==> r == 0,
            -MAX_HISTORY <= r <= MAX_HISTORY,
    {
        match m {
            AtaxxMove::NoMove => 0,
            AtaxxMove::Single(sq) => self.single[sq.idx()],
            AtaxxMove::Double(from, to) => {
                let s = from.idx() * 49 + to.idx();
                self.double[s]
            },
            AtaxxMove::Null => 0,
        }
    }

    /// Applies the gravity update to a real move's slot; the absent move is
    /// ignored.
    pub fn update_history(&mut self, m: AtaxxMove, bonus: i16)
        requires
            old(self).wf(),
            m.is_wf(),
            m != AtaxxMove::Null,
            -MAX_HISTORY <= bonus <= MAX_HISTORY,
        ensures
            final(self).wf(),
            m is Single ==> final(self).spec_single() == old(self).spec_single().update(
                HistoryTable::spec_slot(m),
                spec_history_next(
                    old(self).spec_single()[HistoryTable::spec_slot(m)] as int,
                    bonus as int,
                ) as i16,
            ) && final(self).spec_double() == old(self).spec_double(),
            m is Double ==> final(self).spec_double() == old(self).spec_double().update(
                HistoryTable::spec_slot(m),
                spec_history_next(
                    old(self).spec_double()[HistoryTable::spec_slot(m)] as int,
                    bonus as int,
                ) as i16,
            ) && final(self).spec_single() == old(self).spec_single(),
            m is NoMove ==> final(self).spec_single() == old(self).spec_single() && final(self).spec_double() == old(self).spec_double(),
    {
        let slot: usize;
        let old_score: i16;
        match m {
            AtaxxMove::NoMove => {
                return ;
            },
            AtaxxMove::Single(sq) => {
                slot = sq.idx();
                old_score = self.single[slot];
            },
            AtaxxMove::Double(from, to) => {
                slot = from.idx() * 49 + to.idx();
                old_score = self.double[slot];
            },
            AtaxxMove::Null => {
                return ;
            },
        }
        proof {
            lemma_history_bounds(old_score as int, bonus as int);
        }
        let abs_bonus: i32 = if bonus >= 0 {
            bonus as i32
        } else {
            -(bonus as i32)
        };
        let v: i32 = old_score as i32 + bonus as i32 - (old_score as i32) * abs_bonus / (
        MAX_HISTORY as i32);
        proof {
            assert((old_score as i32) * abs_bonus == old_score as int * abs_bonus as int)
                by (nonlinear_arith)
                requires
                    -16384 <= old_score as int <= 16384,
                    0 <= abs_bonus as int <= 16384,
            ;
            assert(v == spec_history_next(old_score as int, bonus as int));
        }
        let nv = v as i16;
        match m {
            AtaxxMove::Single(sq) => {
                self.single[slot] = nv;
            },
            AtaxxMove::Double(from, to) => {
                self.double[slot] = nv;
            },
            _ => {
                proof {
                    assert(false);
                }
            },
        }
    }

    /// Zeroes every slot.
    pub fn clear(&mut self)
        requires
            old(self).wf(),
        ensures
            final(self).wf(),
            forall|i: int| 0 <= i < 49 ==> #[trigger] final(self).spec_single()[i] == 0,
            forall|i: int| 0 <= i < 49 * 49 ==> #[trigger] final(self).spec_double()[i] == 0,
    {
        let fresh = HistoryTable::new();
        *self = fresh;
    }
}

/// The bonus a completed depth earns: capped linear growth.
pub fn history_bonus(depth: i32) -> (r: i16)
    requires
        0 <= depth <= 255,
    ensures
        r == if depth * HISTORY_SCALE - HISTORY_OFFSET < MAX_HISTORY_BONUS {
            (depth * HISTORY_SCALE - HISTORY_OFFSET) as i16
        } else {
            MAX_HISTORY_BONUS
        },
        r <= MAX_HISTORY_BONUS,
        -MAX_HISTORY <= r <= MAX_HISTORY,
{
    let raw: i32 = depth * (HISTORY_SCALE as i32) - (HISTORY_OFFSET as i32);
    if raw < MAX_HISTORY_BONUS as i32 {
        raw as i16
    } else {
        MAX_HISTORY_BONUS
    }
}

} // verus!
