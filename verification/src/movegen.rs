//! Move generation: every empty square one step from an owned square is a
//! placement; every empty square exactly two steps from an owned square is a
//! jump from it; when nothing else exists (and the game is not over), the one
//! legal move is a pass.
//!
//! [`spec_gen_moves`] fixes the generated sequence exactly — placements in
//! ascending square order, then jumps grouped by source — and
//! [`lemma_gen_moves_complete`] characterizes membership, uniqueness and
//! playability of everything in it.

use vstd::prelude::*;
use crate::attacks::{double_attacks, spec_doubles};
use crate::ataxx_move::AtaxxMove;
use crate::bitboard::{
    bb_bit, lemma_squares_below_bound, lemma_squares_below_contains, lemma_squares_below_no_dup,
    spec_expand, squares_below,
};
use crate::position::{BoardModel, Position};
use crate::square::Square;

verus! {

/// A plain list of moves.
pub type MoveList = Vec<AtaxxMove>;

/// Moves pre-paired with a mutable score for later ordering.
pub type ScoredMoveList = Vec<(AtaxxMove, i32)>;

/// The placement targets: empty squares one step from the mover's pieces.
pub open spec fn spec_gen_singles(m: BoardModel) -> u64 {
    spec_expand(m.ours()) & m.empty()
}

/// The jump targets from `from`: empty squares two steps away.
pub open spec fn spec_gen_doubles_from(m: BoardModel, from: u8) -> u64 {
    spec_doubles(Square { value: from }) & m.empty()
}

/// The placement moves, in ascending target order.
pub open spec fn spec_single_moves(m: BoardModel) -> Seq<AtaxxMove> {
    squares_below(spec_gen_singles(m), 64).map_values(
        |t: u8| AtaxxMove::Single(Square { value: t }),
    )
}

/// The jump moves from one source, in ascending target order.
pub open spec fn spec_double_moves_from(m: BoardModel, from: u8) -> Seq<AtaxxMove> {
    squares_below(spec_gen_doubles_from(m, from), 64).map_values(
        |t: u8| AtaxxMove::Double(Square { value: from }, Square { value: t }),
    )
}

/// The jump moves of all sources below `n`, grouped by source in ascending
/// order.
pub open spec fn spec_double_moves_upto(m: BoardModel, n: nat) -> Seq<AtaxxMove>
    decreases n,
{
    if n == 0 {
        Seq::empty()
    } else {
        spec_double_moves_upto(m, (n - 1) as nat) + (if bb_bit(m.ours(), n - 1) {
            spec_double_moves_from(m, (n - 1) as u8)
        } else {
            Seq::empty()
        })
    }
}

/// Everything the generator yields, in its order: nothing once the game is
/// over; otherwise all placements, then all jumps; a lone pass if neither
/// exists.
pub open spec fn spec_gen_moves(m: BoardModel) -> Seq<AtaxxMove> {
    if m.game_over() {
        Seq::empty()
    } else {
        let list = spec_single_moves(m) + spec_double_moves_upto(m, 64);
        if list.len() == 0 {
            seq![AtaxxMove::Null]
        } else {
            list
        }
    }
}

/// Membership in the jump part: exactly the (owned source, empty two-step
/// target) pairs with source below `n`; no other move shape occurs.
proof fn lemma_double_moves_upto_contains(p: BoardModel, n: nat, m: AtaxxMove)
    requires
        n <= 64,
    ensures
        spec_double_moves_upto(p, n).contains(m) <==> (exists|f: u8, t: u8|
            f < n && bb_bit(p.ours(), f as int) && bb_bit(spec_gen_doubles_from(p, f), t as int)
                && m == AtaxxMove::Double(Square { value: f }, Square { value: t })),
    decreases n,
{
    if n > 0 {
        lemma_double_moves_upto_contains(p, (n - 1) as nat, m);
        let prev = spec_double_moves_upto(p, (n - 1) as nat);
        let f0 = (n - 1) as u8;
        let grp = if bb_bit(p.ours(), n - 1) {
            spec_double_moves_from(p, f0)
        } else {
            Seq::<AtaxxMove>::empty()
        };
        assert(spec_double_moves_upto(p, n) == prev + grp);
        assert(spec_double_moves_upto(p, n).contains(m) <==> (prev.contains(m) || grp.contains(m)))
            by {
            if prev.contains(m) {
                let i = choose|i: int| 0 <= i < prev.len() && prev[i] == m;
                assert((prev + grp)[i] == m);
            }
            if grp.contains(m) {
                let i = choose|i: int| 0 <= i < grp.len() && grp[i] == m;
                assert((prev + grp)[prev.len() + i] == m);
            }
            if (prev + grp).contains(m) {
                let i = choose|i: int| 0 <= i < (prev + grp).len() && (prev + grp)[i] == m;
                if i < prev.len() {
                    assert(prev[i] == m);
                } else {
                    assert(grp[i - prev.len()] == m);
                }
            }
        }
        let bbf = spec_gen_doubles_from(p, f0);
        let sqs = squares_below(bbf, 64);
        let fm = |t: u8| AtaxxMove::Double(Square { value: f0 }, Square { value: t });
        // Anything in the new group is a jump from f0 to a listed target.
        if grp.contains(m) {
            let i = choose|i: int| 0 <= i < grp.len() && grp[i] == m;
            assert(m == fm(sqs[i]));
            lemma_squares_below_contains(bbf, 64, sqs[i]);
            assert(sqs.contains(sqs[i]));
            assert(bb_bit(bbf, sqs[i] as int));
            assert(bb_bit(p.ours(), f0 as int));
        }
        // And conversely.
        if exists|f: u8, t: u8|
            f < n && bb_bit(p.ours(), f as int) && bb_bit(spec_gen_doubles_from(p, f), t as int)
                && m == AtaxxMove::Double(Square { value: f }, Square { value: t }) {
            let (f, t) = choose|f: u8, t: u8|
                f < n && bb_bit(p.ours(), f as int) && bb_bit(
                    spec_gen_doubles_from(p, f),
                    t as int,
                ) && m == AtaxxMove::Double(Square { value: f }, Square { value: t });
            if f < n - 1 {
                assert(prev.contains(m));
            } else {
                assert(f == f0);
                lemma_squares_below_contains(bbf, 64, t);
                let i = choose|i: int| 0 <= i < sqs.len() && sqs[i] == t;
                assert(grp[i] == fm(t));
                assert(grp.contains(m));
            }
        }
        assert(spec_double_moves_upto(p, n).contains(m) <==> (prev.contains(m) || grp.contains(m)));
    }
}

/// Membership in the placement part.
proof fn lemma_single_moves_contains(p: BoardModel, m: AtaxxMove)
    ensures
        spec_single_moves(p).contains(m) <==> (exists|t: u8|
            bb_bit(spec_gen_singles(p), t as int) && m == AtaxxMove::Single(
                Square { value: t },
            )),
{
    let bb = spec_gen_singles(p);
    let sqs = squares_below(bb, 64);
    let f = |t: u8| AtaxxMove::Single(Square { value: t });
    assert forall|t: u8| #![auto] spec_single_moves(p).contains(f(t)) <==> bb_bit(bb, t as int) by {
        lemma_squares_below_contains(bb, 64, t);
        if bb_bit(bb, t as int) {
            let i = choose|i: int| 0 <= i < sqs.len() && sqs[i] == t;
            assert(spec_single_moves(p)[i] == f(t));
        }
        if spec_single_moves(p).contains(f(t)) {
            let i = choose|i: int| 0 <= i < sqs.len() && spec_single_moves(p)[i] == f(t);
            assert(sqs[i] == t);
        }
    }
    if spec_single_moves(p).contains(m) {
        let i = choose|i: int| 0 <= i < sqs.len() && spec_single_moves(p)[i] == m;
        assert(m == f(sqs[i]));
        lemma_squares_below_contains(bb, 64, sqs[i]);
        assert(sqs.contains(sqs[i]));
        assert(bb_bit(bb, sqs[i] as int));
    }
    if exists|t: u8| bb_bit(bb, t as int) && m == f(t) {
        let t = choose|t: u8| bb_bit(bb, t as int) && m == f(t);
        lemma_squares_below_contains(bb, 64, t);
        let i = choose|i: int| 0 <= i < sqs.len() && sqs[i] == t;
        assert(spec_single_moves(p)[i] == f(t));
        assert(spec_single_moves(p).contains(m));
    }
}

/// A move is legal exactly when the game is not over and its squares stand as
/// the move kind demands; a pass is legal only when nothing else is.
pub open spec fn spec_is_legal(p: BoardModel, m: AtaxxMove) -> bool {
    &&& !p.game_over()
    &&& match m {
        AtaxxMove::NoMove => false,
        AtaxxMove::Null => spec_gen_singles(p) == 0 && (forall|f: u8|
            f < 64 ==> (bb_bit(p.ours(), f as int) ==> spec_gen_doubles_from(p, f) == 0)),
        AtaxxMove::Single(to) => bb_bit(spec_gen_singles(p), to.value as int),
        AtaxxMove::Double(from, to) => bb_bit(p.ours(), from.value as int) && bb_bit(
            spec_gen_doubles_from(p, from.value),
            to.value as int,
        ),
    }
}

/// The ascending square list of a set is empty exactly when the set is.
proof fn lemma_squares_below_empty(bb: u64)
    ensures
        squares_below(bb, 64).len() == 0 <==> bb == 0,
{
    if bb != 0 {
        vstd::std_specs::bits::axiom_u64_trailing_zeros(bb);
        let t = vstd::std_specs::bits::u64_trailing_zeros(bb) as u8;
        lemma_squares_below_contains(bb, 64, t);
        assert(squares_below(bb, 64).contains(t));
    } else {
        if squares_below(bb, 64).len() > 0 {
            let x = squares_below(bb, 64)[0];
            assert(squares_below(bb, 64).contains(x));
            lemma_squares_below_contains(bb, 64, x);
            crate::bitboard::lemma_zero_word(0, x as u64);
        }
    }
}

/// Concatenating duplicate-free sequences with nothing in common stays
/// duplicate-free.
proof fn lemma_no_dup_concat<A>(a: Seq<A>, b: Seq<A>)
    requires
        a.no_duplicates(),
        b.no_duplicates(),
        forall|m: A| !(#[trigger] a.contains(m) && b.contains(m)),
    ensures
        (a + b).no_duplicates(),
{
    assert forall|i: int, j: int|
        0 <= i < j < (a + b).len() implies (a + b)[i] != (a + b)[j] by {
        if i < a.len() && j >= a.len() {
            assert(a.contains(a[i]));
            assert(b.contains(b[j - a.len()]));
        }
    }
}

/// The jump part never repeats a move, and a set source below `n` with any
/// target contributes.
proof fn lemma_double_moves_upto_no_dup(p: BoardModel, n: nat)
    requires
        n <= 64,
    ensures
        spec_double_moves_upto(p, n).no_duplicates(),
    decreases n,
{
    if n > 0 {
        lemma_double_moves_upto_no_dup(p, (n - 1) as nat);
        let prev = spec_double_moves_upto(p, (n - 1) as nat);
        let f0 = (n - 1) as u8;
        let grp = if bb_bit(p.ours(), n - 1) {
            spec_double_moves_from(p, f0)
        } else {
            Seq::<AtaxxMove>::empty()
        };
        let bbf = spec_gen_doubles_from(p, f0);
        let sqs = squares_below(bbf, 64);
        let fm = |t: u8| AtaxxMove::Double(Square { value: f0 }, Square { value: t });
        assert(grp.no_duplicates()) by {
            if bb_bit(p.ours(), n - 1) {
                lemma_squares_below_no_dup(bbf, 64);
                sqs.lemma_no_duplicates_injective(fm);
            }
        }
        assert forall|m: AtaxxMove| !(#[trigger] prev.contains(m) && grp.contains(m)) by {
            if prev.contains(m) && grp.contains(m) {
                lemma_double_moves_upto_contains(p, (n - 1) as nat, m);
                let i = choose|i: int| 0 <= i < grp.len() && grp[i] == m;
                assert(m == fm(sqs[i]));
                lemma_squares_below_bound(bbf, 64);
            }
        }
        lemma_no_dup_concat(prev, grp);
    }
}

/// The per-kind facts that make a yielded move applicable: its squares stand
/// as the move demands, and a jump leaves room in the no-placement clock.
pub open spec fn spec_yield_playable(p: BoardModel, m: AtaxxMove) -> bool {
    match m {
        AtaxxMove::NoMove => false,
        AtaxxMove::Null => true,
        AtaxxMove::Single(to) => bb_bit(p.empty(), to.value as int),
        AtaxxMove::Double(from, to) => bb_bit(p.ours(), from.value as int) && bb_bit(
            p.empty(),
            to.value as int,
        ) && p.halfmove < 0xFFFF,
    }
}

/// What the generator yields, in full: a move is yielded exactly when it is
/// legal, each yielded move is playable on the board, and no move is yielded
/// twice.
pub proof fn lemma_gen_moves_complete(p: BoardModel)
    requires
        p.wf(),
    ensures
        spec_gen_moves(p).no_duplicates(),
        forall|m: AtaxxMove| #[trigger]
            spec_gen_moves(p).contains(m) <==> spec_is_legal(p, m),
        forall|m: AtaxxMove| #[trigger]
            spec_gen_moves(p).contains(m) ==> m.is_wf() && spec_yield_playable(p, m),
{
    let singles_bb = spec_gen_singles(p);
    let sm = spec_single_moves(p);
    let dm = spec_double_moves_upto(p, 64);
    let list = sm + dm;

    // Bits of the generation sets sit inside the empty set and on the board.
    assert forall|t: u8| bb_bit(singles_bb, t as int) implies (bb_bit(p.empty(), t as int)
        && (Square { value: t }).is_valid()) by {
        crate::bitboard::lemma_bit_of_and2(spec_expand(p.ours()), p.empty(), t as u64);
        crate::bitboard::lemma_mask_on_board(!(p.red | p.blue | p.gaps));
        crate::position::lemma_on_board_bit_valid(p.empty(), t as u64);
    }
    assert forall|f: u8, t: u8| bb_bit(spec_gen_doubles_from(p, f), t as int) implies (bb_bit(
        p.empty(),
        t as int,
    ) && (Square { value: t }).is_valid()) by {
        crate::bitboard::lemma_bit_of_and2(spec_doubles(Square { value: f }), p.empty(), t as u64);
        crate::bitboard::lemma_mask_on_board(!(p.red | p.blue | p.gaps));
        crate::position::lemma_on_board_bit_valid(p.empty(), t as u64);
    }
    assert forall|f: u8| f < 64 && bb_bit(p.ours(), f as int) implies (Square {
        value: f,
    }).is_valid() by {
        crate::position::lemma_on_board_bit_valid(p.ours(), f as u64);
    }

    // Concatenation membership.
    assert forall|m: AtaxxMove| #[trigger]
        list.contains(m) <==> (sm.contains(m) || dm.contains(m)) by {
        lemma_contains_concat(sm, dm, m);
    }

    // No duplicates in the combined list.
    assert(sm.no_duplicates()) by {
        lemma_squares_below_no_dup(singles_bb, 64);
        squares_below(singles_bb, 64).lemma_no_duplicates_injective(
            |t: u8| AtaxxMove::Single(Square { value: t }),
        );
    }
    lemma_double_moves_upto_no_dup(p, 64);
    assert forall|m: AtaxxMove| !(#[trigger] sm.contains(m) && dm.contains(m)) by {
        if sm.contains(m) {
            lemma_single_moves_contains(p, m);
        }
        if dm.contains(m) {
            lemma_double_moves_upto_contains(p, 64, m);
        }
    }
    lemma_no_dup_concat(sm, dm);

    // Emptiness of the list versus emptiness of the generation sets.
    assert(sm.len() == 0 <==> singles_bb == 0) by {
        lemma_squares_below_empty(singles_bb);
    }
    assert(dm.len() == 0 <==> (forall|f: u8|
        f < 64 ==> (bb_bit(p.ours(), f as int) ==> spec_gen_doubles_from(p, f) == 0))) by {
        if dm.len() == 0 {
            assert forall|f: u8|
                f < 64 implies (bb_bit(p.ours(), f as int) ==> spec_gen_doubles_from(p, f)
                == 0) by {
                if bb_bit(p.ours(), f as int) && spec_gen_doubles_from(p, f) != 0 {
                    let bbf = spec_gen_doubles_from(p, f);
                    vstd::std_specs::bits::axiom_u64_trailing_zeros(bbf);
                    let tz = vstd::std_specs::bits::u64_trailing_zeros(bbf);
                    assert(tz < 64);
                    let t = tz as u8;
                    assert(t as u64 == tz as u64);
                    assert((bbf >> (t as u64)) & 1 == 1);
                    assert(bb_bit(bbf, t as int));
                    let m = AtaxxMove::Double(Square { value: f }, Square { value: t });
                    assert(f < 64 && bb_bit(p.ours(), f as int) && bb_bit(
                        spec_gen_doubles_from(p, f),
                        t as int,
                    ) && m == AtaxxMove::Double(Square { value: f }, Square { value: t }));
                    lemma_double_moves_upto_contains(p, 64, m);
                    assert(dm.contains(m));
                }
            }
        } else {
            let m = dm[0];
            assert(dm.contains(m));
            lemma_double_moves_upto_contains(p, 64, m);
            let (f, t) = choose|f: u8, t: u8|
                f < 64 && bb_bit(p.ours(), f as int) && bb_bit(
                    spec_gen_doubles_from(p, f),
                    t as int,
                ) && m == AtaxxMove::Double(Square { value: f }, Square { value: t });
            let bbf = spec_gen_doubles_from(p, f);
            crate::bitboard::lemma_zero_word(0, t as u64);
            assert(bbf != 0);
        }
    }

    if !p.game_over() && list.len() == 0 {
        assert(spec_gen_moves(p) == seq![AtaxxMove::Null]);
        assert(spec_gen_moves(p).contains(AtaxxMove::Null)) by {
            assert(spec_gen_moves(p)[0] == AtaxxMove::Null);
        }
        assert(sm.len() == 0 && dm.len() == 0);
    }
    if !p.game_over() && list.len() != 0 {
        assert(!spec_gen_moves(p).contains(AtaxxMove::Null)) by {
            if list.contains(AtaxxMove::Null) {
                lemma_contains_concat(sm, dm, AtaxxMove::Null);
                if sm.contains(AtaxxMove::Null) {
                    lemma_single_moves_contains(p, AtaxxMove::Null);
                }
                if dm.contains(AtaxxMove::Null) {
                    lemma_double_moves_upto_contains(p, 64, AtaxxMove::Null);
                }
            }
        }
    }

    // Membership equals legality, and yields are playable.
    assert forall|m: AtaxxMove| #[trigger]
        spec_gen_moves(p).contains(m) <==> spec_is_legal(p, m) by {
        lemma_single_moves_contains(p, m);
        lemma_double_moves_upto_contains(p, 64, m);
        if !p.game_over() && list.len() != 0 {
            lemma_contains_concat(sm, dm, m);
        }
        if !p.game_over() && list.len() == 0 && spec_gen_moves(p).contains(m) {
            assert(m == AtaxxMove::Null);
        }
        if !p.game_over() && list.len() == 0 && spec_is_legal(p, m) {
            assert(m is Null) by {
                if m is Single || m is Double {
                    lemma_contains_concat(sm, dm, m);
                }
            }
        }
    }
    assert forall|m: AtaxxMove| #[trigger]
        spec_gen_moves(p).contains(m) implies m.is_wf() && spec_yield_playable(p, m) by {
        lemma_single_moves_contains(p, m);
        lemma_double_moves_upto_contains(p, 64, m);
        if !p.game_over() && list.len() != 0 {
            lemma_contains_concat(sm, dm, m);
        }
    }
}

/// Membership in a concatenation.
pub proof fn lemma_contains_concat<A>(a: Seq<A>, b: Seq<A>, m: A)
    ensures
        (a + b).contains(m) <==> (a.contains(m) || b.contains(m)),
{
    if a.contains(m) {
        let i = choose|i: int| 0 <= i < a.len() && a[i] == m;
        assert((a + b)[i] == m);
    }
    if b.contains(m) {
        let i = choose|i: int| 0 <= i < b.len() && b[i] == m;
        assert((a + b)[a.len() + i] == m);
    }
    if (a + b).contains(m) {
        let i = choose|i: int| 0 <= i < (a + b).len() && (a + b)[i] == m;
        if i < a.len() {
            assert(a[i] == m);
        } else {
            assert(b[i - a.len()] == m);
        }
    }
}

/// Appends every legal move of `pos` to `moves`, in generation order.
pub fn fill_move_list(moves: &mut MoveList, pos: &Position)
    requires
        pos.wf(),
    ensures
        final(moves)@ == old(moves)@ + spec_gen_moves(pos.spec_model()),
{
    if pos.game_over() {
        proof {
            assert(final(moves)@ =~= old(moves)@ + spec_gen_moves(pos.spec_model()));
        }
        return ;
    }
    let ghost base = moves@;
    let len0 = moves.len();
    let ours = pos.color_occupancy(pos.side_to_move());
    let empty = pos.empty_squares();
    proof {
        assert(ours.value == pos.spec_ours());
        assert(ours.on_board());
    }

    let singles = ours.expand().and(empty);
    proof {
        crate::attacks::lemma_on_board_and(spec_expand(ours.value), empty.value);
    }
    let mut i: u64 = 0;
    while i < 64
        invariant
            0 <= i <= 64,
            singles.value == spec_gen_singles(pos.spec_model()),
            singles.on_board(),
            moves@ == base + squares_below(singles.value, i as nat).map_values(
                |t: u8| AtaxxMove::Single(Square { value: t }),
            ),
        decreases 64 - i,
    {
        if (singles.value >> i) & 1 == 1 {
            proof {
                crate::position::lemma_on_board_bit_valid(singles.value, i);
            }
            moves.push(AtaxxMove::Single(Square::from_raw(i as u8)));
        }
        proof {
            assert(moves@ =~= base + squares_below(singles.value, (i + 1) as nat).map_values(
                |t: u8| AtaxxMove::Single(Square { value: t }),
            ));
        }
        i = i + 1;
    }
    proof {
        assert(moves@ == base + spec_single_moves(pos.spec_model()));
    }

    let ghost base2 = moves@;
    let mut f: u64 = 0;
    while f < 64
        invariant
            0 <= f <= 64,
            pos.wf(),
            ours.value == pos.spec_ours(),
            ours.on_board(),
            empty.value == pos.spec_empty(),
            moves@ == base2 + spec_double_moves_upto(pos.spec_model(), f as nat),
        decreases 64 - f,
    {
        if (ours.value >> f) & 1 == 1 {
            proof {
                crate::position::lemma_on_board_bit_valid(ours.value, f);
            }
            let from = Square::from_raw(f as u8);
            let attacks = double_attacks(from).and(empty);
            proof {
                crate::attacks::lemma_on_board_and(spec_doubles(from), empty.value);
            }
            let ghost base3 = moves@;
            let mut t: u64 = 0;
            while t < 64
                invariant
                    0 <= t <= 64,
                    from.value == f as u8,
                    from.is_valid(),
                    attacks.value == spec_gen_doubles_from(pos.spec_model(), f as u8),
                    attacks.on_board(),
                    moves@ == base3 + squares_below(attacks.value, t as nat).map_values(
                        |tt: u8| AtaxxMove::Double(Square { value: f as u8 }, Square { value: tt }),
                    ),
                decreases 64 - t,
            {
                if (attacks.value >> t) & 1 == 1 {
                    proof {
                        crate::position::lemma_on_board_bit_valid(attacks.value, t);
                    }
                    moves.push(AtaxxMove::Double(from, Square::from_raw(t as u8)));
                }
                proof {
                    assert(moves@ =~= base3 + squares_below(attacks.value, (t + 1) as nat).map_values(
                        |tt: u8| AtaxxMove::Double(Square { value: f as u8 }, Square { value: tt }),
                    ));
                }
                t = t + 1;
            }
            proof {
                assert(moves@ =~= base2 + spec_double_moves_upto(pos.spec_model(), (f + 1) as nat));
            }
        } else {
            proof {
                assert(moves@ =~= base2 + spec_double_moves_upto(pos.spec_model(), (f + 1) as nat));
            }
        }
        f = f + 1;
    }

    if moves.len() == len0 {
        // No placement and no jump exists: the one legal move is a pass.
        moves.push(AtaxxMove::Null);
        proof {
            assert((spec_single_moves(pos.spec_model()) + spec_double_moves_upto(
                pos.spec_model(),
                64,
            )).len() == 0);
            assert(moves@ =~= base + spec_gen_moves(pos.spec_model()));
        }
    } else {
        proof {
            assert((spec_single_moves(pos.spec_model()) + spec_double_moves_upto(
                pos.spec_model(),
                64,
            )).len() > 0);
            assert(moves@ =~= base + spec_gen_moves(pos.spec_model()));
        }
    }
}

/// The legal moves of `pos`, as a fresh list in generation order.
pub fn generate_moves(pos: &Position) -> (r: MoveList)
    requires
        pos.wf(),
    ensures
        r@ == spec_gen_moves(pos.spec_model()),
{
    let mut moves: MoveList = Vec::new();
    fill_move_list(&mut moves, pos);
    proof {
        assert(moves@ =~= spec_gen_moves(pos.spec_model()));
    }
    moves
}

/// Appends every legal move, paired with a zero score for later ordering.
pub fn fill_scored_move_list(moves: &mut ScoredMoveList, pos: &Position)
    requires
        pos.wf(),
    ensures
        final(moves)@ == old(moves)@ + spec_gen_moves(pos.spec_model()).map_values(
            |m: AtaxxMove| (m, 0i32),
        ),
{
    let plain = generate_moves(pos);
    let n = plain.len();
    let mut i: usize = 0;
    while i < n
        invariant
            0 <= i <= n,
            n == plain@.len(),
            plain@ == spec_gen_moves(pos.spec_model()),
            moves@ == old(moves)@ + plain@.take(i as int).map_values(|m: AtaxxMove| (m, 0i32)),
        decreases n - i,
    {
        moves.push((plain[i], 0));
        proof {
            assert(plain@.take(i + 1).drop_last() =~= plain@.take(i as int));
            assert(moves@ =~= old(moves)@ + plain@.take(i + 1).map_values(
                |m: AtaxxMove| (m, 0i32),
            ));
        }
        i = i + 1;
    }
    proof {
        assert(plain@.take(n as int) =~= plain@);
    }
}

impl Position {
    /// True when `m` is one of the moves the generator yields here.
    #[verifier::loop_isolation(false)]
    pub fn is_legal(&self, m: AtaxxMove) -> (r: bool)
        requires
            self.wf(),
            m.is_wf(),
        ensures
            r == spec_gen_moves(self.spec_model()).contains(m),
    {
        proof {
            lemma_gen_moves_complete(self.spec_model());
        }
        if self.game_over() {
            return false;
        }
        let ours = self.color_occupancy(self.side_to_move());
        let empty = self.empty_squares();
        match m {
            AtaxxMove::NoMove => false,
            AtaxxMove::Single(to) => {
                let singles = ours.expand().and(empty);
                singles.get(to)
            },
            AtaxxMove::Double(from, to) => {
                ours.get(from) && double_attacks(from).and(empty).get(to)
            },
            AtaxxMove::Null => {
                let singles = ours.expand().and(empty);
                if !singles.is_empty() {
                    proof {
                        vstd::std_specs::bits::axiom_u64_trailing_zeros(singles.value);
                        let tz = vstd::std_specs::bits::u64_trailing_zeros(singles.value);
                        assert(bb_bit(singles.value, tz as int));
                    }
                    return false;
                }
                let mut f: u64 = 0;
                while f < 64
                    invariant
                        0 <= f <= 64,
                        self.wf(),
                        ours.value == self.spec_ours(),
                        ours.on_board(),
                        empty.value == self.spec_empty(),
                        forall|g: u8|
                            g < f ==> (bb_bit(self.spec_ours(), g as int)
                                ==> spec_gen_doubles_from(self.spec_model(), g) == 0),
                    decreases 64 - f,
                {
                    if (ours.value >> f) & 1 == 1 {
                        proof {
                            crate::position::lemma_on_board_bit_valid(ours.value, f);
                        }
                        let from = Square::from_raw(f as u8);
                        let attacks = double_attacks(from).and(empty);
                        if !attacks.is_empty() {
                            proof {
                                assert(attacks.value == spec_gen_doubles_from(
                                    self.spec_model(),
                                    f as u8,
                                ));
                                assert((f as u8) as u64 == f);
                                assert(bb_bit(self.spec_ours(), (f as u8) as int));
                                assert(!spec_is_legal(self.spec_model(), AtaxxMove::Null));
                            }
                            return false;
                        }
                    }
                    f = f + 1;
                }
                true
            },
        }
    }
}

} // verus!
