//! The board state machine: per-ply snapshots with incremental Zobrist keys,
//! make/unmake over a growable history stack, and the terminal rules.
//!
//! The well-formedness invariant keeps the red, blue and blocked square sets
//! pairwise disjoint and on the board; the key invariant [`Position::keys_ok`]
//! says every snapshot's key equals the XOR-fold [`spec_board_key`] of its
//! boards and the side to move at that ply.

use vstd::prelude::*;
use crate::attacks::{lemma_on_board_and, single_attacks, spec_singles};
use crate::ataxx_move::AtaxxMove;
use crate::bitboard::{bb_bit, Bitboard, BB_ALL};
use crate::hash::{
    color_square_key, lemma_capture_keys_toggle, lemma_capture_keys_zero,
    lemma_pieces_key_toggle_blue, lemma_pieces_key_toggle_red, lemma_pieces_key_toggle_set,
    lemma_xor_facts, spec_board_key, spec_capture_keys, spec_color_square_key, spec_pieces_key,
    spec_sq_idx_of_bit, spec_stm_key, stm_key,
};
use crate::square::{Color, Square};

verus! {

/// One per-ply snapshot: the two occupancy sets, the position's Zobrist key,
/// and the count of half-moves made without a placement.
#[derive(Debug, Copy, Clone, PartialEq, Eq, Structural)]
pub struct BoardState {
    pub red: Bitboard,
    pub blue: Bitboard,
    pub key: u64,
    pub halfmove: u16,
}

impl BoardState {
    /// Red, blue and the blocked squares are pairwise disjoint and on the
    /// board.
    pub open spec fn wf(self, gaps: u64) -> bool {
        &&& self.red.value & self.blue.value == 0
        &&& self.red.value & gaps == 0
        &&& self.blue.value & gaps == 0
        &&& self.red.on_board()
        &&& self.blue.on_board()
    }

    pub fn red_occupancy(&self) -> (r: Bitboard)
        ensures
            r == self.red,
    {
        self.red
    }

    pub fn blue_occupancy(&self) -> (r: Bitboard)
        ensures
            r == self.blue,
    {
        self.blue
    }

    pub fn occupancy(&self) -> (r: Bitboard)
        ensures
            r.value == self.red.value | self.blue.value,
    {
        self.red.or(self.blue)
    }

    /// The set the given player occupies.
    pub open spec fn spec_color_bb(self, c: Color) -> u64 {
        if c.value == 0 {
            self.red.value
        } else {
            self.blue.value
        }
    }

    pub fn color_occupancy(&self, c: Color) -> (r: Bitboard)
        requires
            c.is_player(),
        ensures
            r.value == self.spec_color_bb(c),
    {
        if c.idx() == 0 {
            self.red
        } else {
            self.blue
        }
    }

    pub fn color_at(&self, sq: Square) -> (r: Color)
        requires
            sq.is_valid(),
        ensures
            self.red.spec_get(sq) ==> r.value == 0,
            !self.red.spec_get(sq) && self.blue.spec_get(sq) ==> r.value == 1,
            !self.red.spec_get(sq) && !self.blue.spec_get(sq) ==> r.value == 2,
    {
        if self.red.get(sq) {
            Color::red()
        } else if self.blue.get(sq) {
            Color::blue()
        } else {
            Color::none()
        }
    }

    /// The playable empty squares given the blocked set.
    pub open spec fn spec_empty(self, gaps: u64) -> u64 {
        !(self.red.value | self.blue.value | gaps) & BB_ALL
    }

    pub fn empty_squares(&self, gaps: Bitboard) -> (r: Bitboard)
        ensures
            r.value == self.spec_empty(gaps.value),
    {
        self.occupancy().or(gaps).inverse().and(Bitboard::all())
    }
}

/// The spec-level board a position denotes: everything move generation and
/// the game rules read. The full-move number, the key and the history stack
/// play no part in which moves exist.
pub struct BoardModel {
    pub red: u64,
    pub blue: u64,
    pub gaps: u64,
    pub blue_to_move: bool,
    pub halfmove: u16,
}

impl BoardModel {
    /// The side to move's pieces.
    pub open spec fn ours(self) -> u64 {
        if self.blue_to_move {
            self.blue
        } else {
            self.red
        }
    }

    /// The opponent's pieces.
    pub open spec fn theirs(self) -> u64 {
        if self.blue_to_move {
            self.red
        } else {
            self.blue
        }
    }

    pub open spec fn occ(self) -> u64 {
        self.red | self.blue
    }

    /// The playable empty squares.
    pub open spec fn empty(self) -> u64 {
        !(self.red | self.blue | self.gaps) & BB_ALL
    }

    /// The three square sets are pairwise disjoint and on the board.
    pub open spec fn wf(self) -> bool {
        &&& self.red & self.blue == 0
        &&& self.red & self.gaps == 0
        &&& self.blue & self.gaps == 0
        &&& self.red & !BB_ALL == 0
        &&& self.blue & !BB_ALL == 0
        &&& self.gaps & !BB_ALL == 0
    }

    /// The game is over when a side has no pieces, the board is full, 100
    /// half-moves passed without a placement, or no empty square is within
    /// two steps of any piece.
    pub open spec fn game_over(self) -> bool {
        ||| self.red == 0
        ||| self.blue == 0
        ||| self.occ() == BB_ALL
        ||| self.halfmove >= 100
        ||| crate::bitboard::spec_expand(crate::bitboard::spec_expand(self.occ())) & self.empty()
            == 0
    }

    /// The board after a move: the mover's set gains the target (and loses a
    /// jump's source), adjacent enemies flip, the no-placement clock resets
    /// on a placement and ticks on a jump, and the turn passes.
    pub open spec fn apply(self, mv: AtaxxMove) -> BoardModel {
        match mv {
            AtaxxMove::NoMove => self,
            AtaxxMove::Null => (BoardModel { blue_to_move: !self.blue_to_move, ..self }),
            AtaxxMove::Single(to) => {
                let cap = crate::attacks::spec_singles(to) & self.theirs();
                let ours2 = (self.ours() ^ (1u64 << (to.value as u64))) ^ cap;
                let theirs2 = self.theirs() ^ cap;
                BoardModel {
                    red: if self.blue_to_move {
                        theirs2
                    } else {
                        ours2
                    },
                    blue: if self.blue_to_move {
                        ours2
                    } else {
                        theirs2
                    },
                    gaps: self.gaps,
                    blue_to_move: !self.blue_to_move,
                    halfmove: 0,
                }
            },
            AtaxxMove::Double(from, to) => {
                let cap = crate::attacks::spec_singles(to) & self.theirs();
                let ours2 = (self.ours() ^ ((1u64 << (from.value as u64)) | (1u64 << (to.value
                    as u64)))) ^ cap;
                let theirs2 = self.theirs() ^ cap;
                BoardModel {
                    red: if self.blue_to_move {
                        theirs2
                    } else {
                        ours2
                    },
                    blue: if self.blue_to_move {
                        ours2
                    } else {
                        theirs2
                    },
                    gaps: self.gaps,
                    blue_to_move: !self.blue_to_move,
                    halfmove: (self.halfmove + 1) as u16,
                }
            },
        }
    }
}

/// How a finished game ended.
#[derive(Debug, Copy, Clone, PartialEq, Eq, Structural)]
pub enum GameResult {
    Win(Color),
    Draw,
}

/// The game position: a fixed blocked-square set, the side to move, the
/// full-move number, and the stack of per-ply snapshots.
#[derive(Debug, Clone)]
pub struct Position {
    blue_to_move: bool,
    fullmove: u32,
    gaps: Bitboard,
    states: Vec<BoardState>,
    hashes: Vec<u64>,
}

impl Position {
    pub closed spec fn spec_states(&self) -> Seq<BoardState> {
        self.states@
    }

    pub closed spec fn spec_hashes(&self) -> Seq<u64> {
        self.hashes@
    }

    pub closed spec fn spec_blue_to_move(&self) -> bool {
        self.blue_to_move
    }

    pub closed spec fn spec_fullmove(&self) -> u32 {
        self.fullmove
    }

    pub closed spec fn spec_gaps(&self) -> u64 {
        self.gaps.value
    }

    /// The current snapshot.
    pub open spec fn spec_curr(&self) -> BoardState {
        self.spec_states().last()
    }

    pub open spec fn spec_red(&self) -> u64 {
        self.spec_curr().red.value
    }

    pub open spec fn spec_blue(&self) -> u64 {
        self.spec_curr().blue.value
    }

    pub open spec fn spec_occupancy(&self) -> u64 {
        self.spec_red() | self.spec_blue()
    }

    pub open spec fn spec_empty(&self) -> u64 {
        self.spec_curr().spec_empty(self.spec_gaps())
    }

    pub open spec fn spec_halfmove(&self) -> u16 {
        self.spec_curr().halfmove
    }

    /// The side to move, as a color value: 0 red, 1 blue.
    pub open spec fn spec_stm(&self) -> Color {
        if self.spec_blue_to_move() {
            Color { value: 1 }
        } else {
            Color { value: 0 }
        }
    }

    /// The set the side to move occupies.
    pub open spec fn spec_ours(&self) -> u64 {
        if self.spec_blue_to_move() {
            self.spec_blue()
        } else {
            self.spec_red()
        }
    }

    /// The set the opponent occupies.
    pub open spec fn spec_theirs(&self) -> u64 {
        if self.spec_blue_to_move() {
            self.spec_red()
        } else {
            self.spec_blue()
        }
    }

    /// The board model this position denotes.
    pub open spec fn spec_model(&self) -> BoardModel {
        BoardModel {
            red: self.spec_red(),
            blue: self.spec_blue(),
            gaps: self.spec_gaps(),
            blue_to_move: self.spec_blue_to_move(),
            halfmove: self.spec_halfmove(),
        }
    }

    /// Structural well-formedness: at least one snapshot, the blocked set on
    /// the board, and every snapshot well formed against it.
    pub open spec fn wf(&self) -> bool {
        &&& self.spec_states().len() >= 1
        &&& self.spec_gaps() & !BB_ALL == 0
        &&& forall|i: int|
            0 <= i < self.spec_states().len() ==> (#[trigger] self.spec_states()[i]).wf(
                self.spec_gaps(),
            )
    }

    /// The side that was to move at snapshot `i` (counting back from the side
    /// to move now).
    pub open spec fn spec_stm_at(&self, i: int) -> bool {
        if (self.spec_states().len() - 1 - i) % 2 == 0 {
            self.spec_blue_to_move()
        } else {
            !self.spec_blue_to_move()
        }
    }

    /// The first `n` snapshots carry the key their boards and side to move
    /// fold to.
    pub open spec fn keys_ok_upto(&self, n: int) -> bool {
        forall|i: int|
            0 <= i < n ==> (#[trigger] self.spec_states()[i]).key == spec_board_key(
                self.spec_states()[i].red.value,
                self.spec_states()[i].blue.value,
                self.spec_stm_at(i),
            )
    }

    /// Every snapshot's key is the fold of its boards: the incremental key
    /// always equals the from-scratch key.
    pub open spec fn keys_ok(&self) -> bool {
        self.keys_ok_upto(self.spec_states().len() as int)
    }

    /// A position with no pieces, no blocked squares, and red to move.
    pub fn empty() -> (r: Position)
        ensures
            r.wf(),
            r.keys_ok(),
            r.spec_states().len() == 1,
            r.spec_hashes().len() == 0,
            r.spec_red() == 0,
            r.spec_blue() == 0,
            r.spec_gaps() == 0,
            !r.spec_blue_to_move(),
            r.spec_fullmove() == 0,
            r.spec_halfmove() == 0,
    {
        let mut states: Vec<BoardState> = Vec::new();
        states.push(
            BoardState { red: Bitboard::empty(), blue: Bitboard::empty(), key: 0, halfmove: 0 },
        );
        let r = Position {
            blue_to_move: false,
            fullmove: 0,
            gaps: Bitboard::empty(),
            states,
            hashes: Vec::new(),
        };
        proof {
            lemma_pieces_key_zero(64);
            lemma_xor_facts();
            crate::bitboard::lemma_zero_word(0, 0);
            assert(r.spec_states()[0].wf(0));
        }
        r
    }

    /// Red on a7 and g1, blue on a1 and g7, red to move.
    pub fn startpos() -> (r: Position)
        ensures
            r.wf(),
            r.keys_ok(),
            r.spec_states().len() == 1,
            r.spec_red() == 0x01000000000040u64,
            r.spec_blue() == 0x40000000000001u64,
            r.spec_gaps() == 0,
            !r.spec_blue_to_move(),
            r.spec_fullmove() == 1,
            r.spec_halfmove() == 0,
    {
        let mut result = Position::empty();
        result.reset_to_startpos();
        result
    }

    /// Resets to the standard start layout: the history is cleared, blocked
    /// squares are removed, and red is to move at full-move 1.
    pub fn reset_to_startpos(&mut self)
        ensures
            final(self).wf(),
            final(self).keys_ok(),
            final(self).spec_states().len() == 1,
            final(self).spec_hashes().len() == 0,
            final(self).spec_red() == 0x01000000000040u64,
            final(self).spec_blue() == 0x40000000000001u64,
            final(self).spec_gaps() == 0,
            !final(self).spec_blue_to_move(),
            final(self).spec_fullmove() == 1,
            final(self).spec_halfmove() == 0,
    {
        self.states.clear();
        self.states.push(
            BoardState {
                red: Bitboard::from_raw(0x01000000000040),
                blue: Bitboard::from_raw(0x40000000000001),
                key: 0,
                halfmove: 0,
            },
        );
        self.hashes.clear();
        self.blue_to_move = false;
        self.fullmove = 1;
        self.gaps = Bitboard::empty();
        proof {
            let rv = self.states@[0].red.value;
            let bv = self.states@[0].blue.value;
            assert((rv & bv == 0 && rv & !BB_ALL == 0 && bv & !BB_ALL == 0 && rv & 0u64 == 0 && bv
                & 0u64 == 0 && 0u64 & !BB_ALL == 0)) by (bit_vector)
                requires
                    rv == 0x01000000000040u64,
                    bv == 0x40000000000001u64,
            ;
            assert(self.states@[0].wf(0));
        }
        self.regen_curr_key();
    }

    /// Resets to the given record: one fresh snapshot with the given square
    /// sets, clock and counters, and a recomputed key.
    pub fn reset_from_record(
        &mut self,
        red: u64,
        blue: u64,
        gaps: u64,
        blue_to_move: bool,
        halfmove: u16,
        fullmove: u32,
    )
        requires
            red & blue == 0,
            red & gaps == 0,
            blue & gaps == 0,
            red & !BB_ALL == 0,
            blue & !BB_ALL == 0,
            gaps & !BB_ALL == 0,
        ensures
            final(self).wf(),
            final(self).keys_ok(),
            final(self).spec_states().len() == 1,
            final(self).spec_hashes().len() == 0,
            final(self).spec_red() == red,
            final(self).spec_blue() == blue,
            final(self).spec_gaps() == gaps,
            final(self).spec_blue_to_move() == blue_to_move,
            final(self).spec_halfmove() == halfmove,
            final(self).spec_fullmove() == fullmove,
    {
        self.states.clear();
        self.states.push(
            BoardState {
                red: Bitboard::from_raw(red),
                blue: Bitboard::from_raw(blue),
                key: 0,
                halfmove,
            },
        );
        self.hashes.clear();
        self.blue_to_move = blue_to_move;
        self.fullmove = fullmove;
        self.gaps = Bitboard::from_raw(gaps);
        proof {
            assert(self.states@[0].wf(gaps));
        }
        self.regen_curr_key();
    }

    /// Recomputes the current snapshot's key from scratch; every other field
    /// and snapshot is untouched.
    pub fn regen_curr_key(&mut self)
        requires
            old(self).wf(),
        ensures
            final(self).wf(),
            final(self).spec_states().len() == old(self).spec_states().len(),
            final(self).spec_hashes() == old(self).spec_hashes(),
            final(self).spec_blue_to_move() == old(self).spec_blue_to_move(),
            final(self).spec_fullmove() == old(self).spec_fullmove(),
            final(self).spec_gaps() == old(self).spec_gaps(),
            forall|i: int|
                0 <= i < old(self).spec_states().len() - 1 ==> final(self).spec_states()[i] == old(
                    self,
                ).spec_states()[i],
            final(self).spec_curr() == (BoardState {
                key: spec_board_key(
                    old(self).spec_red(),
                    old(self).spec_blue(),
                    old(self).spec_blue_to_move(),
                ),
                ..old(self).spec_curr()
            }),
            old(self).keys_ok_upto(old(self).spec_states().len() - 1) ==> final(self).keys_ok(),
    {
        let n = self.states.len();
        let red = self.states[n - 1].red;
        let blue = self.states[n - 1].blue;
        let mut key: u64 = 0;
        let mut i: u64 = 0;
        while i < 64
            invariant
                0 <= i <= 64,
                red.on_board(),
                blue.on_board(),
                key == spec_pieces_key(red.value, blue.value, i as nat),
            decreases 64 - i,
        {
            proof {
                lemma_xor_facts();
                lemma_on_board_bit_valid(red.value, i);
                lemma_on_board_bit_valid(blue.value, i);
            }
            if (red.value >> i) & 1 == 1 {
                let sq = Square::from_raw(i as u8);
                key = key ^ color_square_key(Color::red(), sq);
            }
            if (blue.value >> i) & 1 == 1 {
                let sq = Square::from_raw(i as u8);
                key = key ^ color_square_key(Color::blue(), sq);
            }
            i = i + 1;
        }
        if self.blue_to_move {
            key = key ^ stm_key();
        }
        let m = self.states.len();
        self.states[m - 1].key = key;
        proof {
            lemma_xor_facts();
        }
    }

    /// The game is over when a side has no pieces, the board is full, 100
    /// half-moves passed without a placement, or no empty square is within
    /// two steps of any piece (so neither side can ever move again).
    pub open spec fn spec_game_over(&self) -> bool {
        self.spec_model().game_over()
    }

    pub fn game_over(&self) -> (r: bool)
        requires
            self.wf(),
        ensures
            r == self.spec_game_over(),
    {
        let n = self.states.len();
        let state = &self.states[n - 1];
        state.red_occupancy().is_empty() || state.blue_occupancy().is_empty() || state.occupancy().raw()
            == Bitboard::all().raw() || state.halfmove >= 100 || state.occupancy().expand().expand().and(
            state.empty_squares(self.gaps),
        ).is_empty()
    }

    /// Whoever owns strictly more squares wins; equal counts draw.
    pub fn result(&self) -> (r: GameResult)
        requires
            self.wf(),
        ensures
            self.spec_curr().red.spec_popcount() > self.spec_curr().blue.spec_popcount() ==> r
                == GameResult::Win((Color { value: 0u8 })),
            self.spec_curr().red.spec_popcount() < self.spec_curr().blue.spec_popcount() ==> r
                == GameResult::Win((Color { value: 1u8 })),
            self.spec_curr().red.spec_popcount() == self.spec_curr().blue.spec_popcount() ==> r
                == GameResult::Draw,
    {
        let n = self.states.len();
        let red_count = self.states[n - 1].red.popcount();
        let blue_count = self.states[n - 1].blue.popcount();
        if red_count > blue_count {
            GameResult::Win(Color::red())
        } else if red_count < blue_count {
            GameResult::Win(Color::blue())
        } else {
            GameResult::Draw
        }
    }

    pub fn side_to_move(&self) -> (r: Color)
        ensures
            r == self.spec_stm(),
            r.is_player(),
    {
        if self.blue_to_move {
            Color::blue()
        } else {
            Color::red()
        }
    }

    pub fn occupancy(&self) -> (r: Bitboard)
        requires
            self.wf(),
        ensures
            r.value == self.spec_occupancy(),
    {
        let n = self.states.len();
        self.states[n - 1].occupancy()
    }

    pub fn empty_squares(&self) -> (r: Bitboard)
        requires
            self.wf(),
        ensures
            r.value == self.spec_empty(),
    {
        let n = self.states.len();
        self.states[n - 1].empty_squares(self.gaps)
    }

    pub fn red_occupancy(&self) -> (r: Bitboard)
        requires
            self.wf(),
        ensures
            r.value == self.spec_red(),
    {
        let n = self.states.len();
        self.states[n - 1].red
    }

    pub fn blue_occupancy(&self) -> (r: Bitboard)
        requires
            self.wf(),
        ensures
            r.value == self.spec_blue(),
    {
        let n = self.states.len();
        self.states[n - 1].blue
    }

    pub fn color_occupancy(&self, color: Color) -> (r: Bitboard)
        requires
            self.wf(),
            color.is_player(),
        ensures
            r.value == self.spec_curr().spec_color_bb(color),
    {
        let n = self.states.len();
        self.states[n - 1].color_occupancy(color)
    }

    pub fn color_at(&self, sq: Square) -> (r: Color)
        requires
            self.wf(),
            sq.is_valid(),
        ensures
            bb_bit(self.spec_red(), sq.value as int) ==> r.value == 0,
            !bb_bit(self.spec_red(), sq.value as int) && bb_bit(self.spec_blue(), sq.value as int)
                ==> r.value == 1,
            !bb_bit(self.spec_red(), sq.value as int) && !bb_bit(self.spec_blue(), sq.value as int)
                ==> r.value == 2,
    {
        let n = self.states.len();
        self.states[n - 1].color_at(sq)
    }

    pub fn gaps(&self) -> (r: Bitboard)
        ensures
            r.value == self.spec_gaps(),
    {
        self.gaps
    }

    pub fn gap_at(&self, sq: Square) -> (r: bool)
        requires
            sq.is_valid(),
        ensures
            r == bb_bit(self.spec_gaps(), sq.value as int),
    {
        self.gaps.get(sq)
    }

    /// The current snapshot's (incrementally maintained) Zobrist key.
    pub fn key(&self) -> (r: u64)
        requires
            self.wf(),
        ensures
            r == self.spec_curr().key,
            self.keys_ok() ==> r == spec_board_key(
                self.spec_red(),
                self.spec_blue(),
                self.spec_blue_to_move(),
            ),
    {
        let n = self.states.len();
        self.states[n - 1].key
    }

    pub fn halfmoves(&self) -> (r: u16)
        requires
            self.wf(),
        ensures
            r == self.spec_halfmove(),
    {
        let n = self.states.len();
        self.states[n - 1].halfmove
    }

    pub fn fullmoves(&self) -> (r: u32)
        ensures
            r == self.spec_fullmove(),
    {
        self.fullmove
    }
}

impl Position {
    /// What it takes to apply `mv` here: the named squares are really free or
    /// owned as the move kind demands, and the counters cannot overflow.
    pub open spec fn spec_move_ok(&self, mv: AtaxxMove) -> bool {
        &&& mv.is_wf()
        &&& (match mv {
            AtaxxMove::NoMove => false,
            AtaxxMove::Null => true,
            AtaxxMove::Single(to) => bb_bit(self.spec_empty(), to.value as int),
            AtaxxMove::Double(from, to) => bb_bit(self.spec_ours(), from.value as int) && bb_bit(
                self.spec_empty(),
                to.value as int,
            ) && self.spec_halfmove() < 0xFFFF,
        })
        &&& (self.spec_blue_to_move() ==> self.spec_fullmove() < 0xFFFF_FFFFu32)
    }

    /// The snapshot after `mv`: the mover's set gains the target (and loses a
    /// jump's source), every adjacent enemy piece flips to the mover, the
    /// no-placement clock resets on a placement and ticks on a jump, and —
    /// when keys are kept — the key absorbs the side-to-move key and one key
    /// per changed (color, square) pair.
    pub open spec fn spec_next_state(&self, mv: AtaxxMove, update_key: bool) -> BoardState {
        let st = self.spec_curr();
        let blue_mv = self.spec_blue_to_move();
        let key0 = if update_key {
            st.key ^ spec_stm_key()
        } else {
            st.key
        };
        match mv {
            AtaxxMove::NoMove => st,
            AtaxxMove::Null => (BoardState { key: key0, ..st }),
            AtaxxMove::Single(to) => {
                let ours0 = if blue_mv {
                    st.blue.value
                } else {
                    st.red.value
                };
                let theirs0 = if blue_mv {
                    st.red.value
                } else {
                    st.blue.value
                };
                let cap = spec_singles(to) & theirs0;
                let ours2 = (ours0 ^ (1u64 << (to.value as u64))) ^ cap;
                let theirs2 = theirs0 ^ cap;
                let key2 = if update_key {
                    key0 ^ spec_color_square_key(
                        if blue_mv {
                            1
                        } else {
                            0
                        },
                        to.spec_idx(),
                    ) ^ spec_capture_keys(cap, 64)
                } else {
                    key0
                };
                BoardState {
                    red: (Bitboard {
                        value: if blue_mv {
                            theirs2
                        } else {
                            ours2
                        },
                    }),
                    blue: (Bitboard {
                        value: if blue_mv {
                            ours2
                        } else {
                            theirs2
                        },
                    }),
                    key: key2,
                    halfmove: 0,
                }
            },
            AtaxxMove::Double(from, to) => {
                let ours0 = if blue_mv {
                    st.blue.value
                } else {
                    st.red.value
                };
                let theirs0 = if blue_mv {
                    st.red.value
                } else {
                    st.blue.value
                };
                let cap = spec_singles(to) & theirs0;
                let ours2 = (ours0 ^ ((1u64 << (from.value as u64)) | (1u64 << (to.value as u64))))
                    ^ cap;
                let theirs2 = theirs0 ^ cap;
                let key2 = if update_key {
                    key0 ^ spec_color_square_key(
                        if blue_mv {
                            1
                        } else {
                            0
                        },
                        to.spec_idx(),
                    ) ^ spec_color_square_key(
                        if blue_mv {
                            1
                        } else {
                            0
                        },
                        from.spec_idx(),
                    ) ^ spec_capture_keys(cap, 64)
                } else {
                    key0
                };
                BoardState {
                    red: (Bitboard {
                        value: if blue_mv {
                            theirs2
                        } else {
                            ours2
                        },
                    }),
                    blue: (Bitboard {
                        value: if blue_mv {
                            ours2
                        } else {
                            theirs2
                        },
                    }),
                    key: key2,
                    halfmove: (st.halfmove + 1) as u16,
                }
            },
        }
    }

    /// The full-move number after the side to move plays.
    pub open spec fn spec_fullmove_after(&self) -> u32 {
        if self.spec_blue_to_move() {
            (self.spec_fullmove() + 1) as u32
        } else {
            self.spec_fullmove()
        }
    }

    /// Plays `mv`. With `HISTORY` the new snapshot is pushed (so the move can
    /// be unmade); without it the current snapshot is replaced. With
    /// `UPDATE_KEY` the prior key is recorded and the new key maintained
    /// incrementally.
    pub fn apply_move<const HISTORY: bool, const UPDATE_KEY: bool>(&mut self, mv: AtaxxMove)
        requires
            old(self).wf(),
            old(self).spec_move_ok(mv),
        ensures
            final(self).wf(),
            final(self).spec_gaps() == old(self).spec_gaps(),
            final(self).spec_blue_to_move() == !old(self).spec_blue_to_move(),
            final(self).spec_fullmove() == old(self).spec_fullmove_after(),
            final(self).spec_states() == if HISTORY {
                old(self).spec_states().push(old(self).spec_next_state(mv, UPDATE_KEY))
            } else {
                old(self).spec_states().update(
                    old(self).spec_states().len() - 1,
                    old(self).spec_next_state(mv, UPDATE_KEY),
                )
            },
            final(self).spec_hashes() == if UPDATE_KEY {
                old(self).spec_hashes().push(old(self).spec_curr().key)
            } else {
                old(self).spec_hashes()
            },
            UPDATE_KEY && old(self).spec_curr().key == spec_board_key(
                old(self).spec_red(),
                old(self).spec_blue(),
                old(self).spec_blue_to_move(),
            ) ==> final(self).spec_curr().key == spec_board_key(
                final(self).spec_red(),
                final(self).spec_blue(),
                final(self).spec_blue_to_move(),
            ),
            HISTORY && UPDATE_KEY && old(self).keys_ok() ==> final(self).keys_ok(),
            !HISTORY && UPDATE_KEY && old(self).keys_ok() && old(self).spec_states().len() == 1
                ==> final(self).keys_ok(),
            final(self).spec_model() == old(self).spec_model().apply(mv),
    {
        let n = self.states.len();
        let st0 = self.states[n - 1];
        let blue_mv = self.blue_to_move;
        let ghost p0 = *self;

        let mut ns = st0;
        if UPDATE_KEY {
            ns.key = ns.key ^ stm_key();
        }
        match mv {
            AtaxxMove::NoMove => {
                proof {
                    assert(false);
                }
            },
            AtaxxMove::Null => {},
            AtaxxMove::Single(to) => {
                ns.halfmove = 0;
                let (mut ours, mut theirs) = if blue_mv {
                    (st0.blue, st0.red)
                } else {
                    (st0.red, st0.blue)
                };
                proof {
                    lemma_empty_bit_not_owned(
                        st0.red.value,
                        st0.blue.value,
                        self.gaps.value,
                        to.value as u64,
                    );
                }
                ours = ours.xor(to.bit());
                let captured = single_attacks(to).and(theirs);
                proof {
                    lemma_on_board_and(spec_singles(to), st0.red.value);
                    lemma_on_board_and(spec_singles(to), st0.blue.value);
                }
                ours = ours.xor(captured);
                theirs = theirs.xor(captured);
                if UPDATE_KEY {
                    let uscol = if blue_mv {
                        Color::blue()
                    } else {
                        Color::red()
                    };
                    ns.key = ns.key ^ color_square_key(uscol, to);
                    ns.key = xor_capture_keys(ns.key, captured);
                }
                if blue_mv {
                    ns.blue = ours;
                    ns.red = theirs;
                } else {
                    ns.red = ours;
                    ns.blue = theirs;
                }
                proof {
                    lemma_and_is_subset(
                        spec_singles(to),
                        if blue_mv {
                            st0.red.value
                        } else {
                            st0.blue.value
                        },
                    );
                    lemma_and_or_comm(st0.red.value, st0.blue.value);
                    lemma_apply_board_wf(
                        if blue_mv {
                            st0.blue.value
                        } else {
                            st0.red.value
                        },
                        if blue_mv {
                            st0.red.value
                        } else {
                            st0.blue.value
                        },
                        self.gaps.value,
                        to.value as u64,
                        to.value as u64,
                        captured.value,
                    );
                    assert(ns.wf(self.gaps.value));
                }
            },
            AtaxxMove::Double(from, to) => {
                ns.halfmove = ns.halfmove + 1;
                let (mut ours, mut theirs) = if blue_mv {
                    (st0.blue, st0.red)
                } else {
                    (st0.red, st0.blue)
                };
                proof {
                    lemma_empty_bit_not_owned(
                        st0.red.value,
                        st0.blue.value,
                        self.gaps.value,
                        to.value as u64,
                    );
                }
                ours = ours.xor(from.bit().or(to.bit()));
                let captured = single_attacks(to).and(theirs);
                proof {
                    lemma_on_board_and(spec_singles(to), st0.red.value);
                    lemma_on_board_and(spec_singles(to), st0.blue.value);
                }
                ours = ours.xor(captured);
                theirs = theirs.xor(captured);
                if UPDATE_KEY {
                    let uscol = if blue_mv {
                        Color::blue()
                    } else {
                        Color::red()
                    };
                    ns.key = ns.key ^ color_square_key(uscol, to);
                    ns.key = ns.key ^ color_square_key(uscol, from);
                    ns.key = xor_capture_keys(ns.key, captured);
                }
                if blue_mv {
                    ns.blue = ours;
                    ns.red = theirs;
                } else {
                    ns.red = ours;
                    ns.blue = theirs;
                }
                proof {
                    lemma_and_is_subset(
                        spec_singles(to),
                        if blue_mv {
                            st0.red.value
                        } else {
                            st0.blue.value
                        },
                    );
                    lemma_and_or_comm(st0.red.value, st0.blue.value);
                    lemma_apply_board_wf(
                        if blue_mv {
                            st0.blue.value
                        } else {
                            st0.red.value
                        },
                        if blue_mv {
                            st0.red.value
                        } else {
                            st0.blue.value
                        },
                        self.gaps.value,
                        from.value as u64,
                        to.value as u64,
                        captured.value,
                    );
                    assert(ns.wf(self.gaps.value));
                }
            },
        }
        proof {
            if mv is Null {
                assert(ns.wf(self.gaps.value));
            }
            assert(ns == p0.spec_next_state(mv, UPDATE_KEY));
        }

        self.blue_to_move = !blue_mv;
        if blue_mv {
            self.fullmove = self.fullmove + 1;
        }
        if UPDATE_KEY {
            self.hashes.push(st0.key);
        }
        if HISTORY {
            self.states.push(ns);
        } else {
            let m = self.states.len();
            self.states[m - 1] = ns;
        }

        proof {
            let g = p0.spec_gaps();
            assert(ns.wf(g));
            assert forall|i: int|
                0 <= i < self.spec_states().len() implies (#[trigger] self.spec_states()[i]).wf(
                g,
            ) by {
                if i < self.spec_states().len() - 1 {
                    assert(self.spec_states()[i] == p0.spec_states()[i]);
                } else if HISTORY && i == p0.spec_states().len() - 1 && i
                    < self.spec_states().len() - 1 {
                    assert(self.spec_states()[i] == p0.spec_states()[i]);
                } else {
                    assert(self.spec_states()[i] == ns);
                }
            }
            if UPDATE_KEY && p0.spec_curr().key == spec_board_key(
                p0.spec_red(),
                p0.spec_blue(),
                p0.spec_blue_to_move(),
            ) {
                lemma_next_key_correct(p0, mv);
            }
            if UPDATE_KEY && p0.keys_ok() {
                lemma_next_key_correct(p0, mv);
                if HISTORY {
                    assert forall|i: int|
                        0 <= i < self.spec_states().len() implies (
                    #[trigger] self.spec_states()[i]).key == spec_board_key(
                        self.spec_states()[i].red.value,
                        self.spec_states()[i].blue.value,
                        self.spec_stm_at(i),
                    ) by {
                        if i < p0.spec_states().len() {
                            assert(self.spec_states()[i] == p0.spec_states()[i]);
                            assert(p0.spec_stm_at(i) == self.spec_stm_at(i)) by {
                                lemma_parity_shift(p0.spec_states().len() - 1 - i);
                            }
                        }
                    }
                }
            }
        }
    }

    /// Unmakes the most recent history-keeping move: the last snapshot is
    /// dropped and the side to move and move counters step back.
    pub fn pop_move<const UPDATE_KEY: bool>(&mut self)
        requires
            old(self).wf(),
            old(self).spec_states().len() >= 2,
            !old(self).spec_blue_to_move() ==> old(self).spec_fullmove() >= 1,
            UPDATE_KEY ==> old(self).spec_hashes().len() >= 1,
        ensures
            final(self).wf(),
            final(self).spec_gaps() == old(self).spec_gaps(),
            final(self).spec_blue_to_move() == !old(self).spec_blue_to_move(),
            final(self).spec_states() == old(self).spec_states().drop_last(),
            final(self).spec_fullmove() == if !old(self).spec_blue_to_move() {
                (old(self).spec_fullmove() - 1) as u32
            } else {
                old(self).spec_fullmove()
            },
            final(self).spec_hashes() == if UPDATE_KEY {
                old(self).spec_hashes().drop_last()
            } else {
                old(self).spec_hashes()
            },
    {
        let ghost p0 = *self;
        let _ = self.states.pop();
        if UPDATE_KEY {
            let _ = self.hashes.pop();
        }
        self.blue_to_move = !self.blue_to_move;
        if self.blue_to_move {
            self.fullmove = self.fullmove - 1;
        }
        proof {
            assert(self.spec_states() =~= p0.spec_states().drop_last());
            if UPDATE_KEY {
                assert(self.spec_hashes() =~= p0.spec_hashes().drop_last());
            }
        }
    }
}

/// Folds both colors' keys for every captured square into `k`.
fn xor_capture_keys(k: u64, captured: Bitboard) -> (r: u64)
    requires
        captured.on_board(),
    ensures
        r == k ^ spec_capture_keys(captured.value, 64),
{
    let mut key = k;
    let mut rem = captured;
    proof {
        lemma_xor_facts();
        lemma_capture_keys_zero(64);
        assert(captured.value ^ rem.value == 0);
    }
    while !rem.is_empty()
        invariant
            rem.on_board(),
            key == k ^ spec_capture_keys(captured.value ^ rem.value, 64),
        decreases rem.value,
    {
        let ghost rem0 = rem.value;
        let sq = rem.pop_lowest_square();
        key = key ^ color_square_key(Color::red(), sq);
        key = key ^ color_square_key(Color::blue(), sq);
        proof {
            lemma_xor_facts();
            lemma_capture_keys_toggle(captured.value ^ rem0, sq.value as u64, 64);
            assert((captured.value ^ rem0) ^ (1u64 << (sq.value as u64)) == captured.value
                ^ rem.value) by {
                lemma_xor_facts();
            }
        }
    }
    proof {
        lemma_xor_facts();
    }
    key
}

/// A square in the empty set is owned by nobody and is not blocked.
proof fn lemma_empty_bit_not_owned(a: u64, b: u64, gaps: u64, t: u64)
    by (bit_vector)
    requires
        t < 64,
        ((!(a | b | gaps) & BB_ALL) >> t) & 1 == 1,
    ensures
        (a >> t) & 1 == 0,
        (b >> t) & 1 == 0,
        (gaps >> t) & 1 == 0,
        ((!(b | a | gaps) & BB_ALL) >> t) & 1 == 1,
        t % 8 < 7 && t / 8 < 7,
{
}

/// The board algebra of a move keeps the three square sets pairwise disjoint
/// and on the board.
proof fn lemma_apply_board_wf(ours0: u64, theirs0: u64, gaps: u64, f: u64, t: u64, cap: u64)
    by (bit_vector)
    requires
        ours0 & theirs0 == 0,
        ours0 & gaps == 0,
        theirs0 & gaps == 0,
        ours0 & !BB_ALL == 0,
        theirs0 & !BB_ALL == 0,
        t < 64,
        f < 64,
        ((!(ours0 | theirs0 | gaps) & BB_ALL) >> t) & 1 == 1,
        f == t || ((ours0 >> f) & 1) == 1,
        cap & theirs0 == cap,
    ensures
        ({
            let m = if f == t {
                1u64 << t
            } else {
                (1u64 << f) | (1u64 << t)
            };
            let ours2 = (ours0 ^ m) ^ cap;
            let theirs2 = theirs0 ^ cap;
            (ours2 & theirs2 == 0) && (theirs2 & ours2 == 0) && (ours2 & gaps == 0) && (theirs2
                & gaps == 0) && (ours2 & !BB_ALL == 0) && (theirs2 & !BB_ALL == 0)
        }),
{
}

/// Intersecting with a set gives a subset of it.
proof fn lemma_and_is_subset(a: u64, b: u64)
    by (bit_vector)
    ensures
        (a & b) & b == a & b,
{
}

/// Intersection and union do not depend on argument order.
proof fn lemma_and_or_comm(a: u64, b: u64)
    by (bit_vector)
    ensures
        a & b == b & a,
        a | b == b | a,
{
}

/// The incremental key update computes exactly the from-scratch fold of the
/// new boards and the new side to move.
proof fn lemma_next_key_correct(p: Position, mv: AtaxxMove)
    requires
        p.wf(),
        p.spec_move_ok(mv),
        p.spec_curr().key == spec_board_key(p.spec_red(), p.spec_blue(), p.spec_blue_to_move()),
    ensures
        p.spec_next_state(mv, true).key == spec_board_key(
            p.spec_next_state(mv, true).red.value,
            p.spec_next_state(mv, true).blue.value,
            !p.spec_blue_to_move(),
        ),
{
    let st = p.spec_curr();
    let btm = p.spec_blue_to_move();
    let key = st.key;
    let stm = spec_stm_key();
    let p0k = spec_pieces_key(st.red.value, st.blue.value, 64);
    match mv {
        AtaxxMove::NoMove => {
            assert(false);
        },
        AtaxxMove::Null => {
            if btm {
                assert((key ^ stm) == p0k ^ 0) by (bit_vector)
                    requires
                        key == p0k ^ stm,
                ;
            } else {
                assert((key ^ stm) == p0k ^ stm) by (bit_vector)
                    requires
                        key == p0k ^ 0,
                ;
            }
        },
        AtaxxMove::Single(to) => {
            lemma_next_key_correct_squares(p, to, to);
        },
        AtaxxMove::Double(from, to) => {
            lemma_empty_bit_not_owned(
                st.red.value,
                st.blue.value,
                p.spec_gaps(),
                to.value as u64,
            );
            assert(from.value != to.value);
            lemma_next_key_correct_squares(p, from, to);
        },
    }
}

/// Key correctness for the square-moving cases, shared by placements
/// (`from == to`) and jumps.
proof fn lemma_next_key_correct_squares(p: Position, from: Square, to: Square)
    requires
        p.wf(),
        from == to ==> p.spec_move_ok(AtaxxMove::Single(to)),
        from != to ==> p.spec_move_ok(AtaxxMove::Double(from, to)),
        p.spec_curr().key == spec_board_key(p.spec_red(), p.spec_blue(), p.spec_blue_to_move()),
    ensures
        ({
            let mv = if from == to {
                AtaxxMove::Single(to)
            } else {
                AtaxxMove::Double(from, to)
            };
            p.spec_next_state(mv, true).key == spec_board_key(
                p.spec_next_state(mv, true).red.value,
                p.spec_next_state(mv, true).blue.value,
                !p.spec_blue_to_move(),
            )
        }),
{
    let st = p.spec_curr();
    let btm = p.spec_blue_to_move();
    let red0 = st.red.value;
    let blue0 = st.blue.value;
    let ours0 = if btm {
        blue0
    } else {
        red0
    };
    let theirs0 = if btm {
        red0
    } else {
        blue0
    };
    let cap = spec_singles(to) & theirs0;
    let tbit = 1u64 << (to.value as u64);
    let fbit = 1u64 << (from.value as u64);
    let m = if from == to {
        tbit
    } else {
        fbit | tbit
    };
    let ours1 = ours0 ^ m;
    let ours2 = ours1 ^ cap;
    let theirs2 = theirs0 ^ cap;
    let usc = if btm {
        1int
    } else {
        0int
    };
    let kto = spec_color_square_key(usc, to.spec_idx());
    let kfrom = spec_color_square_key(usc, from.spec_idx());

    // Splitting the two-square mask into two single-bit toggles.
    let fv = from.value as u64;
    let tv = to.value as u64;
    if from != to {
        assert((1u64 << fv) | (1u64 << tv) == (1u64 << fv) ^ (1u64 << tv)) by (bit_vector)
            requires
                fv != tv,
                fv < 64,
                tv < 64,
        ;
    }

    // The square indices used by the toggles agree with Square::spec_idx.
    assert(spec_sq_idx_of_bit(to.value as int) == to.spec_idx());
    assert(spec_sq_idx_of_bit(from.value as int) == from.spec_idx());

    let p0k = spec_pieces_key(red0, blue0, 64);
    let fd = spec_capture_keys(cap, 64);
    let stm = spec_stm_key();
    let key = st.key;

    if btm {
        // Blue moves: blue gains the mask, both sides exchange the captures.
        lemma_pieces_key_toggle_blue(red0, blue0, tv, 64);
        if from != to {
            lemma_pieces_key_toggle_blue(red0, blue0 ^ tbit, fv, 64);
            assert((blue0 ^ tbit) ^ fbit == blue0 ^ m) by (bit_vector)
                requires
                    m == (1u64 << fv) | (1u64 << tv),
                    tbit == 1u64 << tv,
                    fbit == 1u64 << fv,
                    fv != tv,
                    fv < 64,
                    tv < 64,
            ;
            lemma_pieces_key_toggle_set(red0, blue0 ^ m, cap, 64);
            let p2k = spec_pieces_key(red0 ^ cap, (blue0 ^ m) ^ cap, 64);
            assert(((((key ^ stm) ^ kto) ^ kfrom) ^ fd) == p2k ^ 0) by (bit_vector)
                requires
                    key == p0k ^ stm,
                    p2k == ((p0k ^ kto) ^ kfrom) ^ fd,
            ;
        } else {
            lemma_pieces_key_toggle_set(red0, blue0 ^ m, cap, 64);
            let p2k = spec_pieces_key(red0 ^ cap, (blue0 ^ m) ^ cap, 64);
            assert((((key ^ stm) ^ kto) ^ fd) == p2k ^ 0) by (bit_vector)
                requires
                    key == p0k ^ stm,
                    p2k == (p0k ^ kto) ^ fd,
            ;
        }
    } else {
        // Red moves: symmetric, and the new key gains the side-to-move key.
        lemma_pieces_key_toggle_red(red0, blue0, tv, 64);
        if from != to {
            lemma_pieces_key_toggle_red(red0 ^ tbit, blue0, fv, 64);
            assert((red0 ^ tbit) ^ fbit == red0 ^ m) by (bit_vector)
                requires
                    m == (1u64 << fv) | (1u64 << tv),
                    tbit == 1u64 << tv,
                    fbit == 1u64 << fv,
                    fv != tv,
                    fv < 64,
                    tv < 64,
            ;
            lemma_pieces_key_toggle_set(red0 ^ m, blue0, cap, 64);
            let p2k = spec_pieces_key((red0 ^ m) ^ cap, blue0 ^ cap, 64);
            assert(((((key ^ stm) ^ kto) ^ kfrom) ^ fd) == p2k ^ stm) by (bit_vector)
                requires
                    key == p0k ^ 0,
                    p2k == ((p0k ^ kto) ^ kfrom) ^ fd,
            ;
        } else {
            lemma_pieces_key_toggle_set(red0 ^ m, blue0, cap, 64);
            let p2k = spec_pieces_key((red0 ^ m) ^ cap, blue0 ^ cap, 64);
            assert((((key ^ stm) ^ kto) ^ fd) == p2k ^ stm) by (bit_vector)
                requires
                    key == p0k ^ 0,
                    p2k == (p0k ^ kto) ^ fd,
            ;
        }
    }
}

/// Flipping the side to move and pushing one snapshot leaves the side that
/// was to move at each old snapshot unchanged.
proof fn lemma_parity_shift(d: int)
    requires
        d >= 0,
    ensures
        (d + 1) % 2 == 1 - d % 2,
{
}

/// Making a move with history kept and then unmaking it restores the exact
/// prior position: the same snapshots (so the same boards, Zobrist key and
/// no-placement clock), side to move, full-move number, blocked squares and
/// recorded hash history. The premises are exactly what `apply_move` (with
/// `HISTORY`) and `pop_move` ensure about the intermediate position.
pub proof fn lemma_apply_unapply_round_trip(
    p0: Position,
    p1: Position,
    p2: Position,
    mv: AtaxxMove,
    update_key: bool,
)
    requires
        p0.wf(),
        p0.spec_move_ok(mv),
        p1.spec_states() == p0.spec_states().push(p0.spec_next_state(mv, update_key)),
        p1.spec_blue_to_move() == !p0.spec_blue_to_move(),
        p1.spec_fullmove() == p0.spec_fullmove_after(),
        p1.spec_gaps() == p0.spec_gaps(),
        p1.spec_hashes() == if update_key {
            p0.spec_hashes().push(p0.spec_curr().key)
        } else {
            p0.spec_hashes()
        },
        p2.spec_states() == p1.spec_states().drop_last(),
        p2.spec_blue_to_move() == !p1.spec_blue_to_move(),
        p2.spec_fullmove() == if !p1.spec_blue_to_move() {
            (p1.spec_fullmove() - 1) as u32
        } else {
            p1.spec_fullmove()
        },
        p2.spec_gaps() == p1.spec_gaps(),
        p2.spec_hashes() == if update_key {
            p1.spec_hashes().drop_last()
        } else {
            p1.spec_hashes()
        },
    ensures
        p2.spec_states() == p0.spec_states(),
        p2.spec_blue_to_move() == p0.spec_blue_to_move(),
        p2.spec_fullmove() == p0.spec_fullmove(),
        p2.spec_gaps() == p0.spec_gaps(),
        p2.spec_hashes() == p0.spec_hashes(),
        p2.spec_curr() == p0.spec_curr(),
        p2.spec_curr().key == p0.spec_curr().key,
{
    assert(p1.spec_states().drop_last() =~= p0.spec_states());
    if update_key {
        assert(p1.spec_hashes().drop_last() =~= p0.spec_hashes());
    }
}

/// The fold of two empty boards is zero.
pub proof fn lemma_pieces_key_zero(n: nat)
    ensures
        spec_pieces_key(0, 0, n) == 0,
    decreases n,
{
    lemma_xor_facts();
    if n > 0 {
        lemma_pieces_key_zero((n - 1) as nat);
        crate::bitboard::lemma_zero_word(0, (n - 1) as u64);
    }
}

/// A set bit of an on-board set is a valid square's bit index.
pub proof fn lemma_on_board_bit_valid(v: u64, i: u64)
    by (bit_vector)
    requires
        v & !BB_ALL == 0,
        i < 64,
    ensures
        (v >> i) & 1 == 1 ==> (i % 8 < 7 && i / 8 < 7),
{
}

} // verus!
