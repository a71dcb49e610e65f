//! Bitboards: 64-bit sets of squares restricted to the 49 playing squares.
//!
//! The board lives in the low 7 bits of each of the low 7 bytes of a 64-bit
//! word, so every shift by 1, 7, 8 or 9 moves a square one king-step without
//! wrapping into the next row once masked with [`BB_ALL`].

use vstd::prelude::*;
use crate::square::Square;

verus! {

/// Mask of the 49 playing squares.
pub const BB_ALL: u64 = 0x7f7f7f7f7f7f7f;

/// True when bit `i` of `bb` is set.
pub open spec fn bb_bit(bb: u64, i: int) -> bool {
    0 <= i < 64 && (bb >> (i as u64)) & 1 == 1
}

/// Number of set bits of `bb` below bit `n`.
pub open spec fn count_bits(bb: u64, n: nat) -> nat
    decreases n,
{
    if n == 0 {
        0
    } else {
        count_bits(bb, (n - 1) as nat) + (if bb_bit(bb, n - 1) { 1nat } else { 0nat })
    }
}

/// The set of bits below `n` taken in ascending order.
pub open spec fn squares_below(bb: u64, n: nat) -> Seq<u8>
    decreases n,
{
    if n == 0 {
        Seq::empty()
    } else if bb_bit(bb, n - 1) {
        squares_below(bb, (n - 1) as nat).push((n - 1) as u8)
    } else {
        squares_below(bb, (n - 1) as nat)
    }
}

/// The ascending square list holds exactly the set bits below `n`.
pub proof fn lemma_squares_below_contains(bb: u64, n: nat, s: u8)
    requires
        n <= 64,
    ensures
        squares_below(bb, n).contains(s) <==> (s < n && bb_bit(bb, s as int)),
    decreases n,
{
    broadcast use vstd::seq_lib::lemma_seq_contains_after_push;

    if n > 0 {
        lemma_squares_below_contains(bb, (n - 1) as nat, s);
    }
}

/// Every listed square is below `n`.
pub proof fn lemma_squares_below_bound(bb: u64, n: nat)
    ensures
        forall|i: int|
            0 <= i < squares_below(bb, n).len() ==> #[trigger] squares_below(bb, n)[i] < n,
    decreases n,
{
    if n > 0 {
        lemma_squares_below_bound(bb, (n - 1) as nat);
        assert forall|i: int|
            0 <= i < squares_below(bb, n).len() implies #[trigger] squares_below(bb, n)[i]
            < n by {
            if i < squares_below(bb, (n - 1) as nat).len() {
                assert(squares_below(bb, n)[i] == squares_below(bb, (n - 1) as nat)[i]);
            }
        }
    }
}

/// Listing the set bits in ascending order never repeats a square.
pub proof fn lemma_squares_below_no_dup(bb: u64, n: nat)
    ensures
        squares_below(bb, n).no_duplicates(),
    decreases n,
{
    if n > 0 {
        lemma_squares_below_no_dup(bb, (n - 1) as nat);
        lemma_squares_below_bound(bb, (n - 1) as nat);
    }
}

/// An on-board set whose bits are all clear is zero.
pub proof fn lemma_all_bits_clear_is_zero(bb: u64)
    requires
        forall|i: u64| i < 64 ==> #[trigger] (bb >> i) & 1 == 0,
    ensures
        bb == 0,
{
    if bb != 0 {
        vstd::std_specs::bits::axiom_u64_trailing_zeros(bb);
        let t = vstd::std_specs::bits::u64_trailing_zeros(bb) as u64;
        assert((bb >> t) & 1 == 0);
    }
}

/// The zero word has no bits and absorbs intersections.
pub proof fn lemma_zero_word(x: u64, j: u64)
    by (bit_vector)
    ensures
        (0u64 >> j) & 1 == 0,
        0u64 & x == 0,
        x & 0u64 == 0,
        x | 0u64 == x,
        0u64 | x == x,
        0u64 & !BB_ALL == 0,
{
}

/// Flipping one bit changes that bit and nothing else.
pub proof fn lemma_bit_toggle(x: u64, s: u64, i: u64)
    by (bit_vector)
    requires
        s < 64,
        i < 64,
    ensures
        i == s ==> ((x ^ (1u64 << s)) >> i) & 1 == 1 - ((x >> i) & 1),
        i != s ==> ((x ^ (1u64 << s)) >> i) & 1 == (x >> i) & 1,
{
}

/// Masking with the board mask lands on the board.
pub proof fn lemma_mask_on_board(a: u64)
    by (bit_vector)
    ensures
        (a & BB_ALL) & !BB_ALL == 0,
{
}

/// A bit of a union is set exactly when it is set on either side.
pub proof fn lemma_bit_of_or(a: u64, b: u64, j: u64)
    by (bit_vector)
    requires
        j < 64,
    ensures
        ((a | b) >> j) & 1 == 1 <==> (((a >> j) & 1 == 1) || ((b >> j) & 1 == 1)),
{
}

/// A bit of an intersection is set exactly when it is set on both sides.
pub proof fn lemma_bit_of_and2(a: u64, b: u64, j: u64)
    by (bit_vector)
    requires
        j < 64,
    ensures
        ((a & b) >> j) & 1 == 1 <==> (((a >> j) & 1 == 1) && ((b >> j) & 1 == 1)),
{
}

pub proof fn lemma_count_bits_le(bb: u64, n: nat)
    ensures
        count_bits(bb, n) <= n,
    decreases n,
{
    if n > 0 {
        lemma_count_bits_le(bb, (n - 1) as nat);
    }
}

/// One step of neighborhood expansion: the set itself plus every square one
/// king-step away, kept on the board.
pub open spec fn spec_expand(v: u64) -> u64 {
    (((v | (((v << 8) | (v >> 8)) & BB_ALL)) | ((((v | (((v << 8) | (v >> 8)) & BB_ALL)) << 1)
        & BB_ALL) | (((v | (((v << 8) | (v >> 8)) & BB_ALL)) >> 1) & BB_ALL))) & BB_ALL)
}

impl Square {
    /// The singleton set holding just this square.
    pub fn bit(&self) -> (r: Bitboard)
        requires
            self.is_valid(),
        ensures
            r.value == 1u64 << (self.value as u64),
            r.on_board(),
            r.spec_get(*self),
    {
        let r = Bitboard { value: 1u64 << (self.value as u64) };
        proof {
            let t = self.value as u64;
            assert((t % 8 < 7 && t / 8 < 7) ==> ((1u64 << t) & !BB_ALL == 0 && ((1u64 << t) >> t)
                & 1 == 1)) by (bit_vector);
        }
        r
    }
}

/// A set of squares packed into a 64-bit word.
#[derive(Debug, Copy, Clone, PartialEq, Eq, Structural)]
pub struct Bitboard {
    pub value: u64,
}

impl Bitboard {
    /// True when the set stays within the 49 playing squares.
    pub open spec fn on_board(self) -> bool {
        self.value & !BB_ALL == 0
    }

    /// True when square `sq` is in the set.
    pub open spec fn spec_get(self, sq: Square) -> bool {
        bb_bit(self.value, sq.value as int)
    }

    /// Number of squares in the set.
    pub open spec fn spec_popcount(self) -> nat {
        count_bits(self.value, 64)
    }

    pub fn all() -> (r: Bitboard)
        ensures
            r.value == BB_ALL,
    {
        Bitboard { value: BB_ALL }
    }

    pub fn empty() -> (r: Bitboard)
        ensures
            r.value == 0,
    {
        Bitboard { value: 0 }
    }

    pub fn from_raw(value: u64) -> (r: Bitboard)
        ensures
            r.value == value,
    {
        Bitboard { value }
    }

    pub fn raw(self) -> (r: u64)
        ensures
            r == self.value,
    {
        self.value
    }

    pub fn popcount(self) -> (r: u32)
        ensures
            r == self.spec_popcount(),
            r <= 64,
    {
        proof {
            lemma_count_bits_le(self.value, 64);
        }
        let mut count: u32 = 0;
        let mut i: u64 = 0;
        while i < 64
            invariant
                i <= 64,
                count == count_bits(self.value, i as nat),
                count <= i,
            decreases 64 - i,
        {
            if (self.value >> i) & 1 == 1 {
                count = count + 1;
            }
            i = i + 1;
        }
        count
    }

    pub fn is_empty(self) -> (r: bool)
        ensures
            r == (self.value == 0),
    {
        self.value == 0
    }

    /// True when the set holds at least two squares.
    pub fn contains_multiple(self) -> (r: bool)
        ensures
            r == (self.spec_popcount() >= 2),
    {
        self.popcount() >= 2
    }

    pub fn get(self, sq: Square) -> (r: bool)
        requires
            sq.is_valid(),
        ensures
            r == self.spec_get(sq),
    {
        (self.value >> (sq.value as u64)) & 1 == 1
    }

    pub fn set(&mut self, sq: Square)
        requires
            sq.is_valid(),
        ensures
            final(self).value == old(self).value | (1u64 << (sq.value as u64)),
    {
        self.value = self.value | (1u64 << (sq.value as u64));
    }

    pub fn clear(&mut self, sq: Square)
        requires
            sq.is_valid(),
        ensures
            final(self).value == old(self).value & !(1u64 << (sq.value as u64)),
    {
        self.value = self.value & !(1u64 << (sq.value as u64));
    }

    pub fn flip(&mut self, sq: Square)
        requires
            sq.is_valid(),
        ensures
            final(self).value == old(self).value ^ (1u64 << (sq.value as u64)),
    {
        self.value = self.value ^ (1u64 << (sq.value as u64));
    }

    pub fn set_to(&mut self, sq: Square, value: bool)
        requires
            sq.is_valid(),
        ensures
            value ==> final(self).value == old(self).value | (1u64 << (sq.value as u64)),
            !value ==> final(self).value == old(self).value & !(1u64 << (sq.value as u64)),
    {
        if value {
            self.set(sq);
        } else {
            self.clear(sq);
        }
    }

    pub fn and(self, rhs: Bitboard) -> (r: Bitboard)
        ensures
            r.value == self.value & rhs.value,
    {
        Bitboard { value: self.value & rhs.value }
    }

    pub fn or(self, rhs: Bitboard) -> (r: Bitboard)
        ensures
            r.value == self.value | rhs.value,
    {
        Bitboard { value: self.value | rhs.value }
    }

    pub fn xor(self, rhs: Bitboard) -> (r: Bitboard)
        ensures
            r.value == self.value ^ rhs.value,
    {
        Bitboard { value: self.value ^ rhs.value }
    }

    pub fn inverse(self) -> (r: Bitboard)
        ensures
            r.value == !self.value,
    {
        Bitboard { value: !self.value }
    }

    pub fn bitshift_left(self, rhs: u32) -> (r: Bitboard)
        requires
            rhs < 64,
        ensures
            r.value == self.value << rhs,
    {
        Bitboard { value: self.value << rhs }
    }

    pub fn bitshift_right(self, rhs: u32) -> (r: Bitboard)
        requires
            rhs < 64,
        ensures
            r.value == self.value >> rhs,
    {
        Bitboard { value: self.value >> rhs }
    }

    pub fn shift_up(self) -> (r: Bitboard)
        ensures
            r.value == (self.value << 8) & BB_ALL,
    {
        Bitboard { value: (self.value << 8) & BB_ALL }
    }

    pub fn shift_down(self) -> (r: Bitboard)
        ensures
            r.value == self.value >> 8,
    {
        Bitboard { value: self.value >> 8 }
    }

    pub fn shift_left(self) -> (r: Bitboard)
        ensures
            r.value == (self.value << 1) & BB_ALL,
    {
        Bitboard { value: (self.value << 1) & BB_ALL }
    }

    pub fn shift_right(self) -> (r: Bitboard)
        ensures
            r.value == (self.value >> 1) & BB_ALL,
    {
        Bitboard { value: (self.value >> 1) & BB_ALL }
    }

    pub fn shift_up_left(self) -> (r: Bitboard)
        ensures
            r.value == (self.value << 7) & BB_ALL,
    {
        Bitboard { value: (self.value << 7) & BB_ALL }
    }

    pub fn shift_up_right(self) -> (r: Bitboard)
        ensures
            r.value == (self.value << 9) & BB_ALL,
    {
        Bitboard { value: (self.value << 9) & BB_ALL }
    }

    pub fn shift_down_left(self) -> (r: Bitboard)
        ensures
            r.value == (self.value >> 9) & BB_ALL,
    {
        Bitboard { value: (self.value >> 9) & BB_ALL }
    }

    pub fn shift_down_right(self) -> (r: Bitboard)
        ensures
            r.value == (self.value >> 7) & BB_ALL,
    {
        Bitboard { value: (self.value >> 7) & BB_ALL }
    }

    /// The set plus all squares one king-step away from it.
    pub fn expand(self) -> (r: Bitboard)
        ensures
            r.value == spec_expand(self.value),
            r.on_board(),
    {
        let vertical = Bitboard { value: ((self.value << 8) | (self.value >> 8)) & BB_ALL };
        let board = self.or(vertical);
        let horizontal = Bitboard {
            value: ((board.value << 1) & BB_ALL) | ((board.value >> 1) & BB_ALL),
        };
        let r = Bitboard { value: (board.value | horizontal.value) & BB_ALL };
        proof {
            let rv = r.value;
            let bv = board.value;
            assert(rv & !BB_ALL == 0) by (bit_vector)
                requires
                    rv == (bv | ((((bv << 1) & BB_ALL) | ((bv >> 1) & BB_ALL)))) & BB_ALL,
            ;
        }
        r
    }

    /// The lowest set square, or the "no square" sentinel of an empty set.
    pub fn lowest_square(self) -> (r: Square)
        requires
            self.on_board(),
        ensures
            self.value == 0 ==> r.value == 64,
            self.value != 0 ==> r.is_valid() && self.spec_get(r) && (forall|j: int|
                0 <= j < r.value ==> !bb_bit(self.value, j)),
    {
        let tz = self.value.trailing_zeros();
        proof {
            vstd::std_specs::bits::axiom_u64_trailing_zeros(self.value);
            if self.value != 0 {
                let v = self.value;
                let t = tz as u64;
                assert((v & !BB_ALL == 0 && (v >> t) & 1 == 1 && t < 64) ==> (t % 8 < 7 && t / 8
                    < 7)) by (bit_vector);
                assert(forall|j: int| 0 <= j < tz ==> !bb_bit(v, j)) by {
                    assert(forall|j: u64| j < tz ==> #[trigger] (v >> j) & 1 == 0);
                }
            }
        }
        Square::from_raw(tz as u8)
    }

    /// Removes and returns the lowest set square.
    pub fn pop_lowest_square(&mut self) -> (r: Square)
        requires
            old(self).on_board(),
            old(self).value != 0,
        ensures
            r.is_valid(),
            old(self).spec_get(r),
            forall|j: int| 0 <= j < r.value ==> !bb_bit(old(self).value, j),
            final(self).value == old(self).value ^ (1u64 << (r.value as u64)),
            !final(self).spec_get(r),
            final(self).on_board(),
            final(self).value < old(self).value,
    {
        let square = self.lowest_square();
        proof {
            let v = self.value;
            let t = square.value as u64;
            assert((v & !BB_ALL == 0 && (v >> t) & 1 == 1 && t % 8 < 7 && t / 8 < 7) ==> ((v ^ (
            1u64 << t)) & !BB_ALL == 0 && ((v ^ (1u64 << t)) >> t) & 1 == 0 && (v ^ (1u64 << t))
                < v)) by (bit_vector);
        }
        self.value = self.value ^ (1u64 << (square.value as u64));
        square
    }
}

impl Bitboard {
    /// Packs the board into 49 consecutive bits, dropping the unused file of
    /// every 8-wide row.
    pub fn to_dense(self) -> (r: u64)
        ensures
            r == (self.value & 0x7f) | ((self.value & 0x7f00) >> 1) | ((self.value & 0x7f0000)
                >> 2) | ((self.value & 0x7f000000) >> 3) | ((self.value & 0x7f00000000) >> 4) | ((
            self.value & 0x7f0000000000) >> 5) | ((self.value & 0x7f000000000000) >> 6),
    {
        let bb = self.value;
        (bb & 0x7f) | ((bb & 0x7f00) >> 1) | ((bb & 0x7f0000) >> 2) | ((bb & 0x7f000000) >> 3) | ((
        bb & 0x7f00000000) >> 4) | ((bb & 0x7f0000000000) >> 5) | ((bb & 0x7f000000000000) >> 6)
    }
}

/// Walks a set's squares in ascending order, removing each as it goes.
pub struct Biterator {
    board: Bitboard,
}

impl Biterator {
    /// What is still to be yielded.
    pub closed spec fn spec_remaining(&self) -> Bitboard {
        self.board
    }

    pub fn new(board: Bitboard) -> (r: Biterator)
        requires
            board.on_board(),
        ensures
            r.spec_remaining() == board,
            r.spec_remaining().on_board(),
    {
        Biterator { board }
    }

    /// The lowest remaining square, or nothing once the set is exhausted.
    pub fn next(&mut self) -> (r: Option<Square>)
        requires
            old(self).spec_remaining().on_board(),
        ensures
            final(self).spec_remaining().on_board(),
            old(self).spec_remaining().value == 0 ==> r is None && final(self).spec_remaining()
                == old(self).spec_remaining(),
            old(self).spec_remaining().value != 0 ==> r is Some && {
                let sq = r->0;
                &&& sq.is_valid()
                &&& old(self).spec_remaining().spec_get(sq)
                &&& (forall|j: int| 0 <= j < sq.value ==> !bb_bit(old(self).spec_remaining().value, j))
                &&& final(self).spec_remaining().value == old(self).spec_remaining().value ^ (
                1u64 << (sq.value as u64))
            },
    {
        if self.board.is_empty() {
            None
        } else {
            Some(self.board.pop_lowest_square())
        }
    }
}

} // verus!
