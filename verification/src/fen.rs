//! Position text: a FEN-like encoding of the board, side to move, and move
//! counters, with a closed taxonomy of decode errors.
//!
//! Seven `/`-separated ranks from top to bottom, each a run of digits (empty
//! squares), `x`/`o` pieces and `-` blocked squares; then the side to move,
//! the no-placement half-move clock and the full-move number.

use vstd::prelude::*;
use crate::bitboard::{lemma_bit_of_or, BB_ALL};
use crate::position::Position;
use crate::bitboard::bb_bit;
use crate::text::{is_digit, parse_dec, spec_dec_value};
use vstd::string::StrSliceExecFns;

verus! {

/// Why a position string failed to decode.
#[derive(Debug, Copy, Clone, PartialEq, Eq, Structural)]
pub enum FenError {
    NotEnoughParts,
    NotEnoughRanks,
    TooManyRanks,
    NotEnoughFiles(u32),
    TooManyFiles(u32),
    InvalidChar(char),
    InvalidStm,
    InvalidHalfmove,
    InvalidFullmove,
}

/// Everything a position string denotes.
#[derive(Debug, Copy, Clone, PartialEq, Eq, Structural)]
pub struct FenFields {
    pub red: u64,
    pub blue: u64,
    pub gaps: u64,
    pub blue_to_move: bool,
    pub halfmove: u16,
    pub fullmove: u32,
}

/// Splitting on `/`: tokens may be empty, and there is always at least one.
pub open spec fn spec_split_slash(s: Seq<char>) -> Seq<Seq<char>>
    decreases s.len(),
{
    if s.len() == 0 {
        seq![Seq::<char>::empty()]
    } else if s[0] == '/' {
        seq![Seq::<char>::empty()] + spec_split_slash(s.drop_first())
    } else {
        let rest = spec_split_slash(s.drop_first());
        seq![seq![s[0]] + rest[0]] + rest.drop_first()
    }
}

pub proof fn lemma_split_slash_len(s: Seq<char>)
    ensures
        spec_split_slash(s).len() >= 1,
    decreases s.len(),
{
    if s.len() > 0 {
        lemma_split_slash_len(s.drop_first());
    }
}

/// True of the whitespace that separates fields.
pub open spec fn is_ws(c: char) -> bool {
    c == ' ' || c == '\t' || c == '\n' || c == '\r'
}

/// Splitting on whitespace runs: tokens are the maximal non-blank runs.
pub open spec fn spec_split_ws(s: Seq<char>) -> Seq<Seq<char>>
    decreases s.len(),
{
    if s.len() == 0 {
        Seq::empty()
    } else if is_ws(s[0]) {
        spec_split_ws(s.drop_first())
    } else if s.len() > 1 && !is_ws(s[1]) {
        let rest = spec_split_ws(s.drop_first());
        seq![seq![s[0]] + rest[0]] + rest.drop_first()
    } else {
        seq![seq![s[0]]] + spec_split_ws(s.drop_first())
    }
}

pub proof fn lemma_split_ws_head_len(s: Seq<char>)
    requires
        s.len() > 0,
        !is_ws(s[0]),
    ensures
        spec_split_ws(s).len() >= 1,
{
}

/// The bit index of the square shown at `file` of the `rank_idx`-th rank
/// from the top.
pub open spec fn spec_fen_bit(rank_idx: int, file: int) -> int {
    (6 - rank_idx) * 8 + file
}

/// One rank of board text folded into the three square sets. `file` is where
/// this rank's reading stands; a digit skips that many files.
pub open spec fn spec_parse_rank(
    chars: Seq<char>,
    rank_idx: u32,
    file: int,
    red: u64,
    blue: u64,
    gaps: u64,
) -> Result<(u64, u64, u64), FenError>
    decreases chars.len(),
{
    if chars.len() == 0 {
        if file > 7 {
            Err(FenError::TooManyFiles(rank_idx))
        } else if file < 7 {
            Err(FenError::NotEnoughFiles(rank_idx))
        } else {
            Ok((red, blue, gaps))
        }
    } else if file >= 8 {
        Err(FenError::TooManyFiles(rank_idx))
    } else if is_digit(chars[0]) {
        spec_parse_rank(
            chars.drop_first(),
            rank_idx,
            file + (chars[0] as int - 48),
            red,
            blue,
            gaps,
        )
    } else if chars[0] == 'x' || chars[0] == 'X' || chars[0] == 'o' || chars[0] == 'O' || chars[0]
        == '-' {
        if file >= 7 {
            Err(FenError::TooManyFiles(rank_idx))
        } else {
            let bit = 1u64 << (spec_fen_bit(rank_idx as int, file) as u64);
            if chars[0] == 'x' || chars[0] == 'X' {
                spec_parse_rank(chars.drop_first(), rank_idx, file + 1, red | bit, blue, gaps)
            } else if chars[0] == 'o' || chars[0] == 'O' {
                spec_parse_rank(chars.drop_first(), rank_idx, file + 1, red, blue | bit, gaps)
            } else {
                spec_parse_rank(chars.drop_first(), rank_idx, file + 1, red, blue, gaps | bit)
            }
        }
    } else {
        Err(FenError::InvalidChar(chars[0]))
    }
}

/// All seven ranks folded in, top rank first.
pub open spec fn spec_parse_ranks(
    ranks: Seq<Seq<char>>,
    rank_idx: u32,
    red: u64,
    blue: u64,
    gaps: u64,
) -> Result<(u64, u64, u64), FenError>
    decreases ranks.len(),
{
    if ranks.len() == 0 {
        Ok((red, blue, gaps))
    } else {
        match spec_parse_rank(ranks[0], rank_idx, 0, red, blue, gaps) {
            Ok(out) => spec_parse_ranks(
                ranks.drop_first(),
                (rank_idx + 1) as u32,
                out.0,
                out.1,
                out.2,
            ),
            Err(e) => Err(e),
        }
    }
}

/// What a sequence of position fields denotes. Only the first four fields
/// are read; anything after them is ignored.
pub open spec fn spec_parse_fen_parts(parts: Seq<Seq<char>>) -> Result<FenFields, FenError> {
    if parts.len() < 4 {
        Err(FenError::NotEnoughParts)
    } else {
        let ranks = spec_split_slash(parts[0]);
        if ranks.len() < 7 {
            Err(FenError::NotEnoughRanks)
        } else if ranks.len() > 7 {
            Err(FenError::TooManyRanks)
        } else {
            match spec_parse_ranks(ranks, 0, 0, 0, 0) {
                Err(e) => Err(e),
                Ok(out) => {
                    if parts[1].len() != 1 || !(parts[1][0] == 'x' || parts[1][0] == 'X'
                        || parts[1][0] == 'o' || parts[1][0] == 'O') {
                        Err(FenError::InvalidStm)
                    } else if !(parts[2].len() > 0 && (forall|j: int|
                        0 <= j < parts[2].len() ==> is_digit(parts[2][j])) && spec_dec_value(
                        parts[2],
                    ) <= 0xFFFF) {
                        Err(FenError::InvalidHalfmove)
                    } else if !(parts[3].len() > 0 && (forall|j: int|
                        0 <= j < parts[3].len() ==> is_digit(parts[3][j])) && spec_dec_value(
                        parts[3],
                    ) <= 0xFFFF_FFFF) {
                        Err(FenError::InvalidFullmove)
                    } else {
                        Ok(
                            (FenFields {
                                red: out.0,
                                blue: out.1,
                                gaps: out.2,
                                blue_to_move: parts[1][0] == 'o' || parts[1][0] == 'O',
                                halfmove: spec_dec_value(parts[2]) as u16,
                                fullmove: spec_dec_value(parts[3]) as u32,
                            }),
                        )
                    }
                },
            }
        }
    }
}

/// The unread remainder of the `rank_idx`-th displayed rank: files at or
/// past `file` of its board row.
pub open spec fn spec_rank_region_mask(rank_idx: int, file: int) -> u64 {
    ((0x7Fu64 >> (file as u64)) << (file as u64)) << (((6 - rank_idx) * 8) as u64)
}

/// The board rows still to be filled once `rank_idx` ranks are done.
pub open spec fn spec_rows_mask(rank_idx: int) -> u64 {
    BB_ALL >> ((rank_idx * 8) as u64)
}

/// The three sets are pairwise disjoint and on the board.
pub open spec fn spec_sets_wf(red: u64, blue: u64, gaps: u64) -> bool {
    &&& red & blue == 0
    &&& red & gaps == 0
    &&& blue & gaps == 0
    &&& red & !BB_ALL == 0
    &&& blue & !BB_ALL == 0
    &&& gaps & !BB_ALL == 0
}

/// Placing one new piece keeps the three sets pairwise disjoint and on the
/// board.
proof fn lemma_place_keeps_wf(a: u64, b: u64, c: u64, p: u64)
    by (bit_vector)
    requires
        p < 64,
        p % 8 < 7,
        p / 8 < 7,
        a & b == 0 || b & a == 0,
        a & c == 0 || c & a == 0,
        b & c == 0 || c & b == 0,
        a & !BB_ALL == 0,
        b & !BB_ALL == 0,
        c & !BB_ALL == 0,
        (b >> p) & 1 == 0,
        (c >> p) & 1 == 0,
    ensures
        (a | (1u64 << p)) & b == 0,
        (a | (1u64 << p)) & c == 0,
        b & (a | (1u64 << p)) == 0,
        c & (a | (1u64 << p)) == 0,
        (a | (1u64 << p)) & !BB_ALL == 0,
{
}

/// Everything a rank region holds: its bit at the reading position, how it
/// narrows, and how it sits inside the rows still to fill.
proof fn lemma_region_facts(rank: u64, file: u64)
    by (bit_vector)
    requires
        rank < 7,
        file <= 7,
    ensures
        ({
            let m1 = ((0x7Fu64 >> file) << file) << (((6 - rank) * 8) as u64);
            let m2 = ((0x7Fu64 >> ((file + 1) as u64)) << ((file + 1) as u64)) << (((6 - rank)
                * 8) as u64);
            let p = ((6 - rank) * 8 + file) as u64;
            &&& (file < 7 ==> (m1 >> p) & 1 == 1)
            &&& (file < 7 ==> p % 8 < 7 && p / 8 < 7)
            &&& (file == 7 ==> m1 == 0)
            &&& m1 & !BB_ALL == 0
            &&& m2 & !m1 == 0
            &&& (file < 7 ==> (1u64 << p) & m2 == 0)
            &&& (file < 7 ==> (1u64 << p) & !m1 == 0)
            &&& m1 & !(BB_ALL >> ((rank * 8) as u64)) == 0
            &&& (BB_ALL >> (((rank + 1) * 8) as u64)) & !(BB_ALL >> ((rank * 8) as u64)) == 0
            &&& m1 & (BB_ALL >> (((rank + 1) * 8) as u64)) == 0
        }),
{
}

/// A rank region only narrows as the file advances.
proof fn lemma_region_mono(rank: u64, f1: u64, f2: u64)
    by (bit_vector)
    requires
        rank < 7,
        f1 <= f2,
        f2 < 64,
    ensures
        (((0x7Fu64 >> f2) << f2) << (((6 - rank) * 8) as u64)) & !(((0x7Fu64 >> f1) << f1) << (((6
            - rank) * 8) as u64)) == 0,
{
}

/// A set clear on a mask is clear on any submask.
proof fn lemma_submask_clear(r: u64, m1: u64, m2: u64)
    by (bit_vector)
    requires
        m2 & !m1 == 0,
        r & m1 == 0,
    ensures
        r & m2 == 0,
{
}

/// Subset bookkeeping: growing the base by a piece inside the region, or
/// shrinking the region, preserves being covered by base and region.
proof fn lemma_subset_compose(out: u64, base: u64, piece: u64, m1: u64, m2: u64)
    by (bit_vector)
    requires
        out & !((base | piece) | m2) == 0,
        piece & !m1 == 0,
        m2 & !m1 == 0,
    ensures
        out & !(base | m1) == 0,
{
}

/// A bit inside a mask a set is clear on is clear in the set.
proof fn lemma_clear_bit_from_mask(b: u64, m: u64, p: u64)
    by (bit_vector)
    requires
        b & m == 0,
        (m >> p) & 1 == 1,
        p < 64,
    ensures
        (b >> p) & 1 == 0,
{
}

/// A union of sets clear on a mask is clear on it.
proof fn lemma_union_clear(a: u64, b: u64, m: u64)
    by (bit_vector)
    requires
        a & m == 0,
        b & m == 0,
    ensures
        (a | b) & m == 0,
{
}

/// What is covered by a base and a region both clear on a mask is clear on
/// it.
proof fn lemma_covered_clear(out: u64, base: u64, m: u64, k: u64)
    by (bit_vector)
    requires
        out & !(base | m) == 0,
        base & k == 0,
        m & k == 0,
    ensures
        out & k == 0,
{
}

/// The whole word is covered by itself.
proof fn lemma_self_covered(out: u64, base: u64, m: u64)
    by (bit_vector)
    requires
        out == base,
    ensures
        out & !(base | m) == 0,
{
}

/// Rank parsing only adds pieces inside the rank's unread region, and keeps
/// the sets well formed when that region was clear in all three.
proof fn lemma_parse_rank_frame(
    chars: Seq<char>,
    rank_idx: u32,
    file: int,
    red: u64,
    blue: u64,
    gaps: u64,
)
    requires
        rank_idx < 7,
        0 <= file <= 7,
    ensures
        spec_parse_rank(chars, rank_idx, file, red, blue, gaps) matches Ok(out) ==> ({
            let m1 = spec_rank_region_mask(rank_idx as int, file);
            &&& out.0 & !(red | m1) == 0
            &&& out.1 & !(blue | m1) == 0
            &&& out.2 & !(gaps | m1) == 0
            &&& ((spec_sets_wf(red, blue, gaps) && red & m1 == 0 && blue & m1 == 0 && gaps & m1
                == 0) ==> spec_sets_wf(out.0, out.1, out.2))
        }),
    decreases chars.len(),
{
    let m1 = spec_rank_region_mask(rank_idx as int, file);
    let res = spec_parse_rank(chars, rank_idx, file, red, blue, gaps);
    if chars.len() == 0 {
        if res is Ok {
            let out = res->Ok_0;
            lemma_self_covered(out.0, red, m1);
            lemma_self_covered(out.1, blue, m1);
            lemma_self_covered(out.2, gaps, m1);
        }
    } else if is_digit(chars[0]) {
        let d = chars[0] as int - 48;
        if file + d <= 7 {
            lemma_parse_rank_frame(chars.drop_first(), rank_idx, file + d, red, blue, gaps);
            if res is Ok {
                let out = res->Ok_0;
                let m2 = spec_rank_region_mask(rank_idx as int, file + d);
                lemma_region_mono(rank_idx as u64, file as u64, (file + d) as u64);
                crate::bitboard::lemma_zero_word(!m1, 0);
                crate::bitboard::lemma_zero_word(red, 0);
                crate::bitboard::lemma_zero_word(blue, 0);
                crate::bitboard::lemma_zero_word(gaps, 0);
                lemma_subset_compose(out.0, red, 0, m1, m2);
                lemma_subset_compose(out.1, blue, 0, m1, m2);
                lemma_subset_compose(out.2, gaps, 0, m1, m2);
                if spec_sets_wf(red, blue, gaps) && red & m1 == 0 && blue & m1 == 0 && gaps & m1
                    == 0 {
                    lemma_submask_clear(red, m1, m2);
                    lemma_submask_clear(blue, m1, m2);
                    lemma_submask_clear(gaps, m1, m2);
                }
            }
        } else {
            // The recursion lands past the rank, so only errors come back.
            lemma_parse_rank_past_end(chars.drop_first(), rank_idx, file + d, red, blue, gaps);
        }
    } else if (chars[0] == 'x' || chars[0] == 'X' || chars[0] == 'o' || chars[0] == 'O' || chars[0]
        == '-') && file < 7 {
        lemma_region_facts(rank_idx as u64, file as u64);
        let p = spec_fen_bit(rank_idx as int, file) as u64;
        let bit = 1u64 << p;
        let m2 = spec_rank_region_mask(rank_idx as int, file + 1);
        let (r2, b2, g2) = if chars[0] == 'x' || chars[0] == 'X' {
            (red | bit, blue, gaps)
        } else if chars[0] == 'o' || chars[0] == 'O' {
            (red, blue | bit, gaps)
        } else {
            (red, blue, gaps | bit)
        };
        lemma_parse_rank_frame(chars.drop_first(), rank_idx, file + 1, r2, b2, g2);
        if res is Ok {
            let out = res->Ok_0;
            crate::bitboard::lemma_zero_word(!m1, 0);
            crate::bitboard::lemma_zero_word(red, 0);
            crate::bitboard::lemma_zero_word(blue, 0);
            crate::bitboard::lemma_zero_word(gaps, 0);
            lemma_subset_compose(
                out.0,
                red,
                if chars[0] == 'x' || chars[0] == 'X' {
                    bit
                } else {
                    0
                },
                m1,
                m2,
            );
            lemma_subset_compose(
                out.1,
                blue,
                if chars[0] == 'o' || chars[0] == 'O' {
                    bit
                } else {
                    0
                },
                m1,
                m2,
            );
            lemma_subset_compose(
                out.2,
                gaps,
                if chars[0] == '-' {
                    bit
                } else {
                    0
                },
                m1,
                m2,
            );
            if spec_sets_wf(red, blue, gaps) && red & m1 == 0 && blue & m1 == 0 && gaps & m1
                == 0 {
                lemma_clear_bit_from_mask(red, m1, p);
                lemma_clear_bit_from_mask(blue, m1, p);
                lemma_clear_bit_from_mask(gaps, m1, p);
                lemma_submask_clear(red, m1, m2);
                lemma_submask_clear(blue, m1, m2);
                lemma_submask_clear(gaps, m1, m2);
                if chars[0] == 'x' || chars[0] == 'X' {
                    lemma_place_keeps_wf(red, blue, gaps, p);
                    lemma_union_clear(red, bit, m2);
                } else if chars[0] == 'o' || chars[0] == 'O' {
                    lemma_place_keeps_wf(blue, red, gaps, p);
                    lemma_union_clear(blue, bit, m2);
                } else {
                    lemma_place_keeps_wf(gaps, red, blue, p);
                    lemma_union_clear(gaps, bit, m2);
                }
            }
        }
    }
}

/// Reading past the last file only ever fails.
proof fn lemma_parse_rank_past_end(
    chars: Seq<char>,
    rank_idx: u32,
    file: int,
    red: u64,
    blue: u64,
    gaps: u64,
)
    requires
        file > 7,
    ensures
        spec_parse_rank(chars, rank_idx, file, red, blue, gaps) is Err,
{
}

/// Folding the ranks in yields well-formed sets when every remaining row was
/// clear.
proof fn lemma_parse_ranks_wf(
    ranks: Seq<Seq<char>>,
    rank_idx: u32,
    red: u64,
    blue: u64,
    gaps: u64,
)
    requires
        rank_idx <= 7,
        ranks.len() == 7 - rank_idx,
        spec_sets_wf(red, blue, gaps),
        red & spec_rows_mask(rank_idx as int) == 0,
        blue & spec_rows_mask(rank_idx as int) == 0,
        gaps & spec_rows_mask(rank_idx as int) == 0,
    ensures
        spec_parse_ranks(ranks, rank_idx, red, blue, gaps) matches Ok(out) ==> spec_sets_wf(
            out.0,
            out.1,
            out.2,
        ),
    decreases ranks.len(),
{
    if ranks.len() > 0 {
        lemma_region_facts(rank_idx as u64, 0);
        let m1 = spec_rank_region_mask(rank_idx as int, 0);
        let rows = spec_rows_mask(rank_idx as int);
        let rows_next = spec_rows_mask(rank_idx as int + 1);
        lemma_submask_clear(red, rows, m1);
        lemma_submask_clear(blue, rows, m1);
        lemma_submask_clear(gaps, rows, m1);
        lemma_parse_rank_frame(ranks[0], rank_idx, 0, red, blue, gaps);
        let res = spec_parse_rank(ranks[0], rank_idx, 0, red, blue, gaps);
        if res is Ok {
            let out = res->Ok_0;
            lemma_submask_clear(red, rows, rows_next);
            lemma_submask_clear(blue, rows, rows_next);
            lemma_submask_clear(gaps, rows, rows_next);
            lemma_covered_clear(out.0, red, m1, rows_next);
            lemma_covered_clear(out.1, blue, m1, rows_next);
            lemma_covered_clear(out.2, gaps, m1, rows_next);
            lemma_parse_ranks_wf(
                ranks.drop_first(),
                (rank_idx + 1) as u32,
                out.0,
                out.1,
                out.2,
            );
        }
    }
}

/// A decoded board is well formed: the piece and blocked sets are pairwise
/// disjoint and on the board.
pub proof fn lemma_parse_fen_parts_wf(parts: Seq<Seq<char>>)
    ensures
        spec_parse_fen_parts(parts) matches Ok(f) ==> spec_sets_wf(f.red, f.blue, f.gaps),
{
    if parts.len() >= 4 {
        let ranks = spec_split_slash(parts[0]);
        if ranks.len() == 7 {
            crate::bitboard::lemma_zero_word(spec_rows_mask(0), 0);
            crate::bitboard::lemma_zero_word(0, 0);
            lemma_parse_ranks_wf(ranks, 0, 0, 0, 0);
        }
    }
}

/// The characters of a string, as a vector.
pub fn str_chars(s: &str) -> (r: Vec<char>)
    ensures
        r@ == s@,
{
    let n = s.unicode_len();
    let mut r: Vec<char> = Vec::new();
    let mut i: usize = 0;
    while i < n
        invariant
            0 <= i <= n == s@.len(),
            r@ == s@.take(i as int),
        decreases n - i,
    {
        r.push(s.get_char(i));
        proof {
            assert(r@ =~= s@.take(i + 1));
        }
        i = i + 1;
    }
    proof {
        assert(s@.take(n as int) =~= s@);
    }
    r
}

/// Splits on `/`, keeping empty tokens.
fn split_slash_chars(s: &Vec<char>) -> (r: Vec<Vec<char>>)
    ensures
        r@.map_values(|t: Vec<char>| t@) == spec_split_slash(s@),
{
    let mut r: Vec<Vec<char>> = Vec::new();
    r.push(Vec::new());
    let mut i = s.len();
    proof {
        assert(s@.skip(i as int) =~= Seq::<char>::empty());
        assert(r@.map_values(|t: Vec<char>| t@) =~~= spec_split_slash(s@.skip(i as int)));
    }
    while i > 0
        invariant
            0 <= i <= s.len(),
            r@.len() >= 1,
            r@.map_values(|t: Vec<char>| t@) == spec_split_slash(s@.skip(i as int)),
        decreases i,
    {
        let c = s[i - 1];
        proof {
            assert(s@.skip(i - 1)[0] == s@[i - 1]);
            assert(s@.skip(i - 1).drop_first() =~= s@.skip(i as int));
            lemma_split_slash_len(s@.skip(i as int));
        }
        if c == '/' {
            r.insert(0, Vec::new());
            proof {
                assert(r@.map_values(|t: Vec<char>| t@) =~~= spec_split_slash(s@.skip(i - 1)));
            }
        } else {
            let first = &mut r[0];
            first.insert(0, c);
            proof {
                let rest = spec_split_slash(s@.skip(i as int));
                assert(r@.map_values(|t: Vec<char>| t@) =~~= seq![seq![s@[i - 1]] + rest[0]]
                    + rest.drop_first());
            }
        }
        i = i - 1;
    }
    proof {
        assert(s@.skip(0) =~= s@);
    }
    r
}

/// Splits on whitespace runs, dropping the blanks.
fn split_ws_chars(s: &Vec<char>) -> (r: Vec<Vec<char>>)
    ensures
        r@.map_values(|t: Vec<char>| t@) == spec_split_ws(s@),
{
    let mut r: Vec<Vec<char>> = Vec::new();
    let mut i = s.len();
    proof {
        assert(s@.skip(i as int) =~= Seq::<char>::empty());
        assert(r@.map_values(|t: Vec<char>| t@) =~~= spec_split_ws(s@.skip(i as int)));
    }
    while i > 0
        invariant
            0 <= i <= s.len(),
            r@.map_values(|t: Vec<char>| t@) == spec_split_ws(s@.skip(i as int)),
        decreases i,
    {
        let c = s[i - 1];
        proof {
            assert(s@.skip(i - 1)[0] == s@[i - 1]);
            assert(s@.skip(i - 1).drop_first() =~= s@.skip(i as int));
            if i < s.len() {
                assert(s@.skip(i - 1)[1] == s@[i as int]);
            }
        }
        if c == ' ' || c == '\t' || c == '\n' || c == '\r' {
            // A blank: tokens are unchanged.
            proof {
                assert(r@.map_values(|t: Vec<char>| t@) =~~= spec_split_ws(s@.skip(i - 1)));
            }
        } else if i < s.len() && !{
            let d = s[i];
            d == ' ' || d == '\t' || d == '\n' || d == '\r'
        } {
            proof {
                lemma_split_ws_head_len(s@.skip(i as int));
            }
            let first = &mut r[0];
            first.insert(0, c);
            proof {
                let rest = spec_split_ws(s@.skip(i as int));
                assert(r@.map_values(|t: Vec<char>| t@) =~~= seq![seq![s@[i - 1]] + rest[0]]
                    + rest.drop_first());
            }
        } else {
            let mut tok: Vec<char> = Vec::new();
            tok.push(c);
            r.insert(0, tok);
            proof {
                assert(r@.map_values(|t: Vec<char>| t@) =~~= seq![seq![s@[i - 1]]] + spec_split_ws(
                    s@.skip(i as int),
                ));
            }
        }
        i = i - 1;
    }
    proof {
        assert(s@.skip(0) =~= s@);
    }
    r
}

/// Decodes position fields into board sets, side to move and counters.
#[verifier::loop_isolation(false)]
pub fn parse_fen_tokens(parts: &Vec<Vec<char>>) -> (r: Result<FenFields, FenError>)
    ensures
        r == spec_parse_fen_parts(parts@.map_values(|t: Vec<char>| t@)),
        r matches Ok(f) ==> spec_sets_wf(f.red, f.blue, f.gaps),
{
    proof {
        lemma_parse_fen_parts_wf(parts@.map_values(|t: Vec<char>| t@));
    }
    let ghost gparts = parts@.map_values(|t: Vec<char>| t@);
    if parts.len() < 4 {
        return Err(FenError::NotEnoughParts);
    }
    let ranks = split_slash_chars(&parts[0]);
    proof {
        assert(gparts[0] == parts@[0]@);
    }
    if ranks.len() < 7 {
        return Err(FenError::NotEnoughRanks);
    }
    if ranks.len() > 7 {
        return Err(FenError::TooManyRanks);
    }
    let ghost granks = spec_split_slash(gparts[0]);

    let mut red: u64 = 0;
    let mut blue: u64 = 0;
    let mut gaps: u64 = 0;
    let mut rank_idx: u32 = 0;
    proof {
        assert(granks.skip(0) =~= granks);
    }
    while rank_idx < 7
        invariant
            0 <= rank_idx <= 7,
            ranks@.len() == 7,
            granks == ranks@.map_values(|t: Vec<char>| t@),
            spec_parse_ranks(granks, 0, 0, 0, 0) == spec_parse_ranks(
                granks.skip(rank_idx as int),
                rank_idx,
                red,
                blue,
                gaps,
            ),
        decreases 7 - rank_idx,
    {
        let token = &ranks[rank_idx as usize];
        let ghost gtok = granks[rank_idx as int];
        proof {
            assert(granks.skip(rank_idx as int)[0] == gtok);
            assert(granks.skip(rank_idx as int).drop_first() =~= granks.skip(rank_idx + 1));
        }
        // One rank: fold its characters into the sets.
        let ghost r0 = red;
        let ghost b0 = blue;
        let ghost g0 = gaps;
        let n = token.len();
        let mut file: u32 = 0;
        let mut k: usize = 0;
        proof {
            assert(gtok.skip(0) =~= gtok);
        }
        while k < n
            invariant
                0 <= k <= n == gtok.len(),
                gtok == token@,
                rank_idx < 7,
                file <= 16,
                spec_parse_rank(gtok, rank_idx, 0, r0, b0, g0) == spec_parse_rank(
                    gtok.skip(k as int),
                    rank_idx,
                    file as int,
                    red,
                    blue,
                    gaps,
                ),
            decreases n - k,
        {
            let c = token[k];
            proof {
                assert(gtok.skip(k as int)[0] == gtok[k as int]);
                assert(gtok.skip(k as int).drop_first() =~= gtok.skip(k + 1));
            }
            if file >= 8 {
                proof {
                    let e = FenError::TooManyFiles(rank_idx);
                    assert(spec_parse_rank(gtok, rank_idx, 0, r0, b0, g0) == Result::<
                        (u64, u64, u64),
                        FenError,
                    >::Err(e));
                    assert(spec_parse_ranks(granks, 0, 0, 0, 0) == Result::<
                        (u64, u64, u64),
                        FenError,
                    >::Err(e));
                    assert(granks.len() == 7);
                }
                return Err(FenError::TooManyFiles(rank_idx));
            }
            if '0' <= c && c <= '9' {
                file = file + (c as u32 - 48);
            } else if c == 'x' || c == 'X' || c == 'o' || c == 'O' || c == '-' {
                if file >= 7 {
                    proof {
                        let e = FenError::TooManyFiles(rank_idx);
                        assert(spec_parse_rank(gtok, rank_idx, 0, r0, b0, g0) == Result::<
                            (u64, u64, u64),
                            FenError,
                        >::Err(e));
                        assert(spec_parse_ranks(granks, 0, 0, 0, 0) == Result::<
                            (u64, u64, u64),
                            FenError,
                        >::Err(e));
                        assert(granks.len() == 7);
                    }
                    return Err(FenError::TooManyFiles(rank_idx));
                }
                let bit: u64 = 1u64 << (((6 - rank_idx) * 8 + file) as u64);
                if c == 'x' || c == 'X' {
                    red = red | bit;
                } else if c == 'o' || c == 'O' {
                    blue = blue | bit;
                } else {
                    gaps = gaps | bit;
                }
                file = file + 1;
            } else {
                proof {
                    let e = FenError::InvalidChar(gtok[k as int]);
                    assert(spec_parse_rank(gtok, rank_idx, 0, r0, b0, g0) == Result::<
                        (u64, u64, u64),
                        FenError,
                    >::Err(e));
                    assert(spec_parse_ranks(granks, 0, 0, 0, 0) == Result::<
                        (u64, u64, u64),
                        FenError,
                    >::Err(e));
                    assert(granks.len() == 7);
                }
                return Err(FenError::InvalidChar(c));
            }
            k = k + 1;
        }
        proof {
            assert(gtok.skip(n as int) =~= Seq::<char>::empty());
        }
        if file > 7 {
            proof {
                let e = FenError::TooManyFiles(rank_idx);
                assert(spec_parse_rank(gtok, rank_idx, 0, r0, b0, g0) == Result::<
                    (u64, u64, u64),
                    FenError,
                >::Err(e));
                assert(spec_parse_ranks(granks, 0, 0, 0, 0) == Result::<
                    (u64, u64, u64),
                    FenError,
                >::Err(e));
                assert(granks.len() == 7);
            }
            return Err(FenError::TooManyFiles(rank_idx));
        }
        if file < 7 {
            proof {
                let e = FenError::NotEnoughFiles(rank_idx);
                assert(spec_parse_rank(gtok, rank_idx, 0, r0, b0, g0) == Result::<
                    (u64, u64, u64),
                    FenError,
                >::Err(e));
                assert(spec_parse_ranks(granks, 0, 0, 0, 0) == Result::<
                    (u64, u64, u64),
                    FenError,
                >::Err(e));
                assert(granks.len() == 7);
            }
            return Err(FenError::NotEnoughFiles(rank_idx));
        }
        proof {
            assert(spec_parse_rank(gtok, rank_idx, 0, r0, b0, g0) == Result::<
                (u64, u64, u64),
                FenError,
            >::Ok((red, blue, gaps)));
        }
        rank_idx = rank_idx + 1;
    }
    proof {
        assert(granks.skip(7) =~= Seq::<Seq<char>>::empty());
        assert(spec_parse_ranks(granks, 0, 0, 0, 0) == Result::<(u64, u64, u64), FenError>::Ok(
            (red, blue, gaps),
        ));
        assert(granks.len() == 7);
    }

    let stm_tok = &parts[1];
    proof {
        assert(gparts[1] == parts@[1]@);
        assert(gparts[2] == parts@[2]@);
        assert(gparts[3] == parts@[3]@);
    }
    if stm_tok.len() != 1 {
        return Err(FenError::InvalidStm);
    }
    let stm_c = stm_tok[0];
    if !(stm_c == 'x' || stm_c == 'X' || stm_c == 'o' || stm_c == 'O') {
        return Err(FenError::InvalidStm);
    }
    let tok2 = &parts[2];
    proof {
        assert(tok2@ == parts@[2]@);
    }
    let hv_opt = parse_dec(tok2, 0xFFFF);
    let halfmove = match hv_opt {
        Some(v) => {
            proof {
                assert(hv_opt is Some);
                assert(tok2@ == parts@[2]@);
                assert(spec_dec_value(tok2@) <= 0xFFFF);
                assert(spec_dec_value(tok2@) >= 0);
                assert(0 <= spec_dec_value(gparts[2]) <= 0xFFFF);
            }
            v as u16
        },
        _ => {
            return Err(FenError::InvalidHalfmove);
        },
    };
    let tok3 = &parts[3];
    proof {
        assert(tok3@ == parts@[3]@);
    }
    let fv_opt = parse_dec(tok3, 0xFFFF_FFFF);
    let fullmove = match fv_opt {
        Some(v) => {
            proof {
                assert(0 <= spec_dec_value(parts@[3]@) <= 0xFFFF_FFFF);
                assert(0 <= spec_dec_value(gparts[3]) <= 0xFFFF_FFFF);
            }
            v as u32
        },
        _ => {
            return Err(FenError::InvalidFullmove);
        },
    };
    let r = Ok(
        FenFields {
            red,
            blue,
            gaps,
            blue_to_move: stm_c == 'o' || stm_c == 'O',
            halfmove,
            fullmove,
        },
    );
    proof {
        assert(halfmove == spec_dec_value(gparts[2]) as u16);
        assert(fullmove == spec_dec_value(gparts[3]) as u32);
        assert(r == spec_parse_fen_parts(gparts));
    }
    r
}

impl Position {
    /// Resets from already-split position fields. On an error the position is
    /// untouched.
    pub fn reset_from_fen_parts(&mut self, parts: &Vec<String>) -> (r: Result<(), FenError>)
        requires
            old(self).wf(),
        ensures
            final(self).wf(),
            ({
                let parsed = spec_parse_fen_parts(parts@.map_values(|s: String| s@));
                match parsed {
                    Ok(f) => r is Ok && final(self).keys_ok() && final(self).spec_states().len()
                        == 1 && final(self).spec_hashes().len() == 0 && final(self).spec_red()
                        == f.red && final(self).spec_blue() == f.blue && final(self).spec_gaps()
                        == f.gaps && final(self).spec_blue_to_move() == f.blue_to_move && final(self).spec_halfmove() == f.halfmove && final(self).spec_fullmove() == f.fullmove,
                    Err(e) => r == Result::<(), FenError>::Err(e) && final(self).spec_states()
                        == old(self).spec_states() && final(self).spec_hashes() == old(self).spec_hashes() && final(self).spec_blue_to_move() == old(self).spec_blue_to_move() && final(self).spec_fullmove() == old(self).spec_fullmove() && final(self).spec_gaps() == old(self).spec_gaps(),
                }
            }),
    {
        let n = parts.len();
        let mut tokens: Vec<Vec<char>> = Vec::new();
        let mut i: usize = 0;
        while i < n
            invariant
                0 <= i <= n == parts@.len(),
                tokens@.map_values(|t: Vec<char>| t@) == parts@.map_values(|s: String| s@).take(
                    i as int,
                ),
            decreases n - i,
        {
            let tk = str_chars(parts[i].as_str());
            let ghost toks0 = tokens@;
            proof {
                assert(tk@ == parts@[i as int]@);
            }
            tokens.push(tk);
            proof {
                assert(tokens@ == toks0.push(tk));
                toks0.lemma_push_map_commute(|t: Vec<char>| t@, tk);
                let gp = parts@.map_values(|s: String| s@);
                gp.lemma_take_succ_push(i as int);
                assert(gp[i as int] == tk@);
                assert(tokens@.map_values(|t: Vec<char>| t@) =~= gp.take(i + 1));
            }
            i = i + 1;
        }
        proof {
            assert(parts@.map_values(|s: String| s@).take(n as int) =~= parts@.map_values(
                |s: String| s@,
            ));
        }
        self.reset_from_tokens(&tokens)
    }

    /// Resets from whitespace-separated position text. On an error the
    /// position is untouched.
    pub fn reset_from_fen(&mut self, fen: &str) -> (r: Result<(), FenError>)
        requires
            old(self).wf(),
        ensures
            final(self).wf(),
            ({
                let parsed = spec_parse_fen_parts(spec_split_ws(fen@));
                match parsed {
                    Ok(f) => r is Ok && final(self).keys_ok() && final(self).spec_states().len()
                        == 1 && final(self).spec_hashes().len() == 0 && final(self).spec_red()
                        == f.red && final(self).spec_blue() == f.blue && final(self).spec_gaps()
                        == f.gaps && final(self).spec_blue_to_move() == f.blue_to_move && final(self).spec_halfmove() == f.halfmove && final(self).spec_fullmove() == f.fullmove,
                    Err(e) => r == Result::<(), FenError>::Err(e) && final(self).spec_states()
                        == old(self).spec_states() && final(self).spec_hashes() == old(self).spec_hashes() && final(self).spec_blue_to_move() == old(self).spec_blue_to_move() && final(self).spec_fullmove() == old(self).spec_fullmove() && final(self).spec_gaps() == old(self).spec_gaps(),
                }
            }),
    {
        let chars = str_chars(fen);
        let tokens = split_ws_chars(&chars);
        self.reset_from_tokens(&tokens)
    }

    /// The shared tail of the two resets.
    fn reset_from_tokens(&mut self, tokens: &Vec<Vec<char>>) -> (r: Result<(), FenError>)
        requires
            old(self).wf(),
        ensures
            final(self).wf(),
            ({
                let parsed = spec_parse_fen_parts(tokens@.map_values(|t: Vec<char>| t@));
                match parsed {
                    Ok(f) => r is Ok && final(self).keys_ok() && final(self).spec_states().len()
                        == 1 && final(self).spec_hashes().len() == 0 && final(self).spec_red()
                        == f.red && final(self).spec_blue() == f.blue && final(self).spec_gaps()
                        == f.gaps && final(self).spec_blue_to_move() == f.blue_to_move && final(self).spec_halfmove() == f.halfmove && final(self).spec_fullmove() == f.fullmove,
                    Err(e) => r == Result::<(), FenError>::Err(e) && final(self).spec_states()
                        == old(self).spec_states() && final(self).spec_hashes() == old(self).spec_hashes() && final(self).spec_blue_to_move() == old(self).spec_blue_to_move() && final(self).spec_fullmove() == old(self).spec_fullmove() && final(self).spec_gaps() == old(self).spec_gaps(),
                }
            }),
    {
        match parse_fen_tokens(tokens) {
            Ok(f) => {
                self.reset_from_record(
                    f.red,
                    f.blue,
                    f.gaps,
                    f.blue_to_move,
                    f.halfmove,
                    f.fullmove,
                );
                Ok(())
            },
            Err(e) => Err(e),
        }
    }

    /// A position decoded from position text.
    pub fn from_fen(fen: &str) -> (r: Result<Position, FenError>)
        ensures
            ({
                let parsed = spec_parse_fen_parts(spec_split_ws(fen@));
                match parsed {
                    Ok(f) => r is Ok && {
                        let p = r->Ok_0;
                        p.wf() && p.keys_ok() && p.spec_states().len() == 1 && p.spec_red()
                            == f.red && p.spec_blue() == f.blue && p.spec_gaps() == f.gaps
                            && p.spec_blue_to_move() == f.blue_to_move && p.spec_halfmove()
                            == f.halfmove && p.spec_fullmove() == f.fullmove
                    },
                    Err(e) => r == Result::<Position, FenError>::Err(e),
                }
            }),
    {
        let mut pos = Position::empty();
        match pos.reset_from_fen(fen) {
            Ok(_) => Ok(pos),
            Err(e) => Err(e),
        }
    }
}

/// The number of consecutive playable empty squares from `file` on, within
/// one board row.
pub open spec fn spec_run_len(occ: u64, rank: int, file: int) -> nat
    decreases 7 - file,
{
    if file < 0 || file >= 7 {
        0
    } else if !bb_bit(occ, rank * 8 + file) {
        1 + spec_run_len(occ, rank, file + 1)
    } else {
        0
    }
}

/// A run never reaches past the row.
pub proof fn lemma_run_len_bound(occ: u64, rank: int, file: int)
    ensures
        spec_run_len(occ, rank, file) <= 7 - file || spec_run_len(occ, rank, file) == 0,
        0 <= file <= 7 ==> spec_run_len(occ, rank, file) + file <= 7,
    decreases 7 - file,
{
    if 0 <= file < 7 {
        lemma_run_len_bound(occ, rank, file + 1);
    }
}

/// One board row's text from `file` on: pieces, blocked squares, and maximal
/// digit runs of empties.
pub open spec fn spec_rank_fen_bytes(red: u64, blue: u64, gaps: u64, rank: int, file: int) -> Seq<
    u8,
>
    decreases 7 - file,
{
    if file < 0 || file >= 7 {
        Seq::empty()
    } else {
        let j = rank * 8 + file;
        if !bb_bit(red | blue | gaps, j) {
            let k = spec_run_len(red | blue | gaps, rank, file);
            let nf = if file + k > 7 {
                7int
            } else {
                file + k
            };
            seq![(48 + k) as u8] + spec_rank_fen_bytes(red, blue, gaps, rank, nf)
        } else if bb_bit(red, j) {
            seq![120u8] + spec_rank_fen_bytes(red, blue, gaps, rank, file + 1)
        } else if bb_bit(blue, j) {
            seq![111u8] + spec_rank_fen_bytes(red, blue, gaps, rank, file + 1)
        } else {
            seq![45u8] + spec_rank_fen_bytes(red, blue, gaps, rank, file + 1)
        }
    }
}

/// The board text from the displayed rank down to the bottom, rows joined
/// with `/`.
pub open spec fn spec_board_fen_bytes(red: u64, blue: u64, gaps: u64, rank: int) -> Seq<u8>
    decreases rank,
{
    if rank < 0 {
        Seq::empty()
    } else if rank == 0 {
        spec_rank_fen_bytes(red, blue, gaps, 0, 0)
    } else {
        spec_rank_fen_bytes(red, blue, gaps, rank, 0) + seq![47u8] + spec_board_fen_bytes(
            red,
            blue,
            gaps,
            rank - 1,
        )
    }
}

/// The full position text: board, side to move, the two counters.
pub open spec fn spec_fen_bytes(
    red: u64,
    blue: u64,
    gaps: u64,
    blue_to_move: bool,
    halfmove: u16,
    fullmove: u32,
) -> Seq<u8> {
    spec_board_fen_bytes(red, blue, gaps, 6) + seq![32u8] + seq![
        if blue_to_move {
            111u8
        } else {
            120u8
        },
    ] + seq![32u8] + crate::text::spec_dec_digits(halfmove as nat) + seq![32u8]
        + crate::text::spec_dec_digits(fullmove as nat)
}

impl Position {
    /// Encodes the position as text: seven ranks top to bottom with maximal
    /// digit runs for empties, then the side to move and the two counters.
    #[verifier::loop_isolation(false)]
    pub fn to_fen(&self) -> (r: String)
        requires
            self.wf(),
        ensures
            r@ == spec_fen_bytes(
                self.spec_red(),
                self.spec_blue(),
                self.spec_gaps(),
                self.spec_blue_to_move(),
                self.spec_halfmove(),
                self.spec_fullmove(),
            ).map_values(|b: u8| b as char),
    {
        let red = self.red_occupancy().raw();
        let blue = self.blue_occupancy().raw();
        let gaps = self.gaps().raw();
        let occ = red | blue | gaps;
        let mut bytes: Vec<u8> = Vec::new();

        let mut rank: i32 = 6;
        while rank >= 0
            invariant
                -1 <= rank <= 6,
                spec_board_fen_bytes(red, blue, gaps, 6) == bytes@ + spec_board_fen_bytes(
                    red,
                    blue,
                    gaps,
                    rank as int,
                ),
                forall|i: int| 0 <= i < bytes@.len() ==> bytes@[i] < 128,
            decreases rank + 1,
        {
            let ghost base = bytes@;
            let ghost mut seg = Seq::<u8>::empty();
            let mut file: i32 = 0;
            proof {
                assert(bytes@ =~= base + seg);
                assert(spec_rank_fen_bytes(red, blue, gaps, rank as int, 0) =~= seg
                    + spec_rank_fen_bytes(red, blue, gaps, rank as int, 0));
            }
            while file < 7
                invariant
                    0 <= file <= 7,
                    0 <= rank <= 6,
                    bytes@ == base + seg,
                    spec_rank_fen_bytes(red, blue, gaps, rank as int, 0) == seg
                        + spec_rank_fen_bytes(red, blue, gaps, rank as int, file as int),
                    forall|i: int| 0 <= i < bytes@.len() ==> bytes@[i] < 128,
                decreases 7 - file,
            {
                let j: u64 = (rank * 8 + file) as u64;
                proof {
                    crate::bitboard::lemma_bit_of_or(red | blue, gaps, j);
                    crate::bitboard::lemma_bit_of_or(red, blue, j);
                    assert(red | blue | gaps == occ);
                    assert(0 <= (rank as int) * 8 + (file as int) && (rank as int) * 8 + (file as int) < 64);
                    assert((occ >> j) & 1 == 0 || (occ >> j) & 1 == 1) by (bit_vector);
                    assert(bb_bit(occ, rank as int * 8 + file as int) == ((occ >> j) & 1 == 1));
                    assert(bb_bit(red, rank as int * 8 + file as int) == ((red >> j) & 1 == 1));
                    assert(bb_bit(blue, rank as int * 8 + file as int) == ((blue >> j) & 1 == 1));
                    assert(bb_bit(gaps, rank as int * 8 + file as int) == ((gaps >> j) & 1 == 1));
                }
                if (occ >> j) & 1 == 0 {
                    // A maximal run of playable empty squares.
                    let mut k: i32 = 0;
                    while file + k < 7 && ((occ >> ((rank * 8 + file + k) as u64)) & 1) == 0
                        invariant
                            0 <= k,
                            0 <= file <= 7,
                            file + k <= 7,
                            spec_run_len(occ, rank as int, file as int) == k + spec_run_len(
                                occ,
                                rank as int,
                                file + k,
                            ),
                        decreases 7 - file - k,
                    {
                        k = k + 1;
                    }
                    proof {
                        if file + k < 7 {
                            let jj = ((rank * 8 + file + k) as u64);
                            assert((occ >> jj) & 1 == 0 || (occ >> jj) & 1 == 1) by (bit_vector);
                            assert(bb_bit(occ, (rank as int) * 8 + (file as int) + (k as int)));
                        }
                        assert(spec_run_len(occ, rank as int, (file + k) as int) == 0);
                        lemma_run_len_bound(occ, rank as int, file as int);
                        assert(spec_run_len(occ, rank as int, file as int) == k);
                    }
                    bytes.push((48 + k) as u8);
                    proof {
                        assert(spec_rank_fen_bytes(red, blue, gaps, rank as int, file as int)
                            == seq![(48 + spec_run_len(occ, rank as int, file as int)) as u8]
                            + spec_rank_fen_bytes(red, blue, gaps, rank as int, (file + k) as int));
                        assert((48 + spec_run_len(occ, rank as int, file as int)) as u8 == (48
                            + k) as u8);
                        seg = seg.push((48 + k) as u8);
                        assert(bytes@ =~= base + seg);
                        assert(seg + spec_rank_fen_bytes(red, blue, gaps, rank as int, (file
                            + k) as int) =~= spec_rank_fen_bytes(red, blue, gaps, rank as int, 0));
                    }
                    file = file + k;
                } else if (red >> j) & 1 == 1 {
                    bytes.push(120);
                    proof {
                        seg = seg.push(120u8);
                        assert(bytes@ =~= base + seg);
                        assert(seg + spec_rank_fen_bytes(red, blue, gaps, rank as int, (file
                            + 1) as int) =~= spec_rank_fen_bytes(red, blue, gaps, rank as int, 0));
                    }
                    file = file + 1;
                } else if (blue >> j) & 1 == 1 {
                    bytes.push(111);
                    proof {
                        seg = seg.push(111u8);
                        assert(bytes@ =~= base + seg);
                        assert(seg + spec_rank_fen_bytes(red, blue, gaps, rank as int, (file
                            + 1) as int) =~= spec_rank_fen_bytes(red, blue, gaps, rank as int, 0));
                    }
                    file = file + 1;
                } else {
                    bytes.push(45);
                    proof {
                        assert(bb_bit(gaps, (rank as int) * 8 + (file as int)));
                        assert(spec_rank_fen_bytes(red, blue, gaps, rank as int, file as int)
                            == seq![45u8] + spec_rank_fen_bytes(
                            red,
                            blue,
                            gaps,
                            rank as int,
                            file as int + 1,
                        ));
                        seg = seg.push(45u8);
                        assert(bytes@ =~= base + seg);
                        assert(seg + spec_rank_fen_bytes(red, blue, gaps, rank as int, (file
                            + 1) as int) =~= spec_rank_fen_bytes(red, blue, gaps, rank as int, 0));
                    }
                    file = file + 1;
                }
            }
            proof {
                assert(spec_rank_fen_bytes(red, blue, gaps, rank as int, 7) =~= Seq::<u8>::empty());
                assert(seg =~= seg + spec_rank_fen_bytes(red, blue, gaps, rank as int, 7));
            }
            if rank > 0 {
                bytes.push(47);
                proof {
                    assert(spec_board_fen_bytes(red, blue, gaps, 6) =~= bytes@
                        + spec_board_fen_bytes(red, blue, gaps, rank as int - 1));
                }
            } else {
                proof {
                    assert(spec_board_fen_bytes(red, blue, gaps, 6) =~= bytes@
                        + spec_board_fen_bytes(red, blue, gaps, rank as int - 1));
                }
            }
            rank = rank - 1;
        }

        bytes.push(32);
        if self.side_to_move().idx() == 1 {
            bytes.push(111);
        } else {
            bytes.push(120);
        }
        bytes.push(32);
        let mut hd = crate::text::u64_to_dec(self.halfmoves() as u64);
        proof {
            crate::text::lemma_dec_digits_ascii(self.spec_halfmove() as nat);
        }
        bytes.append(&mut hd);
        bytes.push(32);
        let mut fd = crate::text::u64_to_dec(self.fullmoves() as u64);
        proof {
            crate::text::lemma_dec_digits_ascii(self.spec_fullmove() as nat);
        }
        bytes.append(&mut fd);
        proof {
            assert(bytes@ =~= spec_fen_bytes(
                self.spec_red(),
                self.spec_blue(),
                self.spec_gaps(),
                self.spec_blue_to_move(),
                self.spec_halfmove(),
                self.spec_fullmove(),
            ));
        }
        crate::text::ascii_to_string(&bytes)

    }
}

} // verus!
