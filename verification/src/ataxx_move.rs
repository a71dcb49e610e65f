//! Moves and their 16-bit packed form used inside transposition entries.
//!
//! A packed move holds a 2-bit tag at bits 12..14 and up to two 6-bit square
//! fields: the destination in bits 0..6 and, for a jump, the source in bits
//! 6..12. Packing and unpacking round-trip exactly; see
//! [`lemma_pack_unpack_round_trip`].

use vstd::prelude::*;
use vstd::string::StrSliceExecFns;
use crate::square::{is_file_char, is_rank_char, spec_square_of_name, Square};
use crate::text::ascii_to_string;

verus! {

/// A move: absent, a pass, a placement to a square, or a jump between two.
#[derive(Debug, Copy, Clone, PartialEq, Eq, Structural)]
pub enum AtaxxMove {
    NoMove,
    Null,
    Single(Square),
    Double(Square, Square),
}

impl AtaxxMove {
    /// True when every square the move names is a real square.
    pub open spec fn is_wf(self) -> bool {
        match self {
            AtaxxMove::NoMove => true,
            AtaxxMove::Null => true,
            AtaxxMove::Single(to) => to.is_valid(),
            AtaxxMove::Double(from, to) => from.is_valid() && to.is_valid(),
        }
    }

    pub fn pack(&self) -> (r: PackedMove)
        requires
            self.is_wf(),
        ensures
            r.value == spec_pack(*self),
    {
        PackedMove::pack(*self)
    }
}

/// The 16-bit encoding of a move.
pub open spec fn spec_pack(m: AtaxxMove) -> u16 {
    match m {
        AtaxxMove::NoMove => 0,
        AtaxxMove::Null => (1u16 << 12),
        AtaxxMove::Single(to) => (2u16 << 12) | (to.value as u16),
        AtaxxMove::Double(from, to) => (3u16 << 12) | ((from.value as u16) << 6) | (to.value
            as u16),
    }
}

/// The move denoted by a 16-bit word.
pub open spec fn spec_unpack(v: u16) -> AtaxxMove {
    let tag = (v >> 12) & 3;
    if tag == 0 {
        AtaxxMove::NoMove
    } else if tag == 1 {
        AtaxxMove::Null
    } else if tag == 2 {
        AtaxxMove::Single(Square { value: (v & 63) as u8 })
    } else {
        AtaxxMove::Double(Square { value: ((v >> 6) & 63) as u8 }, Square { value: (v & 63) as u8 })
    }
}

/// True of words whose square fields name real squares, so that unpacking
/// yields a well-formed move.
pub open spec fn packed_is_wf(v: u16) -> bool {
    spec_unpack(v).is_wf()
}

/// Packing a well-formed move and unpacking the result gives the move back.
pub proof fn lemma_pack_unpack_round_trip(m: AtaxxMove)
    requires
        m.is_wf(),
    ensures
        spec_unpack(spec_pack(m)) == m,
        packed_is_wf(spec_pack(m)),
{
    match m {
        AtaxxMove::NoMove => {
            assert((0u16 >> 12) & 3 == 0 && ((1u16 << 12) >> 12) & 3 == 1) by (bit_vector);
        },
        AtaxxMove::Null => {
            assert((0u16 >> 12) & 3 == 0 && ((1u16 << 12) >> 12) & 3 == 1) by (bit_vector);
        },
        AtaxxMove::Single(to) => {
            let t = to.value;
            assert(t < 64 ==> ((((2u16 << 12) | (t as u16)) >> 12) & 3 == 2 && (((2u16 << 12) | (t
                as u16)) & 63) == t as u16)) by (bit_vector);
        },
        AtaxxMove::Double(from, to) => {
            let f = from.value;
            let t = to.value;
            assert((f < 64 && t < 64) ==> (((((3u16 << 12) | ((f as u16) << 6) | (t as u16)) >> 12)
                & 3 == 3) && ((((3u16 << 12) | ((f as u16) << 6) | (t as u16)) >> 6) & 63) == f
                as u16 && (((3u16 << 12) | ((f as u16) << 6) | (t as u16)) & 63) == t as u16))
                by (bit_vector);
        },
    }
}

/// Why a move string failed to parse.
#[derive(Debug, Copy, Clone, PartialEq, Eq, Structural)]
pub enum MoveStrError {
    InvalidFrom,
    InvalidTo,
    WrongSize,
}

/// What parsing a move string yields: `0000` is a pass, two characters name a
/// placement's target, four characters name a jump's source and target.
pub open spec fn spec_move_of_str(s: Seq<char>) -> Result<AtaxxMove, MoveStrError> {
    if s.len() == 4 && s[0] == '0' && s[1] == '0' && s[2] == '0' && s[3] == '0' {
        Ok(AtaxxMove::Null)
    } else if s.len() == 2 {
        if is_file_char(s[0]) && is_rank_char(s[1]) {
            Ok(AtaxxMove::Single(spec_square_of_name(s[0], s[1])))
        } else {
            Err(MoveStrError::InvalidTo)
        }
    } else if s.len() == 4 {
        if !(is_file_char(s[0]) && is_rank_char(s[1])) {
            Err(MoveStrError::InvalidFrom)
        } else if !(is_file_char(s[2]) && is_rank_char(s[3])) {
            Err(MoveStrError::InvalidTo)
        } else {
            Ok(
                AtaxxMove::Double(
                    spec_square_of_name(s[0], s[1]),
                    spec_square_of_name(s[2], s[3]),
                ),
            )
        }
    } else {
        Err(MoveStrError::WrongSize)
    }
}

impl AtaxxMove {
    /// Parses a move in coordinate text: `0000` for a pass, `b6` for a
    /// placement, `a7c5` for a jump.
    pub fn from_str(s: &str) -> (r: Result<AtaxxMove, MoveStrError>)
        ensures
            r == spec_move_of_str(s@),
            r is Ok ==> r->Ok_0.is_wf(),
    {
        let n = s.unicode_len();
        if n == 4 && s.get_char(0) == '0' && s.get_char(1) == '0' && s.get_char(2) == '0'
            && s.get_char(3) == '0' {
            return Ok(AtaxxMove::Null);
        }
        if n == 2 {
            let c0 = s.get_char(0);
            let c1 = s.get_char(1);
            if 'a' <= c0 && c0 <= 'g' && '1' <= c1 && c1 <= '7' {
                let file_idx = c0 as u32 - 'a' as u32;
                let rank_idx = c1 as u32 - '1' as u32;
                return Ok(AtaxxMove::Single(Square::from_coords(rank_idx, file_idx)));
            } else {
                return Err(MoveStrError::InvalidTo);
            }
        }
        if n == 4 {
            let c0 = s.get_char(0);
            let c1 = s.get_char(1);
            let c2 = s.get_char(2);
            let c3 = s.get_char(3);
            if !('a' <= c0 && c0 <= 'g' && '1' <= c1 && c1 <= '7') {
                return Err(MoveStrError::InvalidFrom);
            }
            if !('a' <= c2 && c2 <= 'g' && '1' <= c3 && c3 <= '7') {
                return Err(MoveStrError::InvalidTo);
            }
            let from = Square::from_coords(c1 as u32 - '1' as u32, c0 as u32 - 'a' as u32);
            let to = Square::from_coords(c3 as u32 - '1' as u32, c2 as u32 - 'a' as u32);
            return Ok(AtaxxMove::Double(from, to));
        }
        Err(MoveStrError::WrongSize)
    }

    /// The two ASCII bytes naming a square: file letter then rank digit.
    pub open spec fn spec_square_bytes(sq: Square) -> Seq<u8> {
        seq![(97 + sq.value % 8) as u8, (49 + sq.value / 8) as u8]
    }

    /// The coordinate text of the move, as the bytes of
    /// [`AtaxxMove::to_text`].
    pub open spec fn spec_move_bytes(m: AtaxxMove) -> Seq<u8> {
        match m {
            AtaxxMove::NoMove => seq![48u8, 48u8, 48u8, 48u8],
            AtaxxMove::Null => seq![48u8, 48u8, 48u8, 48u8],
            AtaxxMove::Single(to) => AtaxxMove::spec_square_bytes(to),
            AtaxxMove::Double(from, to) => AtaxxMove::spec_square_bytes(from)
                + AtaxxMove::spec_square_bytes(to),
        }
    }

    /// Renders the move in coordinate text; a pass (and the absent move)
    /// renders as `0000`.
    pub fn to_text(&self) -> (r: String)
        requires
            self.is_wf(),
        ensures
            r@ == AtaxxMove::spec_move_bytes(*self).map_values(|b: u8| b as char),
    {
        let mut bytes: Vec<u8> = Vec::new();
        match *self {
            AtaxxMove::NoMove => {
                bytes.push(48);
                bytes.push(48);
                bytes.push(48);
                bytes.push(48);
            },
            AtaxxMove::Null => {
                bytes.push(48);
                bytes.push(48);
                bytes.push(48);
                bytes.push(48);
            },
            AtaxxMove::Single(to) => {
                bytes.push(97 + (to.value % 8));
                bytes.push(49 + (to.value / 8));
            },
            AtaxxMove::Double(from, to) => {
                bytes.push(97 + (from.value % 8));
                bytes.push(49 + (from.value / 8));
                bytes.push(97 + (to.value % 8));
                bytes.push(49 + (to.value / 8));
            },
        }
        proof {
            assert(bytes@ =~= AtaxxMove::spec_move_bytes(*self));
        }
        ascii_to_string(&bytes)
    }
}

/// A move packed into 16 bits for storage in the transposition table.
#[derive(Debug, Copy, Clone, PartialEq, Eq, Structural)]
pub struct PackedMove {
    pub value: u16,
}

impl PackedMove {
    /// The packed form of the absent move.
    pub fn none() -> (r: PackedMove)
        ensures
            r.value == 0,
            r.value == spec_pack(AtaxxMove::NoMove),
    {
        PackedMove { value: 0 }
    }

    /// The packed form of a pass.
    pub fn null() -> (r: PackedMove)
        ensures
            r.value == spec_pack(AtaxxMove::Null),
    {
        PackedMove { value: 1u16 << 12 }
    }

    pub fn from_raw(value: u16) -> (r: PackedMove)
        ensures
            r.value == value,
    {
        PackedMove { value }
    }

    pub fn pack(m: AtaxxMove) -> (r: PackedMove)
        requires
            m.is_wf(),
        ensures
            r.value == spec_pack(m),
    {
        match m {
            AtaxxMove::NoMove => PackedMove { value: 0 },
            AtaxxMove::Null => PackedMove { value: 1u16 << 12 },
            AtaxxMove::Single(sq) => PackedMove { value: (2u16 << 12) | (sq.value as u16) },
            AtaxxMove::Double(from, to) => PackedMove {
                value: (3u16 << 12) | ((from.value as u16) << 6) | (to.value as u16),
            },
        }
    }

    pub fn raw(&self) -> (r: u16)
        ensures
            r == self.value,
    {
        self.value
    }

    pub fn unpack(&self) -> (r: AtaxxMove)
        requires
            packed_is_wf(self.value),
        ensures
            r == spec_unpack(self.value),
            r.is_wf(),
    {
        proof {
            let v = self.value;
            assert(v & 63 < 64 && (v >> 6) & 63 < 64) by (bit_vector);
        }
        let tag = (self.value >> 12) & 3;
        if tag == 0 {
            AtaxxMove::NoMove
        } else if tag == 1 {
            AtaxxMove::Null
        } else if tag == 2 {
            AtaxxMove::Single(self.dst_sq())
        } else {
            AtaxxMove::Double(self.src_sq(), self.dst_sq())
        }
    }

    /// The jump-source field, bits 6..12.
    pub fn src_sq(&self) -> (r: Square)
        requires
            ((self.value >> 6) & 63) % 8 < 7 && ((self.value >> 6) & 63) / 8 < 7,
        ensures
            r.value == (self.value >> 6) & 63,
            r.is_valid(),
    {
        Square::from_raw(((self.value >> 6) & 63) as u8)
    }

    /// The target field, bits 0..6.
    pub fn dst_sq(&self) -> (r: Square)
        requires
            (self.value & 63) % 8 < 7 && (self.value & 63) / 8 < 7,
        ensures
            r.value == self.value & 63,
            r.is_valid(),
    {
        Square::from_raw((self.value & 63) as u8)
    }
}

} // verus!
