//! Squares and player colors of the 7x7 board.
//!
//! A square is stored as a bit index with an 8-wide row stride, so that the
//! shift algebra on bitboards never wraps a square into the next row. Valid
//! playing squares therefore have both `value % 8 < 7` (file) and
//! `value / 8 < 7` (rank); the value 64 is the "no square" sentinel.

use vstd::prelude::*;
use vstd::string::StrSliceExecFns;

verus! {

/// A board coordinate, stored as a bit index in an 8-wide row stride.
#[derive(Debug, Copy, Clone, PartialEq, Eq, Structural)]
pub struct Square {
    pub value: u8,
}

/// The sentinel bit index meaning "no square".
pub const SQUARE_NONE_VALUE: u8 = 64;

/// Number of playing squares on the board.
pub const N_SQUARES: usize = 49;

impl Square {
    /// True of the bit index of a real playing square.
    pub open spec fn is_valid(self) -> bool {
        self.value % 8 < 7 && self.value / 8 < 7
    }

    /// The sentinel "no square".
    pub fn none() -> (r: Square)
        ensures
            r.value == SQUARE_NONE_VALUE,
    {
        Square { value: SQUARE_NONE_VALUE }
    }

    pub fn from_raw(value: u8) -> (r: Square)
        requires
            value == SQUARE_NONE_VALUE || (value % 8 < 7 && value / 8 < 7),
        ensures
            r.value == value,
    {
        Square { value }
    }

    pub fn from_coords(rank: u32, file: u32) -> (r: Square)
        requires
            rank < 7,
            file < 7,
        ensures
            r.value == rank * 8 + file,
            r.is_valid(),
    {
        Square { value: (rank * 8 + file) as u8 }
    }

    /// Dense index in 0..49, used by feature and history tables.
    pub open spec fn spec_idx(self) -> int {
        self.value / 8 * 7 + self.value % 8
    }

    pub fn idx(&self) -> (r: usize)
        requires
            self.is_valid(),
        ensures
            r == self.spec_idx(),
            r < 49,
    {
        (self.rank() * 7 + self.file()) as usize
    }

    /// The raw bit index, 0..64.
    pub fn bit_idx(&self) -> (r: usize)
        ensures
            r == self.value,
    {
        self.value as usize
    }

    pub fn rank(&self) -> (r: u32)
        ensures
            r == self.value / 8,
    {
        self.value as u32 / 8
    }

    pub fn file(&self) -> (r: u32)
        ensures
            r == self.value % 8,
    {
        self.value as u32 % 8
    }

    pub fn flip_horizontal(&self) -> (r: Square)
        requires
            self.is_valid(),
        ensures
            r.value == (self.value / 8) * 8 + (6 - self.value % 8),
            r.is_valid(),
    {
        Square::from_coords(self.rank(), 6 - self.file())
    }

    pub fn flip_vertical(&self) -> (r: Square)
        requires
            self.is_valid(),
        ensures
            r.value == (6 - self.value / 8) * 8 + self.value % 8,
            r.is_valid(),
    {
        Square::from_coords(6 - self.rank(), self.file())
    }
}

/// Why a two-character square name failed to parse.
#[derive(Debug, Copy, Clone, PartialEq, Eq, Structural)]
pub enum SquareStrError {
    WrongSize,
    InvalidFile,
    InvalidRank,
}

/// True of a file letter `a`..`g`.
pub open spec fn is_file_char(c: char) -> bool {
    'a' <= c && c <= 'g'
}

/// True of a rank digit `1`..`7`.
pub open spec fn is_rank_char(c: char) -> bool {
    '1' <= c && c <= '7'
}

/// The square denoted by a two-character name such as `b6`.
pub open spec fn spec_square_of_name(file_c: char, rank_c: char) -> Square {
    Square { value: ((rank_c as u8 - '1' as u8) * 8 + (file_c as u8 - 'a' as u8)) as u8 }
}

impl Square {
    /// Parses an algebraic square name: a file letter `a`..`g` followed by a
    /// rank digit `1`..`7`.
    pub fn from_str(s: &str) -> (r: Result<Square, SquareStrError>)
        ensures
            s@.len() != 2 ==> r == Result::<Square, SquareStrError>::Err(
                SquareStrError::WrongSize,
            ),
            s@.len() == 2 && !is_file_char(s@[0]) ==> r == Result::<Square, SquareStrError>::Err(
                SquareStrError::InvalidFile,
            ),
            s@.len() == 2 && is_file_char(s@[0]) && !is_rank_char(s@[1]) ==> r == Result::<
                Square,
                SquareStrError,
            >::Err(SquareStrError::InvalidRank),
            s@.len() == 2 && is_file_char(s@[0]) && is_rank_char(s@[1]) ==> r == Result::<
                Square,
                SquareStrError,
            >::Ok(spec_square_of_name(s@[0], s@[1])) && spec_square_of_name(
                s@[0],
                s@[1],
            ).is_valid(),
    {
        if s.unicode_len() != 2 {
            return Err(SquareStrError::WrongSize);
        }
        let file = s.get_char(0);
        let rank = s.get_char(1);
        if !('a' <= file && file <= 'g') {
            return Err(SquareStrError::InvalidFile);
        }
        if !('1' <= rank && rank <= '7') {
            return Err(SquareStrError::InvalidRank);
        }
        let file_idx = file as u32 - 'a' as u32;
        let rank_idx = rank as u32 - '1' as u32;
        Ok(Square::from_coords(rank_idx, file_idx))
    }
}

/// One of the two players, or the "no color" marker used for empty squares.
#[derive(Debug, Copy, Clone, PartialEq, Eq, Structural)]
pub struct Color {
    pub value: u8,
}

/// Number of players.
pub const N_COLORS: usize = 2;

impl Color {
    /// True of an actual player (red or blue).
    pub open spec fn is_player(self) -> bool {
        self.value < 2
    }

    pub fn red() -> (r: Color)
        ensures
            r.value == 0,
    {
        Color { value: 0 }
    }

    pub fn blue() -> (r: Color)
        ensures
            r.value == 1,
    {
        Color { value: 1 }
    }

    /// The "no color" marker.
    pub fn none() -> (r: Color)
        ensures
            r.value == 2,
    {
        Color { value: 2 }
    }

    pub fn from_char(c: char) -> (r: Option<Color>)
        ensures
            (c == 'x' || c == 'X') ==> r == Some(Color { value: 0u8 }),
            (c == 'o' || c == 'O') ==> r == Some(Color { value: 1u8 }),
            !(c == 'x' || c == 'X' || c == 'o' || c == 'O') ==> r is None,
    {
        match c {
            'x' | 'X' => Some(Color::red()),
            'o' | 'O' => Some(Color::blue()),
            _ => None,
        }
    }

    pub fn to_char(self) -> (r: char)
        requires
            self.value <= 2,
        ensures
            self.value == 0 ==> r == 'x',
            self.value == 1 ==> r == 'o',
            self.value == 2 ==> r == ' ',
    {
        if self.value == 0 {
            'x'
        } else if self.value == 1 {
            'o'
        } else {
            ' '
        }
    }

    /// The opposite player.
    pub open spec fn spec_flip(self) -> Color {
        Color { value: (1 - self.value) as u8 }
    }

    pub fn flip(&self) -> (r: Color)
        requires
            self.is_player(),
        ensures
            r == self.spec_flip(),
            r.is_player(),
            r.value != self.value,
    {
        Color { value: 1 - self.value }
    }

    pub fn idx(&self) -> (r: usize)
        ensures
            r == self.value,
    {
        self.value as usize
    }
}

/// A search score in centipawn-like units.
pub type Score = i32;

/// Scores are always strictly inside this bound.
pub const SCORE_INF: Score = 32000;

/// Base value of a forced win; mate-in-N scores count down from it.
pub const SCORE_MATE: Score = 31000;

/// Scores beyond this bound denote a forced game-end line.
pub const SCORE_WIN: Score = 30000;

/// Hard cap on search depth and ply.
pub const MAX_DEPTH: i32 = 255;

} // verus!
