//! Square addressing: board coordinates, algebraic notation, linear indices.
use vstd::prelude::*;
use vstd::string::StrSliceExecFns;

use crate::text::chars_to_string;
use crate::ChessError;

verus! {

/// A board square addressed by row and column. Row 0 is rank 8 (the top of
/// the board from White's side) and column 0 is file 'a', so (0, 0) is "a8"
/// and (7, 7) is "h1". Only rows and columns at most 7 address squares of
/// the board; see [`Coordinate::is_valid`].
#[derive(Clone, Copy, PartialEq, Eq, Structural, Debug)]
pub struct Coordinate {
    pub row: u8,
    pub col: u8,
}

/// The file letter of a column: 'a' for column 0 through 'h' for column 7.
pub open spec fn file_char(col: int) -> char {
    if col == 0 {
        'a'
    } else if col == 1 {
        'b'
    } else if col == 2 {
        'c'
    } else if col == 3 {
        'd'
    } else if col == 4 {
        'e'
    } else if col == 5 {
        'f'
    } else if col == 6 {
        'g'
    } else {
        'h'
    }
}

/// The rank digit of a row: '8' for row 0 down to '1' for row 7.
pub open spec fn rank_char(row: int) -> char {
    if row == 0 {
        '8'
    } else if row == 1 {
        '7'
    } else if row == 2 {
        '6'
    } else if row == 3 {
        '5'
    } else if row == 4 {
        '4'
    } else if row == 5 {
        '3'
    } else if row == 6 {
        '2'
    } else {
        '1'
    }
}

/// The column named by a file letter, if the letter is 'a'-'h'.
pub open spec fn file_index(c: char) -> Option<u8> {
    if c == 'a' {
        Some(0u8)
    } else if c == 'b' {
        Some(1u8)
    } else if c == 'c' {
        Some(2u8)
    } else if c == 'd' {
        Some(3u8)
    } else if c == 'e' {
        Some(4u8)
    } else if c == 'f' {
        Some(5u8)
    } else if c == 'g' {
        Some(6u8)
    } else if c == 'h' {
        Some(7u8)
    } else {
        None
    }
}

/// The row named by a rank digit, if the digit is '1'-'8'.
pub open spec fn rank_index(c: char) -> Option<u8> {
    if c == '8' {
        Some(0u8)
    } else if c == '7' {
        Some(1u8)
    } else if c == '6' {
        Some(2u8)
    } else if c == '5' {
        Some(3u8)
    } else if c == '4' {
        Some(4u8)
    } else if c == '3' {
        Some(5u8)
    } else if c == '2' {
        Some(6u8)
    } else if c == '1' {
        Some(7u8)
    } else {
        None
    }
}

/// The two-character algebraic name of a square: file letter, then rank digit.
pub open spec fn spec_notation(c: Coordinate) -> Seq<char> {
    seq![file_char(c.col as int), rank_char(c.row as int)]
}

/// The square named by a string: exactly two characters, a file letter
/// 'a'-'h' followed by a rank digit '1'-'8'; anything else names no square.
pub open spec fn spec_parse_notation(s: Seq<char>) -> Option<Coordinate> {
    if s.len() == 2 {
        match (file_index(s[0]), rank_index(s[1])) {
            (Some(col), Some(row)) => Some(Coordinate { row, col }),
            _ => None,
        }
    } else {
        None
    }
}

/// Parsing the name of a valid square gives that square back.
pub proof fn lemma_notation_roundtrip(c: Coordinate)
    requires
        c.spec_valid(),
    ensures
        spec_parse_notation(spec_notation(c)) == Some(c),
{
}

/// The column a file letter names, if the letter is 'a'-'h'.
pub(crate) fn file_index_exec(c: char) -> (r: Option<u8>)
    ensures
        r == file_index(c),
{
    match c {
        'a' => Some(0),
        'b' => Some(1),
        'c' => Some(2),
        'd' => Some(3),
        'e' => Some(4),
        'f' => Some(5),
        'g' => Some(6),
        'h' => Some(7),
        _ => None,
    }
}

/// The row a rank digit names, if the digit is '1'-'8'.
pub(crate) fn rank_index_exec(c: char) -> (r: Option<u8>)
    ensures
        r == rank_index(c),
{
    match c {
        '8' => Some(0),
        '7' => Some(1),
        '6' => Some(2),
        '5' => Some(3),
        '4' => Some(4),
        '3' => Some(5),
        '2' => Some(6),
        '1' => Some(7),
        _ => None,
    }
}

/// The file letter of a column.
pub(crate) fn file_char_exec(col: u8) -> (r: char)
    requires
        col <= 7,
    ensures
        r == file_char(col as int),
{
    match col {
        0 => 'a',
        1 => 'b',
        2 => 'c',
        3 => 'd',
        4 => 'e',
        5 => 'f',
        6 => 'g',
        _ => 'h',
    }
}

/// The rank digit of a row.
pub(crate) fn rank_char_exec(row: u8) -> (r: char)
    requires
        row <= 7,
    ensures
        r == rank_char(row as int),
{
    match row {
        0 => '8',
        1 => '7',
        2 => '6',
        3 => '5',
        4 => '4',
        5 => '3',
        6 => '2',
        _ => '1',
    }
}

impl Coordinate {
    /// True when the square lies on the 8x8 board.
    pub open spec fn spec_valid(&self) -> bool {
        self.row <= 7 && self.col <= 7
    }

    /// True when the square lies on the 8x8 board.
    #[verifier::when_used_as_spec(spec_valid)]
    pub fn is_valid(&self) -> (r: bool)
        ensures
            r == self.spec_valid(),
    {
        self.row <= 7 && self.col <= 7
    }

    /// The linear index of the square, row by row from the top:
    /// "a8" is 0, "h8" is 7, and "h1" is 63.
    pub fn as_number(&self) -> (r: u8)
        requires
            self.spec_valid(),
        ensures
            r == self.row * 8 + self.col,
    {
        self.row * 8 + self.col
    }

    /// The square with the given linear index; indices above 63 address no
    /// square and are rejected.
    pub fn from_number(number: u8) -> (r: Result<Self, ChessError>)
        ensures
            match r {
                Ok(c) => number <= 63 && c == (Coordinate {
                    row: (number / 8) as u8,
                    col: (number % 8) as u8,
                }) && c.spec_valid(),
                Err(e) => number > 63 && e == ChessError::OutOfRange,
            },
    {
        if number > 63 {
            return Err(ChessError::OutOfRange);
        }
        Ok(Coordinate { row: number / 8, col: number % 8 })
    }

    /// The algebraic name of the square, file letter then rank digit:
    /// (0, 0) is "a8" and (7, 7) is "h1".
    pub fn to_notation(&self) -> (r: String)
        requires
            self.spec_valid(),
        ensures
            r@ == spec_notation(*self),
    {
        let mut v: Vec<char> = Vec::new();
        v.push(file_char_exec(self.col));
        v.push(rank_char_exec(self.row));
        assert(v@ =~= spec_notation(*self));
        chars_to_string(&v)
    }

    /// The square named in algebraic notation: a file letter 'a'-'h'
    /// followed by a rank digit '1'-'8', as "b7" names (1, 1). Any other
    /// string is rejected.
    pub fn from_notation(notation: &str) -> (r: Result<Self, ChessError>)
        ensures
            match r {
                Ok(c) => spec_parse_notation(notation@) == Some(c) && c.spec_valid(),
                Err(e) => spec_parse_notation(notation@) is None && e
                    == ChessError::InvalidNotation,
            },
    {
        if notation.unicode_len() != 2 {
            return Err(ChessError::InvalidNotation);
        }
        let col: u8 = match notation.get_char(0) {
            'a' => 0,
            'b' => 1,
            'c' => 2,
            'd' => 3,
            'e' => 4,
            'f' => 5,
            'g' => 6,
            'h' => 7,
            _ => return Err(ChessError::InvalidNotation),
        };
        let row: u8 = match notation.get_char(1) {
            '8' => 0,
            '7' => 1,
            '6' => 2,
            '5' => 3,
            '4' => 4,
            '3' => 5,
            '2' => 6,
            '1' => 7,
            _ => return Err(ChessError::InvalidNotation),
        };
        Ok(Coordinate { row, col })
    }
}

} // verus!
