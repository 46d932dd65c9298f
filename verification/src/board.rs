//! The board: a position with its pieces, turn, castling rights and clocks.
use vstd::prelude::*;

use crate::piece::{Color, Piece, Pieces};
use crate::square::Coordinate;

verus! {

/// The four independent castling-rights flags, one per side and color. A
/// flag only ever moves from true to false, once the king or the relevant
/// rook leaves its home square.
#[derive(Clone, Copy, PartialEq, Eq, Structural, Debug)]
pub struct CastlingRights {
    pub white_kingside: bool,
    pub white_queenside: bool,
    pub black_kingside: bool,
    pub black_queenside: bool,
}

impl CastlingRights {
    /// All four flags cleared.
    pub open spec fn spec_none() -> CastlingRights {
        CastlingRights {
            white_kingside: false,
            white_queenside: false,
            black_kingside: false,
            black_queenside: false,
        }
    }

    /// True when no side may castle either way.
    pub open spec fn is_none(self) -> bool {
        self == CastlingRights::spec_none()
    }
}

/// The mathematical value of a [`Board`]: the same position with the square
/// list as a sequence and the clocks as unbounded integers.
#[verifier::ext_equal]
pub struct BoardView {
    pub turn: Color,
    pub squares: Seq<Option<Piece>>,
    pub en_passant_target_sq: Option<Coordinate>,
    pub castling: CastlingRights,
    pub halfmove_clock: int,
    pub fullmove_number: int,
}

impl BoardView {
    /// A well-formed position: exactly 64 squares, an en-passant target (if
    /// any) on the board, and clocks that fit the board's counters.
    pub open spec fn wf(self) -> bool {
        &&& self.squares.len() == 64
        &&& match self.en_passant_target_sq {
            Some(c) => c.spec_valid(),
            None => true,
        }
        &&& 0 <= self.halfmove_clock <= u16::MAX
        &&& 0 <= self.fullmove_number <= u16::MAX
    }

    /// The piece on the square at the given row and column; squares off the
    /// board hold nothing.
    pub open spec fn piece_at(self, row: int, col: int) -> Option<Piece> {
        if 0 <= row < 8 && 0 <= col < 8 {
            self.squares[row * 8 + col]
        } else {
            None
        }
    }

    /// The piece on the square at the given coordinate.
    pub open spec fn piece_at_c(self, c: Coordinate) -> Option<Piece> {
        self.piece_at(c.row as int, c.col as int)
    }

    /// The position an empty board starts from: no pieces, White to move,
    /// no en-passant target, no castling rights, clocks at 0 and 1.
    pub open spec fn empty() -> BoardView {
        BoardView {
            turn: Color::White,
            squares: Seq::new(64, |i: int| None),
            en_passant_target_sq: None,
            castling: CastlingRights::spec_none(),
            halfmove_clock: 0,
            fullmove_number: 1,
        }
    }
}

/// The piece kind on the back rank's home square of the given column:
/// rooks outside, then knights, then bishops, queen on column 3 and king
/// on column 4.
pub open spec fn back_rank_breed(col: int) -> Pieces {
    if col == 0 || col == 7 {
        Pieces::Rook
    } else if col == 1 || col == 6 {
        Pieces::Knight
    } else if col == 2 || col == 5 {
        Pieces::Bishop
    } else if col == 3 {
        Pieces::Queen
    } else {
        Pieces::King
    }
}

/// The piece on square `i` (linear index) in the standard starting position:
/// Black's back rank on row 0 and pawns on row 1, White's pawns on row 6 and
/// back rank on row 7.
pub open spec fn start_square(i: int) -> Option<Piece> {
    let row = i / 8;
    let col = i % 8;
    if row == 0 {
        Some(Piece { breed: back_rank_breed(col), color: Color::Black })
    } else if row == 1 {
        Some(Piece { breed: Pieces::Pawn, color: Color::Black })
    } else if row == 6 {
        Some(Piece { breed: Pieces::Pawn, color: Color::White })
    } else if row == 7 {
        Some(Piece { breed: back_rank_breed(col), color: Color::White })
    } else {
        None
    }
}

/// The standard starting position: all 32 pieces on their home squares,
/// White to move, full castling rights, clocks at 0 and 1.
pub open spec fn starting_board() -> BoardView {
    BoardView {
        turn: Color::White,
        squares: Seq::new(64, |i: int| start_square(i)),
        en_passant_target_sq: None,
        castling: CastlingRights {
            white_kingside: true,
            white_queenside: true,
            black_kingside: true,
            black_queenside: true,
        },
        halfmove_clock: 0,
        fullmove_number: 1,
    }
}

/// The first square at or after linear index `i` holding the given color's
/// king, scanning row by row from the top.
pub open spec fn first_king_from(sq: Seq<Option<Piece>>, color: Color, i: int) -> Option<
    Coordinate,
>
    decreases 64 - i,
{
    if i < 0 || i >= 64 {
        None
    } else {
        match sq[i] {
            Some(p) => if p.breed == Pieces::King && p.color == color {
                Some(Coordinate { row: (i / 8) as u8, col: (i % 8) as u8 })
            } else {
                first_king_from(sq, color, i + 1)
            },
            None => first_king_from(sq, color, i + 1),
        }
    }
}

/// The square of the given color's king: the first one found scanning row
/// by row from the top, or nothing when that color has no king.
pub open spec fn king_square(bv: BoardView, color: Color) -> Option<Coordinate> {
    first_king_from(bv.squares, color, 0)
}

/// A chess position: the occupied squares, whose turn it is, the en-passant
/// target square (if the last move was a double pawn push), castling rights,
/// the halfmove clock and the fullmove number.
pub struct Board {
    pub turn: Color,
    pub squares: Vec<Option<Piece>>,
    pub en_passant_target_sq: Option<Coordinate>,
    pub castling: CastlingRights,
    pub halfmove_clock: u16,
    pub fullmove_number: u16,
}

impl View for Board {
    type V = BoardView;

    open spec fn view(&self) -> BoardView {
        BoardView {
            turn: self.turn,
            squares: self.squares@,
            en_passant_target_sq: self.en_passant_target_sq,
            castling: self.castling,
            halfmove_clock: self.halfmove_clock as int,
            fullmove_number: self.fullmove_number as int,
        }
    }
}

impl Clone for Board {
    /// An independent copy of the position, equal to the original.
    fn clone(&self) -> (r: Board)
        ensures
            r@ == self@,
    {
        let mut squares: Vec<Option<Piece>> = Vec::new();
        let mut i: usize = 0;
        while i < self.squares.len()
            invariant
                i <= self.squares.len(),
                squares@ =~= self.squares@.subrange(0, i as int),
            decreases self.squares.len() - i,
        {
            squares.push(self.squares[i]);
            i += 1;
        }
        assert(squares@ =~= self.squares@);
        let r = Board {
            turn: self.turn,
            squares,
            en_passant_target_sq: self.en_passant_target_sq,
            castling: self.castling,
            halfmove_clock: self.halfmove_clock,
            fullmove_number: self.fullmove_number,
        };
        assert(r@ =~= self@);
        r
    }
}

impl Board {
    /// An empty board: no pieces, White to move, no en-passant target, no
    /// castling rights, clocks at 0 and 1.
    pub fn new() -> (b: Board)
        ensures
            b@ == BoardView::empty(),
            b@.wf(),
    {
        let mut squares: Vec<Option<Piece>> = Vec::new();
        let mut i: usize = 0;
        while i < 64
            invariant
                i <= 64,
                squares@ =~= Seq::new(i as nat, |j: int| None),
            decreases 64 - i,
        {
            squares.push(None);
            i += 1;
        }
        let b = Board {
            turn: Color::White,
            squares,
            en_passant_target_sq: None,
            castling: CastlingRights {
                white_kingside: false,
                white_queenside: false,
                black_kingside: false,
                black_queenside: false,
            },
            halfmove_clock: 0,
            fullmove_number: 1,
        };
        assert(b@ =~= BoardView::empty());
        b
    }

    /// Puts the board back to the empty state: no pieces, White to move, no
    /// en-passant target, no castling rights, clocks at 0 and 1.
    pub fn reset(&mut self)
        ensures
            final(self)@ == BoardView::empty(),
            final(self)@.wf(),
    {
        *self = Board::new();
    }

    /// The standard starting position.
    pub fn default() -> (b: Board)
        ensures
            b@ == starting_board(),
            b@.wf(),
    {
        let mut squares: Vec<Option<Piece>> = Vec::new();
        let mut i: u8 = 0;
        while i < 64
            invariant
                i <= 64,
                squares@ =~= Seq::new(i as nat, |j: int| start_square(j)),
            decreases 64 - i,
        {
            let row = i / 8;
            let col = i % 8;
            let breed = match col {
                0 | 7 => Pieces::Rook,
                1 | 6 => Pieces::Knight,
                2 | 5 => Pieces::Bishop,
                3 => Pieces::Queen,
                _ => Pieces::King,
            };
            let piece: Option<Piece> = if row == 0 {
                Some(Piece { breed, color: Color::Black })
            } else if row == 1 {
                Some(Piece { breed: Pieces::Pawn, color: Color::Black })
            } else if row == 6 {
                Some(Piece { breed: Pieces::Pawn, color: Color::White })
            } else if row == 7 {
                Some(Piece { breed, color: Color::White })
            } else {
                None
            };
            assert(piece == start_square(i as int));
            squares.push(piece);
            i += 1;
        }
        let b = Board {
            turn: Color::White,
            squares,
            en_passant_target_sq: None,
            castling: CastlingRights {
                white_kingside: true,
                white_queenside: true,
                black_kingside: true,
                black_queenside: true,
            },
            halfmove_clock: 0,
            fullmove_number: 1,
        };
        assert(b@ =~= starting_board());
        b
    }

    /// Puts a piece on a square of the board, returning whatever piece that
    /// square held before; everything else about the position is unchanged.
    pub fn place_piece(&mut self, piece: Piece, coord: Coordinate) -> (r: Option<Piece>)
        requires
            old(self)@.wf(),
            coord.spec_valid(),
        ensures
            r == old(self)@.piece_at_c(coord),
            final(self)@ == (BoardView {
                squares: old(self)@.squares.update(
                    coord.row as int * 8 + coord.col as int,
                    Some(piece),
                ),
                ..old(self)@
            }),
            final(self)@.wf(),
    {
        let idx = coord.as_number() as usize;
        let old_piece = self.squares[idx];
        self.squares.set(idx, Some(piece));
        old_piece
    }

    /// The piece on the given square, or nothing when the square is empty
    /// or lies off the board.
    pub fn get_piece(&self, coordinate: &Coordinate) -> (r: Option<Piece>)
        requires
            self@.wf(),
        ensures
            r == self@.piece_at_c(*coordinate),
    {
        if !coordinate.is_valid() {
            return None;
        }
        let idx = (coordinate.row * 8 + coordinate.col) as usize;
        self.squares[idx]
    }

    /// The square of the given color's king: the first one found scanning
    /// row by row from the top, or nothing when that color has no king.
    pub fn get_king_coord(&self, color: Color) -> (r: Option<Coordinate>)
        requires
            self@.wf(),
        ensures
            r == king_square(self@, color),
    {
        let mut i: usize = 0;
        while i < 64
            invariant
                i <= 64,
                self@.wf(),
                king_square(self@, color) == first_king_from(self@.squares, color, i as int),
            decreases 64 - i,
        {
            match self.squares[i] {
                Some(p) => {
                    if p.breed == Pieces::King && p.color == color {
                        return Some(Coordinate { row: (i / 8) as u8, col: (i % 8) as u8 });
                    }
                },
                None => {},
            }
            i += 1;
        }
        None
    }
}

} // verus!
