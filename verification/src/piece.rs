//! Chess entities: colors, piece kinds, and pieces.
use vstd::prelude::*;

verus! {

/// The two sides of the game.
#[derive(Clone, Copy, PartialEq, Eq, Structural, Debug)]
pub enum Color {
    Black,
    White,
}

impl Color {
    /// The opposing side.
    pub open spec fn spec_other(self) -> Color {
        match self {
            Color::Black => Color::White,
            Color::White => Color::Black,
        }
    }

    /// The opposing side.
    #[verifier::when_used_as_spec(spec_other)]
    pub fn other(self) -> (r: Color)
        ensures
            r == self.spec_other(),
    {
        match self {
            Color::Black => Color::White,
            Color::White => Color::Black,
        }
    }
}

/// The six piece kinds.
#[derive(Clone, Copy, PartialEq, Eq, Structural, Debug)]
pub enum Pieces {
    King,
    Queen,
    Rook,
    Bishop,
    Knight,
    Pawn,
}

/// A piece: a kind together with the color that owns it.
#[derive(Clone, Copy, PartialEq, Eq, Structural, Debug)]
pub struct Piece {
    pub breed: Pieces,
    pub color: Color,
}

/// The chess glyph drawn for a piece of the given kind and color.
pub open spec fn unicode_of(p: Pieces, color: Color) -> char {
    match color {
        Color::Black => match p {
            Pieces::King => '♔',
            Pieces::Queen => '♕',
            Pieces::Rook => '♖',
            Pieces::Bishop => '♗',
            Pieces::Knight => '♘',
            Pieces::Pawn => '♙',
        },
        Color::White => match p {
            Pieces::King => '♚',
            Pieces::Queen => '♛',
            Pieces::Rook => '♜',
            Pieces::Bishop => '♝',
            Pieces::Knight => '♞',
            Pieces::Pawn => '♟',
        },
    }
}

impl Pieces {
    /// The chess glyph for this kind in the given color.
    pub fn to_unicode(&self, color: Color) -> (r: char)
        ensures
            r == unicode_of(*self, color),
    {
        match color {
            Color::Black => match self {
                Pieces::King => '♔',
                Pieces::Queen => '♕',
                Pieces::Rook => '♖',
                Pieces::Bishop => '♗',
                Pieces::Knight => '♘',
                Pieces::Pawn => '♙',
            },
            Color::White => match self {
                Pieces::King => '♚',
                Pieces::Queen => '♛',
                Pieces::Rook => '♜',
                Pieces::Bishop => '♝',
                Pieces::Knight => '♞',
                Pieces::Pawn => '♟',
            },
        }
    }
}

} // verus!
