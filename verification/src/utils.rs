//! Rendering help: the board as a grid of characters for a text screen.
use vstd::prelude::*;

use crate::board::{Board, BoardView};
use crate::piece::unicode_of;

verus! {

/// The character drawn for a square: the piece's glyph, or '.' when empty.
pub open spec fn board_char(bv: BoardView, row: int, col: int) -> char {
    match bv.piece_at(row, col) {
        None => '.',
        Some(p) => unicode_of(p.breed, p.color),
    }
}

/// The board as eight rows of eight characters, top rank first: each
/// square's piece glyph, or '.' where the square is empty.
pub fn transform_chess_board_to_strings(chess_board: &Board) -> (r: Vec<Vec<char>>)
    requires
        chess_board@.wf(),
    ensures
        r@.len() == 8,
        forall|i: int| 0 <= i < 8 ==> (#[trigger] r@[i])@.len() == 8,
        forall|i: int, j: int|
            0 <= i < 8 && 0 <= j < 8 ==> (#[trigger] r@[i]@[j]) == board_char(chess_board@, i, j),
{
    let mut rows: Vec<Vec<char>> = Vec::new();
    let mut row: u8 = 0;
    while row < 8
        invariant
            chess_board@.wf(),
            row <= 8,
            rows@.len() == row,
            forall|i: int| 0 <= i < row ==> (#[trigger] rows@[i])@.len() == 8,
            forall|i: int, j: int|
                0 <= i < row && 0 <= j < 8 ==> (#[trigger] rows@[i]@[j]) == board_char(
                    chess_board@,
                    i,
                    j,
                ),
        decreases 8 - row,
    {
        let mut line: Vec<char> = Vec::new();
        let mut col: u8 = 0;
        while col < 8
            invariant
                chess_board@.wf(),
                row < 8,
                col <= 8,
                line@.len() == col,
                forall|j: int|
                    0 <= j < col ==> (#[trigger] line@[j]) == board_char(
                        chess_board@,
                        row as int,
                        j,
                    ),
            decreases 8 - col,
        {
            let c = match chess_board.squares[(row * 8 + col) as usize] {
                None => '.',
                Some(p) => p.breed.to_unicode(p.color),
            };
            line.push(c);
            col += 1;
        }
        rows.push(line);
        row += 1;
    }
    rows
}

} // verus!
