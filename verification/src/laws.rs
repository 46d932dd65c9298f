//! General facts about the rules engine, stated and proved once and for
//! all positions: what check does and does not depend on, and how the
//! legality filter discards self-exposing moves.
use vstd::prelude::*;

use crate::board::{first_king_from, king_square, BoardView};
use crate::piece::{Color, Piece, Pieces};
use crate::rules::{
    attacks_king, in_check, knight_reaches, legal_move, move_result, on_board, pseudo_legal,
    slides_to, unit_dir,
};
use crate::square::Coordinate;

verus! {

/// A king found by the scan stands on a valid square of the board, which
/// really holds that king.
proof fn lemma_first_king_props(sq: Seq<Option<Piece>>, color: Color, i: int)
    requires
        sq.len() == 64,
    ensures
        match first_king_from(sq, color, i) {
            Some(k) => k.spec_valid() && sq[k.row as int * 8 + k.col as int] == Some(
                Piece { breed: Pieces::King, color },
            ),
            None => true,
        },
    decreases 64 - i,
{
    if 0 <= i < 64 {
        match sq[i] {
            Some(p) => {
                if !(p.breed == Pieces::King && p.color == color) {
                    lemma_first_king_props(sq, color, i + 1);
                }
            },
            None => {
                lemma_first_king_props(sq, color, i + 1);
            },
        }
    }
}

/// Self-check filtering: when every pseudo-legal move of the piece on
/// `start` would leave its own color in check, the piece has no legal move
/// at all, however many pseudo-legal moves it has.
pub proof fn lemma_self_check_filtering(bv: BoardView, start: Coordinate)
    requires
        forall|t: Coordinate|
            #[trigger] pseudo_legal(
                bv,
                start.row as int,
                start.col as int,
                t.row as int,
                t.col as int,
            ) ==> in_check(move_result(bv, start, t), bv.piece_at_c(start)->Some_0.color),
    ensures
        forall|t: Coordinate| !#[trigger] legal_move(bv, start, t),
{
}

/// A lone king is not in check: on a board where the given color's king is
/// the only piece, that color stands free of check.
pub proof fn lemma_lone_king_not_in_check(bv: BoardView, color: Color)
    requires
        bv.wf(),
        forall|r: int, c: int|
            on_board(r, c) && (#[trigger] bv.piece_at(r, c)) is Some ==> bv.piece_at(r, c)
                == Some(Piece { breed: Pieces::King, color }),
    ensures
        !in_check(bv, color),
{
    assert forall|fr: int, fc: int| !#[trigger] attacks_king(bv, color, fr, fc) by {
        if attacks_king(bv, color, fr, fc) {
            assert(bv.piece_at(fr, fc) is Some);
            assert(on_board(fr, fc));
        }
    }
}

/// A knight gives check regardless of anything standing between: an enemy
/// knight an L-jump away from the king's square puts that king in check.
pub proof fn lemma_knight_gives_check(bv: BoardView, color: Color, k: Coordinate, fr: int, fc: int)
    requires
        bv.wf(),
        king_square(bv, color) == Some(k),
        bv.piece_at(fr, fc) == Some(Piece { breed: Pieces::Knight, color: color.spec_other() }),
        knight_reaches(fr, fc, k.row as int, k.col as int),
    ensures
        in_check(bv, color),
{
    lemma_first_king_props(bv.squares, color, 0);
    assert(attacks_king(bv, color, fr, fc));
}

/// An enemy queen with a clear line to the king gives check: when a rank,
/// file or diagonal runs from the queen to the king's square over empty
/// squares only, that king stands in check.
pub proof fn lemma_queen_clear_line_gives_check(
    bv: BoardView,
    color: Color,
    k: Coordinate,
    fr: int,
    fc: int,
    dr: int,
    dc: int,
)
    requires
        bv.wf(),
        king_square(bv, color) == Some(k),
        bv.piece_at(fr, fc) == Some(Piece { breed: Pieces::Queen, color: color.spec_other() }),
        unit_dir(dr, dc),
        slides_to(bv, fr, fc, dr, dc, k.row as int, k.col as int),
    ensures
        in_check(bv, color),
{
    lemma_first_king_props(bv.squares, color, 0);
    assert(attacks_king(bv, color, fr, fc));
}

} // verus!
