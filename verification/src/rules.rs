//! The movement rules of chess, stated as mathematical predicates over
//! positions. The executable move generator, check detector and move
//! application are specified against these.
use vstd::prelude::*;

use crate::board::{king_square, BoardView, CastlingRights};
use crate::piece::{Color, Piece, Pieces};
use crate::square::Coordinate;

verus! {

/// The magnitude of a difference of rows or columns.
pub open spec fn absi(x: int) -> int {
    if x < 0 {
        -x
    } else {
        x
    }
}

/// True when (row, col) addresses a square of the board.
pub open spec fn on_board(row: int, col: int) -> bool {
    0 <= row < 8 && 0 <= col < 8
}

/// The color holding a square, if any.
pub open spec fn color_at(bv: BoardView, row: int, col: int) -> Option<Color> {
    match bv.piece_at(row, col) {
        Some(p) => Some(p.color),
        None => None,
    }
}

/// True when a piece of the given color may land on (row, col): the square
/// is on the board and does not hold a piece of the same color.
pub open spec fn dest_free_for(bv: BoardView, color: Color, row: int, col: int) -> bool {
    on_board(row, col) && color_at(bv, row, col) != Some(color)
}

/// A unit step: both components in -1..=1 and not both zero.
pub open spec fn unit_dir(dr: int, dc: int) -> bool {
    -1 <= dr <= 1 && -1 <= dc <= 1 && !(dr == 0 && dc == 0)
}

/// True when a slider standing on (fr, fc) reaches (tr, tc) within `n` more
/// steps along direction (dr, dc): the next square of the ray either is the
/// target, or is empty and itself leads to the target.
pub open spec fn slides_to_n(
    bv: BoardView,
    fr: int,
    fc: int,
    dr: int,
    dc: int,
    tr: int,
    tc: int,
    n: nat,
) -> bool
    decreases n,
{
    if n == 0 {
        false
    } else {
        let nr = fr + dr;
        let nc = fc + dc;
        (tr == nr && tc == nc) || (bv.piece_at(nr, nc) is None && slides_to_n(
            bv,
            nr,
            nc,
            dr,
            dc,
            tr,
            tc,
            (n - 1) as nat,
        ))
    }
}

/// True when a slider on (fr, fc) reaches (tr, tc) along direction (dr, dc):
/// stepping outward at most seven times, every square strictly before the
/// target is empty.
pub open spec fn slides_to(
    bv: BoardView,
    fr: int,
    fc: int,
    dr: int,
    dc: int,
    tr: int,
    tc: int,
) -> bool {
    slides_to_n(bv, fr, fc, dr, dc, tr, tc, 7)
}

/// A rook's movement: along the rank or file, over empty squares only.
pub open spec fn rook_reaches(bv: BoardView, fr: int, fc: int, tr: int, tc: int) -> bool {
    ||| slides_to(bv, fr, fc, -1, 0, tr, tc)
    ||| slides_to(bv, fr, fc, 1, 0, tr, tc)
    ||| slides_to(bv, fr, fc, 0, -1, tr, tc)
    ||| slides_to(bv, fr, fc, 0, 1, tr, tc)
}

/// A bishop's movement: along a diagonal, over empty squares only.
pub open spec fn bishop_reaches(bv: BoardView, fr: int, fc: int, tr: int, tc: int) -> bool {
    ||| slides_to(bv, fr, fc, -1, -1, tr, tc)
    ||| slides_to(bv, fr, fc, -1, 1, tr, tc)
    ||| slides_to(bv, fr, fc, 1, -1, tr, tc)
    ||| slides_to(bv, fr, fc, 1, 1, tr, tc)
}

/// A king's movement: to any of the up to eight adjacent squares.
pub open spec fn king_reaches(fr: int, fc: int, tr: int, tc: int) -> bool {
    absi(tr - fr) <= 1 && absi(tc - fc) <= 1 && !(tr == fr && tc == fc)
}

/// A knight's movement: an L-shaped jump, two squares one way and one the
/// other, indifferent to anything standing between.
pub open spec fn knight_reaches(fr: int, fc: int, tr: int, tc: int) -> bool {
    ||| (absi(tr - fr) == 1 && absi(tc - fc) == 2)
    ||| (absi(tr - fr) == 2 && absi(tc - fc) == 1)
}

/// The row direction a pawn of this color advances in: White moves toward
/// row 0, Black toward row 7.
pub open spec fn pawn_dir(color: Color) -> int {
    match color {
        Color::White => -1,
        Color::Black => 1,
    }
}

/// The row a pawn of this color starts on, from which it may advance two.
pub open spec fn pawn_start_row(color: Color) -> int {
    match color {
        Color::White => 6,
        Color::Black => 1,
    }
}

/// The row on which a pawn of this color promotes.
pub open spec fn promo_row(color: Color) -> int {
    match color {
        Color::White => 0,
        Color::Black => 7,
    }
}

/// A pawn's movement: one square forward onto an empty square; two squares
/// forward from its starting row when both squares ahead are empty; or one
/// square diagonally forward onto a square held by the opponent or named as
/// the en-passant target.
pub open spec fn pawn_reaches(
    bv: BoardView,
    color: Color,
    fr: int,
    fc: int,
    tr: int,
    tc: int,
) -> bool {
    let d = pawn_dir(color);
    ||| (tc == fc && tr == fr + d && on_board(tr, tc) && bv.piece_at(tr, tc) is None)
    ||| (tc == fc && fr == pawn_start_row(color) && tr == fr + 2 * d && bv.piece_at(fr + d, fc)
        is None && on_board(tr, tc) && bv.piece_at(tr, tc) is None)
    ||| (absi(tc - fc) == 1 && tr == fr + d && on_board(tr, tc) && (color_at(bv, tr, tc) == Some(
        color.spec_other(),
    ) || bv.en_passant_target_sq == Some(Coordinate { row: tr as u8, col: tc as u8 })))
}

/// A pseudo-legal move: from an occupied square of the board to a square its
/// piece's movement rule reaches, with no regard to whether the mover's own
/// king is left in check.
pub open spec fn pseudo_legal(bv: BoardView, fr: int, fc: int, tr: int, tc: int) -> bool {
    &&& on_board(fr, fc)
    &&& on_board(tr, tc)
    &&& match bv.piece_at(fr, fc) {
        None => false,
        Some(p) => match p.breed {
            Pieces::King => king_reaches(fr, fc, tr, tc) && dest_free_for(bv, p.color, tr, tc),
            Pieces::Queen => (rook_reaches(bv, fr, fc, tr, tc) || bishop_reaches(
                bv,
                fr,
                fc,
                tr,
                tc,
            )) && dest_free_for(bv, p.color, tr, tc),
            Pieces::Rook => rook_reaches(bv, fr, fc, tr, tc) && dest_free_for(
                bv,
                p.color,
                tr,
                tc,
            ),
            Pieces::Bishop => bishop_reaches(bv, fr, fc, tr, tc) && dest_free_for(
                bv,
                p.color,
                tr,
                tc,
            ),
            Pieces::Knight => knight_reaches(fr, fc, tr, tc) && dest_free_for(
                bv,
                p.color,
                tr,
                tc,
            ),
            Pieces::Pawn => pawn_reaches(bv, p.color, fr, fc, tr, tc),
        },
    }
}

/// True when a move from `start` to `target` is accepted at all: the start
/// square holds a piece and the target does not hold a piece of the same
/// color. A move from an empty square is refused as `EmptySquare`, one onto
/// a friendly piece as `FriendlyOccupied`.
pub open spec fn can_move(bv: BoardView, start: Coordinate, target: Coordinate) -> bool {
    match bv.piece_at_c(start) {
        None => false,
        Some(p) => match bv.piece_at_c(target) {
            Some(q) => q.color != p.color,
            None => true,
        },
    }
}

/// The piece that stands on the target after a move: the moved piece, or a
/// queen of the same color when a pawn reaches its promotion row.
pub open spec fn moved_piece(p: Piece, target: Coordinate) -> Piece {
    if p.breed == Pieces::Pawn && target.row as int == promo_row(p.color) {
        Piece { breed: Pieces::Queen, color: p.color }
    } else {
        p
    }
}

/// The en-passant target after a move: the square a pawn skipped when it
/// advanced two rows, and nothing after any other move.
pub open spec fn ep_after(p: Piece, start: Coordinate, target: Coordinate) -> Option<Coordinate> {
    if p.breed == Pieces::Pawn && absi(start.row as int - target.row as int) == 2 {
        Some(
            Coordinate {
                row: ((start.row as int + target.row as int) / 2) as u8,
                col: target.col,
            },
        )
    } else {
        None
    }
}

/// The castling rights after a move: a king's move clears both of its
/// color's flags; a rook's move from its home corner clears that corner's
/// flag; nothing is ever set.
pub open spec fn castling_after(c: CastlingRights, p: Piece, start: Coordinate) -> CastlingRights {
    CastlingRights {
        white_kingside: c.white_kingside && !(p.breed == Pieces::King && p.color == Color::White)
            && !(p.breed == Pieces::Rook && p.color == Color::White && start == Coordinate {
            row: 7,
            col: 7,
        }),
        white_queenside: c.white_queenside && !(p.breed == Pieces::King && p.color == Color::White)
            && !(p.breed == Pieces::Rook && p.color == Color::White && start == Coordinate {
            row: 7,
            col: 0,
        }),
        black_kingside: c.black_kingside && !(p.breed == Pieces::King && p.color == Color::Black)
            && !(p.breed == Pieces::Rook && p.color == Color::Black && start == Coordinate {
            row: 0,
            col: 7,
        }),
        black_queenside: c.black_queenside && !(p.breed == Pieces::King && p.color == Color::Black)
            && !(p.breed == Pieces::Rook && p.color == Color::Black && start == Coordinate {
            row: 0,
            col: 0,
        }),
    }
}

/// The position after relocating the piece on `start` to `target`: the
/// origin is cleared, the target holds the moved piece (a queen after a
/// promotion), the en-passant target and castling rights are updated, the
/// halfmove clock advances, the fullmove number advances after Black's
/// move, and the turn flips. Defined for a `start` square that holds a
/// piece.
pub open spec fn move_result(bv: BoardView, start: Coordinate, target: Coordinate) -> BoardView {
    let p = bv.piece_at_c(start)->Some_0;
    BoardView {
        turn: bv.turn.spec_other(),
        squares: bv.squares.update(start.row as int * 8 + start.col as int, None).update(
            target.row as int * 8 + target.col as int,
            Some(moved_piece(p, target)),
        ),
        en_passant_target_sq: ep_after(p, start, target),
        castling: castling_after(bv.castling, p, start),
        halfmove_clock: bv.halfmove_clock + 1,
        fullmove_number: if bv.turn == Color::Black {
            bv.fullmove_number + 1
        } else {
            bv.fullmove_number
        },
    }
}

/// True when the piece on (fr, fc) is an opposing piece other than the king
/// whose movement rule reaches the given color's king square.
pub open spec fn attacks_king(bv: BoardView, color: Color, fr: int, fc: int) -> bool {
    match king_square(bv, color) {
        None => false,
        Some(k) => match bv.piece_at(fr, fc) {
            Some(p) => p.color != color && p.breed != Pieces::King && pseudo_legal(
                bv,
                fr,
                fc,
                k.row as int,
                k.col as int,
            ),
            None => false,
        },
    }
}

/// A color is in check when it has a king and some opposing piece other
/// than the opposing king has a pseudo-legal move onto that king's square.
pub open spec fn in_check(bv: BoardView, color: Color) -> bool {
    exists|fr: int, fc: int| #[trigger] attacks_king(bv, color, fr, fc)
}

/// A legal move: a pseudo-legal move that the board accepts and that does
/// not leave the mover's own color in check in the resulting position.
pub open spec fn legal_move(bv: BoardView, start: Coordinate, target: Coordinate) -> bool {
    &&& pseudo_legal(bv, start.row as int, start.col as int, target.row as int, target.col as int)
    &&& can_move(bv, start, target)
    &&& !in_check(move_result(bv, start, target), bv.piece_at_c(start)->Some_0.color)
}

/// True when the given square holds a piece of the given color.
pub open spec fn own_piece_at(bv: BoardView, color: Color, s: Coordinate) -> bool {
    match bv.piece_at_c(s) {
        Some(p) => p.color == color,
        None => false,
    }
}

/// True when some piece of the given color has a legal move.
pub open spec fn has_legal_move(bv: BoardView, color: Color) -> bool {
    exists|start: Coordinate, target: Coordinate|
        own_piece_at(bv, color, start) && #[trigger] legal_move(bv, start, target)
}

/// Checkmate: the color has a king, stands in check, and no piece of that
/// color has any legal move.
pub open spec fn checkmate(bv: BoardView, color: Color) -> bool {
    &&& king_square(bv, color) is Some
    &&& in_check(bv, color)
    &&& !has_legal_move(bv, color)
}

} // verus!
