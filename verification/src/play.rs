//! Applying moves, the legality filter, and check and checkmate detection.
use vstd::prelude::*;

use crate::board::{king_square, Board};
use crate::piece::{Color, Piece, Pieces};
use crate::rules::{
    attacks_king, can_move, checkmate, has_legal_move, in_check, legal_move, move_result,
    own_piece_at, pseudo_legal,
};
use crate::square::Coordinate;
use crate::ChessError;

verus! {

broadcast use vstd::seq_lib::group_seq_properties;

/// Whether a list of squares holds the given square.
fn contains_coord(v: &Vec<Coordinate>, c: Coordinate) -> (r: bool)
    ensures
        r == v@.contains(c),
{
    let mut i: usize = 0;
    while i < v.len()
        invariant
            i <= v.len(),
            forall|j: int| 0 <= j < i ==> v@[j] != c,
        decreases v.len() - i,
    {
        if v[i] == c {
            return true;
        }
        i += 1;
    }
    false
}

impl Board {
    /// Relocates the piece on `start` to `target`, returning the piece that
    /// stood on `target`. The origin is cleared; a pawn reaching its last
    /// rank becomes a queen; the en-passant target, castling rights, clocks
    /// and turn are updated as the rules say. A move from an empty square is
    /// refused as `EmptySquare`, one onto a piece of the mover's own color
    /// as `FriendlyOccupied`; a refused move leaves the position unchanged.
    pub fn move_piece(&mut self, start: Coordinate, target: Coordinate) -> (r: Result<
        Option<Piece>,
        ChessError,
    >)
        requires
            old(self)@.wf(),
            target.spec_valid(),
            old(self)@.halfmove_clock < u16::MAX,
            old(self)@.fullmove_number < u16::MAX,
        ensures
            final(self)@.wf(),
            r is Ok <==> can_move(old(self)@, start, target),
            match r {
                Ok(captured) => {
                    &&& captured == old(self)@.piece_at_c(target)
                    &&& final(self)@ == move_result(old(self)@, start, target)
                },
                Err(e) => {
                    &&& final(self)@ == old(self)@
                    &&& (e == ChessError::EmptySquare <==> old(self)@.piece_at_c(start) is None)
                    &&& (e == ChessError::EmptySquare || e == ChessError::FriendlyOccupied)
                },
            },
    {
        let ghost bv = old(self)@;
        let start_piece = match self.get_piece(&start) {
            None => {
                return Err(ChessError::EmptySquare);
            },
            Some(p) => p,
        };
        let old_piece = self.get_piece(&target);
        if let Some(q) = old_piece {
            if q.color == start_piece.color {
                return Err(ChessError::FriendlyOccupied);
            }
        }
        proof {
            assert(start.spec_valid());
        }
        // relocate the piece, clearing the origin; a pawn on its promotion
        // row is replaced by a queen
        let start_idx = start.as_number() as usize;
        self.squares.set(start_idx, None);
        let promo_row: u8 = match start_piece.color {
            Color::White => 0,
            Color::Black => 7,
        };
        let placed = if start_piece.breed == Pieces::Pawn && target.row == promo_row {
            Piece { breed: Pieces::Queen, color: start_piece.color }
        } else {
            start_piece
        };
        let target_idx = target.as_number() as usize;
        self.squares.set(target_idx, Some(placed));
        // the en-passant target: set to the skipped square after a double
        // pawn advance, cleared otherwise
        let row_diff = if start.row > target.row {
            start.row - target.row
        } else {
            target.row - start.row
        };
        if start_piece.breed == Pieces::Pawn && row_diff == 2 {
            self.en_passant_target_sq = Some(
                Coordinate { row: (start.row + target.row) / 2, col: target.col },
            );
        } else {
            self.en_passant_target_sq = None;
        }
        // castling rights: a king move clears both of its color's flags, a
        // rook move from its home corner clears that corner's flag
        if start_piece.breed == Pieces::King {
            if start_piece.color == Color::White {
                self.castling.white_kingside = false;
                self.castling.white_queenside = false;
            } else {
                self.castling.black_kingside = false;
                self.castling.black_queenside = false;
            }
        }
        if start_piece.breed == Pieces::Rook {
            if start_piece.color == Color::White {
                if start.row == 7 && start.col == 0 {
                    self.castling.white_queenside = false;
                } else if start.row == 7 && start.col == 7 {
                    self.castling.white_kingside = false;
                }
            } else {
                if start.row == 0 && start.col == 0 {
                    self.castling.black_queenside = false;
                } else if start.row == 0 && start.col == 7 {
                    self.castling.black_kingside = false;
                }
            }
        }
        // clocks and turn
        self.halfmove_clock = self.halfmove_clock + 1;
        if self.turn == Color::Black {
            self.fullmove_number = self.fullmove_number + 1;
        }
        self.turn = self.turn.other();
        proof {
            assert(final(self)@ =~= move_result(bv, start, target));
        }
        Ok(old_piece)
    }

    /// Whether the given color stands in check: it has a king, and some
    /// opposing piece other than the opposing king has a pseudo-legal move
    /// onto that king's square.
    pub fn is_in_check(&self, color: Color) -> (r: bool)
        requires
            self@.wf(),
        ensures
            r == in_check(self@, color),
    {
        let king_coord = match self.get_king_coord(color) {
            None => {
                proof {
                    assert forall|fr: int, fc: int| !attacks_king(self@, color, fr, fc) by {}
                }
                return false;
            },
            Some(k) => k,
        };
        let mut i: usize = 0;
        while i < 64
            invariant
                self@.wf(),
                i <= 64,
                king_square(self@, color) == Some(king_coord),
                forall|j: int| 0 <= j < i ==> !#[trigger] attacks_king(self@, color, j / 8, j % 8),
            decreases 64 - i,
        {
            match self.squares[i] {
                Some(p) => {
                    if p.color != color && p.breed != Pieces::King {
                        let attacker = Coordinate { row: (i / 8) as u8, col: (i % 8) as u8 };
                        let moves = self.generate_pseudo_legal_moves(attacker);
                        if contains_coord(&moves, king_coord) {
                            proof {
                                assert(attacks_king(self@, color, i as int / 8, i as int % 8));
                            }
                            return true;
                        }
                    }
                },
                None => {},
            }
            i += 1;
        }
        proof {
            assert forall|fr: int, fc: int| !#[trigger] attacks_king(self@, color, fr, fc) by {
                if attacks_king(self@, color, fr, fc) {
                    assert(self@.piece_at(fr, fc) is Some);
                    let j = fr * 8 + fc;
                    assert(0 <= j < 64);
                    assert(j / 8 == fr && j % 8 == fc);
                }
            }
        }
        false
    }

    /// The legal moves of the piece on the given square: its pseudo-legal
    /// moves, except those that would leave its own color in check, each
    /// candidate judged by applying it to an independent copy of the
    /// position. An empty or off-board square yields no moves.
    pub fn generate_moves(&self, coord: Coordinate) -> (r: Result<Vec<Coordinate>, ChessError>)
        requires
            self@.wf(),
            self@.halfmove_clock < u16::MAX,
            self@.fullmove_number < u16::MAX,
        ensures
            match r {
                Ok(moves) => {
                    &&& moves@.no_duplicates()
                    &&& forall|t: Coordinate|
                        #[trigger] moves@.contains(t) <==> legal_move(self@, coord, t)
                },
                Err(_) => false,
            },
    {
        let ghost bv = self@;
        let pseudo = self.generate_pseudo_legal_moves(coord);
        let piece = match self.get_piece(&coord) {
            None => {
                let moves: Vec<Coordinate> = Vec::new();
                return Ok(moves);
            },
            Some(p) => p,
        };
        let color = piece.color;
        let mut legal: Vec<Coordinate> = Vec::new();
        let mut i: usize = 0;
        while i < pseudo.len()
            invariant
                self@ == bv,
                bv.wf(),
                bv.halfmove_clock < u16::MAX,
                bv.fullmove_number < u16::MAX,
                bv.piece_at_c(coord) == Some(piece),
                color == piece.color,
                i <= pseudo.len(),
                pseudo@.no_duplicates(),
                forall|t: Coordinate|
                    #[trigger] pseudo@.contains(t) <==> pseudo_legal(
                        bv,
                        coord.row as int,
                        coord.col as int,
                        t.row as int,
                        t.col as int,
                    ),
                legal@.no_duplicates(),
                forall|t: Coordinate|
                    #[trigger] legal@.contains(t) <==> pseudo@.subrange(0, i as int).contains(t)
                        && legal_move(bv, coord, t),
            decreases pseudo.len() - i,
        {
            let cand = pseudo[i];
            proof {
                assert(pseudo@[i as int] == cand);
                assert(pseudo@.contains(cand));
            }
            let mut sim = self.clone();
            let res = sim.move_piece(coord, cand);
            let keep = match res {
                Ok(_) => !sim.is_in_check(color),
                Err(_) => false,
            };
            if keep {
                proof {
                    assert(legal_move(bv, coord, cand));
                    assert(!pseudo@.subrange(0, i as int).contains(cand)) by {
                        if pseudo@.subrange(0, i as int).contains(cand) {
                            let j = choose|j: int|
                                0 <= j < i && (#[trigger] pseudo@.subrange(0, i as int)[j]) == cand;
                            assert(pseudo@[j] == cand);
                        }
                    }
                    assert(!legal@.contains(cand));
                    crate::movegen::lemma_push_no_dup(legal@, cand);
                }
                legal.push(cand);
            }
            proof {
                assert forall|t: Coordinate|
                    legal@.contains(t) <==> pseudo@.subrange(0, i as int + 1).contains(t)
                        && legal_move(bv, coord, t) by {
                    if pseudo@.subrange(0, i as int + 1).contains(t) {
                        let j = choose|j: int|
                            0 <= j < i + 1 && (#[trigger] pseudo@.subrange(0, i as int + 1)[j]) == t;
                        if j < i {
                            assert(pseudo@.subrange(0, i as int)[j] == t);
                        } else {
                            assert(t == cand);
                        }
                    }
                    if pseudo@.subrange(0, i as int).contains(t) {
                        let j = choose|j: int|
                            0 <= j < i && (#[trigger] pseudo@.subrange(0, i as int)[j]) == t;
                        assert(pseudo@.subrange(0, i as int + 1)[j] == t);
                    }
                    if t == cand {
                        assert(pseudo@.subrange(0, i as int + 1)[i as int] == cand);
                    }
                }
            }
            i += 1;
        }
        proof {
            assert(pseudo@.subrange(0, pseudo@.len() as int) =~= pseudo@);
            assert forall|t: Coordinate|
                legal@.contains(t) <==> legal_move(bv, coord, t) by {
                if legal_move(bv, coord, t) {
                    assert(pseudo_legal(
                        bv,
                        coord.row as int,
                        coord.col as int,
                        t.row as int,
                        t.col as int,
                    ));
                    assert(pseudo@.contains(t));
                }
            }
        }
        Ok(legal)
    }

    /// Whether the given color is checkmated: it has a king, stands in
    /// check, and none of its pieces has any legal move.
    pub fn is_in_checkmate(&self, color: Color) -> (r: bool)
        requires
            self@.wf(),
            self@.halfmove_clock < u16::MAX,
            self@.fullmove_number < u16::MAX,
        ensures
            r == checkmate(self@, color),
    {
        match self.get_king_coord(color) {
            None => {
                return false;
            },
            Some(_) => {},
        }
        if !self.is_in_check(color) {
            return false;
        }
        let mut i: usize = 0;
        while i < 64
            invariant
                self@.wf(),
                self@.halfmove_clock < u16::MAX,
                self@.fullmove_number < u16::MAX,
                i <= 64,
                king_square(self@, color) is Some,
                in_check(self@, color),
                forall|s: Coordinate, t: Coordinate|
                    (s.row as int) * 8 + (s.col as int) < i as int && own_piece_at(self@, color, s)
                        ==> !#[trigger] legal_move(self@, s, t),
            decreases 64 - i,
        {
            match self.squares[i] {
                Some(p) => {
                    if p.color == color {
                        let from = Coordinate { row: (i / 8) as u8, col: (i % 8) as u8 };
                        let moves = match self.generate_moves(from) {
                            Ok(m) => m,
                            Err(_) => unreached(),
                        };
                        if moves.len() > 0 {
                            proof {
                                assert(moves@.contains(moves@[0]));
                                assert(legal_move(self@, from, moves@[0]));
                                assert(own_piece_at(self@, color, from));
                                assert(has_legal_move(self@, color));
                            }
                            return false;
                        }
                        proof {
                            assert forall|t: Coordinate| !#[trigger] legal_move(
                                self@,
                                from,
                                t,
                            ) by {
                                if legal_move(self@, from, t) {
                                    assert(moves@.contains(t));
                                }
                            }
                        }
                    }
                },
                None => {},
            }
            proof {
                assert forall|s: Coordinate, t: Coordinate|
                    (s.row as int) * 8 + (s.col as int) < i as int + 1 && own_piece_at(self@, color, s)
                        implies !legal_move(self@, s, t) by {
                    if (s.row as int) * 8 + (s.col as int) == i as int {
                        assert(s.row as int == i as int / 8 && s.col as int == i as int % 8);
                    }
                }
            }
            i += 1;
        }
        proof {
            assert(!has_legal_move(self@, color)) by {
                if has_legal_move(self@, color) {
                    let (s, t) = choose|s: Coordinate, t: Coordinate|
                        own_piece_at(self@, color, s) && #[trigger] legal_move(self@, s, t);
                    assert(self@.piece_at(s.row as int, s.col as int) is Some);
                    assert((s.row as int) * 8 + (s.col as int) < 64);
                }
            }
        }
        true
    }
}

} // verus!
