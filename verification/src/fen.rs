//! The FEN codec: printing a position as the six-field Forsyth-Edwards
//! string and parsing such a string back into a position.
//!
//! The six fields, separated by single spaces: piece placement (ranks from
//! the top joined by '/', runs of empty squares collapsed to their count),
//! active color ("w" or "b"), castling rights (a subset of "KQkq", or "-"),
//! the en-passant target square (notation or "-"), the halfmove clock and
//! the fullmove number as decimal integers.
use vstd::prelude::*;

use crate::board::{Board, BoardView, CastlingRights};
use crate::piece::{Color, Piece, Pieces};
use crate::square::{spec_notation, spec_parse_notation, Coordinate};
use crate::text::chars_to_string;
use crate::ChessError;

verus! {

// ---------------------------------------------------------------------
// characters
// ---------------------------------------------------------------------
/// The FEN letter of a piece: "KQRBNP" for White, "kqrbnp" for Black.
pub open spec fn piece_char(p: Piece) -> char {
    match p.color {
        Color::White => match p.breed {
            Pieces::King => 'K',
            Pieces::Queen => 'Q',
            Pieces::Rook => 'R',
            Pieces::Bishop => 'B',
            Pieces::Knight => 'N',
            Pieces::Pawn => 'P',
        },
        Color::Black => match p.breed {
            Pieces::King => 'k',
            Pieces::Queen => 'q',
            Pieces::Rook => 'r',
            Pieces::Bishop => 'b',
            Pieces::Knight => 'n',
            Pieces::Pawn => 'p',
        },
    }
}

/// The piece a FEN letter names, if any: uppercase is White, lowercase is
/// Black.
pub open spec fn char_piece(c: char) -> Option<Piece> {
    if c == 'K' {
        Some(Piece { breed: Pieces::King, color: Color::White })
    } else if c == 'Q' {
        Some(Piece { breed: Pieces::Queen, color: Color::White })
    } else if c == 'R' {
        Some(Piece { breed: Pieces::Rook, color: Color::White })
    } else if c == 'B' {
        Some(Piece { breed: Pieces::Bishop, color: Color::White })
    } else if c == 'N' {
        Some(Piece { breed: Pieces::Knight, color: Color::White })
    } else if c == 'P' {
        Some(Piece { breed: Pieces::Pawn, color: Color::White })
    } else if c == 'k' {
        Some(Piece { breed: Pieces::King, color: Color::Black })
    } else if c == 'q' {
        Some(Piece { breed: Pieces::Queen, color: Color::Black })
    } else if c == 'r' {
        Some(Piece { breed: Pieces::Rook, color: Color::Black })
    } else if c == 'b' {
        Some(Piece { breed: Pieces::Bishop, color: Color::Black })
    } else if c == 'n' {
        Some(Piece { breed: Pieces::Knight, color: Color::Black })
    } else if c == 'p' {
        Some(Piece { breed: Pieces::Pawn, color: Color::Black })
    } else {
        None
    }
}

/// The decimal digit character of a value 0 through 9.
pub open spec fn digit_char(d: int) -> char {
    if d == 0 {
        '0'
    } else if d == 1 {
        '1'
    } else if d == 2 {
        '2'
    } else if d == 3 {
        '3'
    } else if d == 4 {
        '4'
    } else if d == 5 {
        '5'
    } else if d == 6 {
        '6'
    } else if d == 7 {
        '7'
    } else if d == 8 {
        '8'
    } else {
        '9'
    }
}

/// The value of a decimal digit character, if it is one.
pub open spec fn char_digit(c: char) -> Option<u8> {
    if c == '0' {
        Some(0u8)
    } else if c == '1' {
        Some(1u8)
    } else if c == '2' {
        Some(2u8)
    } else if c == '3' {
        Some(3u8)
    } else if c == '4' {
        Some(4u8)
    } else if c == '5' {
        Some(5u8)
    } else if c == '6' {
        Some(6u8)
    } else if c == '7' {
        Some(7u8)
    } else if c == '8' {
        Some(8u8)
    } else if c == '9' {
        Some(9u8)
    } else {
        None
    }
}

/// The FEN letter of the active color.
pub open spec fn color_char(c: Color) -> char {
    match c {
        Color::White => 'w',
        Color::Black => 'b',
    }
}

// ---------------------------------------------------------------------
// printing
// ---------------------------------------------------------------------
/// The characters of one rank of the placement field, from column `col` on,
/// with `run` empty squares already pending: empty squares extend the run,
/// a piece flushes the pending count and prints its letter, and the rank
/// ends by flushing whatever run is left.
pub open spec fn rank_chars(sq: Seq<Option<Piece>>, row: int, col: int, run: int) -> Seq<char>
    decreases 8 - col,
{
    if col < 0 || col >= 8 {
        if run > 0 {
            seq![digit_char(run)]
        } else {
            seq![]
        }
    } else {
        match sq[row * 8 + col] {
            None => rank_chars(sq, row, col + 1, run + 1),
            Some(p) => (if run > 0 {
                seq![digit_char(run)]
            } else {
                seq![]
            }) + seq![piece_char(p)] + rank_chars(sq, row, col + 1, 0),
        }
    }
}

/// The placement field from rank `row` down: ranks joined by '/'.
pub open spec fn placement_chars(sq: Seq<Option<Piece>>, row: int) -> Seq<char>
    decreases 8 - row,
{
    if row < 0 || row >= 7 {
        rank_chars(sq, 7, 0, 0)
    } else {
        rank_chars(sq, row, 0, 0) + seq!['/'] + placement_chars(sq, row + 1)
    }
}

/// The castling field: the letters of the rights still held, in the order
/// K, Q, k, q, or "-" when none is.
pub open spec fn castling_chars(c: CastlingRights) -> Seq<char> {
    if c.is_none() {
        seq!['-']
    } else {
        (if c.white_kingside {
            seq!['K']
        } else {
            seq![]
        }) + (if c.white_queenside {
            seq!['Q']
        } else {
            seq![]
        }) + (if c.black_kingside {
            seq!['k']
        } else {
            seq![]
        }) + (if c.black_queenside {
            seq!['q']
        } else {
            seq![]
        })
    }
}

/// The en-passant field: the target square's name, or "-".
pub open spec fn ep_chars(ep: Option<Coordinate>) -> Seq<char> {
    match ep {
        None => seq!['-'],
        Some(c) => spec_notation(c),
    }
}

/// The decimal digits of a non-negative number, most significant first.
pub open spec fn dec_chars(n: int) -> Seq<char>
    decreases n,
{
    if n < 10 {
        seq![digit_char(n)]
    } else {
        dec_chars(n / 10) + seq![digit_char(n % 10)]
    }
}

/// The FEN string of a position: the six fields joined by single spaces.
pub open spec fn print_fen(bv: BoardView) -> Seq<char> {
    placement_chars(bv.squares, 0) + seq![' '] + seq![color_char(bv.turn)] + seq![' ']
        + castling_chars(bv.castling) + seq![' '] + ep_chars(bv.en_passant_target_sq) + seq![' ']
        + dec_chars(bv.halfmove_clock) + seq![' '] + dec_chars(bv.fullmove_number)
}

// ---------------------------------------------------------------------
// parsing
// ---------------------------------------------------------------------
/// The fields of a string split on every space, as `str::split(' ')` gives
/// them: one more field than there are spaces, fields possibly empty.
pub open spec fn split_spaces(s: Seq<char>) -> Seq<Seq<char>>
    decreases s.len(),
{
    if s.len() == 0 {
        seq![Seq::<char>::empty()]
    } else if s[0] == ' ' {
        seq![Seq::<char>::empty()] + split_spaces(s.skip(1))
    } else {
        let rest = split_spaces(s.skip(1));
        seq![seq![s[0]] + rest[0]] + rest.skip(1)
    }
}

/// A split always yields at least one field.
pub proof fn lemma_split_spaces_len(s: Seq<char>)
    ensures
        split_spaces(s).len() >= 1,
    decreases s.len(),
{
    if s.len() != 0 && s[0] == ' ' {
        lemma_split_spaces_len(s.skip(1));
    }
}

/// The placement field walked from state (row, col) with the pieces placed
/// so far in `acc`: '/' moves to the next rank, a digit skips that many
/// files, a letter places its piece, anything else (and anything that runs
/// off the board) fails.
pub open spec fn parse_placement(
    cs: Seq<char>,
    row: int,
    col: int,
    acc: Seq<Option<Piece>>,
) -> Option<Seq<Option<Piece>>>
    decreases cs.len(),
{
    if cs.len() == 0 {
        Some(acc)
    } else {
        let c = cs[0];
        if c == '/' {
            if row < 7 {
                parse_placement(cs.skip(1), row + 1, 0, acc)
            } else {
                None
            }
        } else {
            match char_digit(c) {
                Some(d) => if col + d <= 8 {
                    parse_placement(cs.skip(1), row, col + d, acc)
                } else {
                    None
                },
                None => match char_piece(c) {
                    Some(p) => if 0 <= row <= 7 && 0 <= col <= 7 {
                        parse_placement(cs.skip(1), row, col + 1, acc.update(row * 8 + col, Some(p)))
                    } else {
                        None
                    },
                    None => None,
                },
            }
        }
    }
}

/// The active-color field: exactly "w" or "b".
pub open spec fn parse_color(cs: Seq<char>) -> Option<Color> {
    if cs.len() == 1 && cs[0] == 'w' {
        Some(Color::White)
    } else if cs.len() == 1 && cs[0] == 'b' {
        Some(Color::Black)
    } else {
        None
    }
}

/// The castling field from position `i` on: each of 'K', 'Q', 'k', 'q'
/// grants its right, '-' grants nothing, anything else fails.
pub open spec fn parse_castling(cs: Seq<char>, i: int, acc: CastlingRights) -> Option<
    CastlingRights,
>
    decreases cs.len() - i,
{
    if i < 0 || i >= cs.len() {
        Some(acc)
    } else {
        let c = cs[i];
        if c == 'K' {
            parse_castling(cs, i + 1, CastlingRights { white_kingside: true, ..acc })
        } else if c == 'Q' {
            parse_castling(cs, i + 1, CastlingRights { white_queenside: true, ..acc })
        } else if c == 'k' {
            parse_castling(cs, i + 1, CastlingRights { black_kingside: true, ..acc })
        } else if c == 'q' {
            parse_castling(cs, i + 1, CastlingRights { black_queenside: true, ..acc })
        } else if c == '-' {
            parse_castling(cs, i + 1, acc)
        } else {
            None
        }
    }
}

/// The en-passant field: "-" for no target, else a square name.
pub open spec fn parse_ep(cs: Seq<char>) -> Option<Option<Coordinate>> {
    if cs.len() == 1 && cs[0] == '-' {
        Some(None)
    } else {
        match spec_parse_notation(cs) {
            Some(c) => Some(Some(c)),
            None => None,
        }
    }
}

/// A clock field folded left to right from the value read so far: a digit
/// extends the value, anything else fails.
pub open spec fn dec_value_go(cs: Seq<char>, acc: int) -> Option<int>
    decreases cs.len(),
{
    if cs.len() == 0 {
        Some(acc)
    } else {
        match char_digit(cs[0]) {
            Some(d) => dec_value_go(cs.skip(1), acc * 10 + d),
            None => None,
        }
    }
}

/// A clock field: one or more decimal digits.
pub open spec fn dec_value(cs: Seq<char>) -> Option<int> {
    if cs.len() == 0 {
        None
    } else {
        dec_value_go(cs, 0)
    }
}

/// The position a FEN string describes, if it is well-formed: exactly six
/// space-separated fields, each read as its section says, with clocks that
/// fit the board's counters.
pub open spec fn parse_fen(s: Seq<char>) -> Option<BoardView> {
    let fields = split_spaces(s);
    if fields.len() != 6 {
        None
    } else {
        let sq = parse_placement(fields[0], 0, 0, Seq::new(64, |i: int| None));
        let turn = parse_color(fields[1]);
        let castling = parse_castling(fields[2], 0, CastlingRights::spec_none());
        let ep = parse_ep(fields[3]);
        let half = dec_value(fields[4]);
        let full = dec_value(fields[5]);
        if sq is Some && turn is Some && castling is Some && ep is Some && half is Some && full
            is Some && 0 <= half->Some_0 <= u16::MAX && 0 <= full->Some_0 <= u16::MAX {
            Some(
                BoardView {
                    turn: turn->Some_0,
                    squares: sq->Some_0,
                    en_passant_target_sq: ep->Some_0,
                    castling: castling->Some_0,
                    halfmove_clock: half->Some_0,
                    fullmove_number: full->Some_0,
                },
            )
        } else {
            None
        }
    }
}

/// The placement parser only ever updates squares of the board, so the
/// square count comes out as it went in.
pub proof fn lemma_parse_placement_len(
    cs: Seq<char>,
    row: int,
    col: int,
    acc: Seq<Option<Piece>>,
)
    requires
        acc.len() == 64,
    ensures
        match parse_placement(cs, row, col, acc) {
            Some(sq) => sq.len() == 64,
            None => true,
        },
    decreases cs.len(),
{
    if cs.len() != 0 {
        let c = cs[0];
        if c == '/' {
            if row < 7 {
                lemma_parse_placement_len(cs.skip(1), row + 1, 0, acc);
            }
        } else {
            match char_digit(c) {
                Some(d) => {
                    if col + d <= 8 {
                        lemma_parse_placement_len(cs.skip(1), row, col + d, acc);
                    }
                },
                None => {
                    match char_piece(c) {
                        Some(p) => {
                            if 0 <= row <= 7 && 0 <= col <= 7 {
                                lemma_parse_placement_len(
                                    cs.skip(1),
                                    row,
                                    col + 1,
                                    acc.update(row * 8 + col, Some(p)),
                                );
                            }
                        },
                        None => {},
                    }
                },
            }
        }
    }
}

} // verus!

verus! {

/// The tail of the placement field after one rank: a '/' and the remaining
/// ranks, or nothing after the last rank.
pub open spec fn rank_rest(sq: Seq<Option<Piece>>, row: int) -> Seq<char> {
    if row < 7 {
        seq!['/'] + placement_chars(sq, row + 1)
    } else {
        seq![]
    }
}

/// The decimal digit character of a value 0 through 9.
fn digit_char_exec(d: u8) -> (c: char)
    requires
        d <= 9,
    ensures
        c == digit_char(d as int),
{
    match d {
        0 => '0',
        1 => '1',
        2 => '2',
        3 => '3',
        4 => '4',
        5 => '5',
        6 => '6',
        7 => '7',
        8 => '8',
        _ => '9',
    }
}

/// The FEN letter of a piece.
fn piece_char_exec(p: Piece) -> (c: char)
    ensures
        c == piece_char(p),
{
    match p.color {
        Color::White => match p.breed {
            Pieces::King => 'K',
            Pieces::Queen => 'Q',
            Pieces::Rook => 'R',
            Pieces::Bishop => 'B',
            Pieces::Knight => 'N',
            Pieces::Pawn => 'P',
        },
        Color::Black => match p.breed {
            Pieces::King => 'k',
            Pieces::Queen => 'q',
            Pieces::Rook => 'r',
            Pieces::Bishop => 'b',
            Pieces::Knight => 'n',
            Pieces::Pawn => 'p',
        },
    }
}

/// Appends the decimal digits of `n`, most significant first.
fn push_dec(out: &mut Vec<char>, n: u16)
    ensures
        final(out)@ == old(out)@ + dec_chars(n as int),
    decreases n,
{
    if n < 10 {
        out.push(digit_char_exec(n as u8));
        assert(final(out)@ =~= old(out)@ + dec_chars(n as int));
    } else {
        push_dec(out, n / 10);
        out.push(digit_char_exec((n % 10) as u8));
        assert(final(out)@ =~= old(out)@ + dec_chars(n as int));
    }
}

impl Board {
    /// The FEN string of this position: piece placement, active color,
    /// castling rights, en-passant target, halfmove clock and fullmove
    /// number, joined by single spaces.
    #[verifier::rlimit(80)]
    pub fn get_fen(&self) -> (r: String)
        requires
            self@.wf(),
        ensures
            r@ == print_fen(self@),
    {
        let ghost bv = self@;
        let mut v: Vec<char> = Vec::new();
        // piece placement: each rank with its empty runs collapsed
        let mut row: u8 = 0;
        while row < 8
            invariant
                self@ == bv,
                bv.wf(),
                row <= 8,
                placement_chars(bv.squares, 0) == v@ + (if row < 8 {
                    placement_chars(bv.squares, row as int)
                } else {
                    Seq::<char>::empty()
                }),
            decreases 8 - row,
        {
            let mut col: u8 = 0;
            let mut run: u8 = 0;
            proof {
                if row < 7 {
                    assert(placement_chars(bv.squares, row as int) =~= rank_chars(
                        bv.squares,
                        row as int,
                        0,
                        0,
                    ) + rank_rest(bv.squares, row as int));
                } else {
                    assert(placement_chars(bv.squares, row as int) =~= rank_chars(
                        bv.squares,
                        row as int,
                        0,
                        0,
                    ) + rank_rest(bv.squares, row as int));
                }
                assert(placement_chars(bv.squares, 0) =~= v@ + rank_chars(
                    bv.squares,
                    row as int,
                    0,
                    0,
                ) + rank_rest(bv.squares, row as int));
            }
            while col < 8
                invariant
                    self@ == bv,
                    bv.wf(),
                    row <= 7,
                    col <= 8,
                    run <= col,
                    placement_chars(bv.squares, 0) == v@ + rank_chars(
                        bv.squares,
                        row as int,
                        col as int,
                        run as int,
                    ) + rank_rest(bv.squares, row as int),
                decreases 8 - col,
            {
                let ghost vpre = v@;
                let ghost col0 = col as int;
                let ghost run0 = run as int;
                let idx = (row * 8 + col) as usize;
                match self.squares[idx] {
                    None => {
                        run = run + 1;
                        col = col + 1;
                        proof {
                            assert(rank_chars(bv.squares, row as int, col0, run0) == rank_chars(
                                bv.squares,
                                row as int,
                                col as int,
                                run as int,
                            ));
                        }
                    },
                    Some(p) => {
                        if run > 0 {
                            v.push(digit_char_exec(run));
                        }
                        v.push(piece_char_exec(p));
                        run = 0;
                        col = col + 1;
                        proof {
                            assert(v@ =~= vpre + (if run0 > 0 {
                                seq![digit_char(run0)]
                            } else {
                                Seq::<char>::empty()
                            }) + seq![piece_char(p)]);
                            assert(rank_chars(bv.squares, row as int, col0, run0) =~= (if run0
                                > 0 {
                                seq![digit_char(run0)]
                            } else {
                                Seq::<char>::empty()
                            }) + seq![piece_char(p)] + rank_chars(
                                bv.squares,
                                row as int,
                                col as int,
                                0,
                            ));
                            assert(placement_chars(bv.squares, 0) =~= v@ + rank_chars(
                                bv.squares,
                                row as int,
                                col as int,
                                run as int,
                            ) + rank_rest(bv.squares, row as int));
                        }
                    },
                }
            }
            let ghost vpre = v@;
            let ghost run0 = run as int;
            if run > 0 {
                v.push(digit_char_exec(run));
            }
            proof {
                assert(rank_chars(bv.squares, row as int, 8, run0) =~= (if run0 > 0 {
                    seq![digit_char(run0)]
                } else {
                    Seq::<char>::empty()
                }));
                assert(placement_chars(bv.squares, 0) =~= v@ + rank_rest(
                    bv.squares,
                    row as int,
                ));
            }
            if row < 7 {
                v.push('/');
                proof {
                    assert(placement_chars(bv.squares, 0) =~= v@ + placement_chars(
                        bv.squares,
                        row as int + 1,
                    ));
                }
            } else {
                proof {
                    assert(placement_chars(bv.squares, 0) =~= v@);
                }
            }
            row = row + 1;
        }
        let ghost s_placement = v@;
        // active color
        v.push(' ');
        v.push(
            match self.turn {
                Color::White => 'w',
                Color::Black => 'b',
            },
        );
        v.push(' ');
        // castling rights
        let ghost s_castling_start = v@;
        let c = self.castling;
        if !c.white_kingside && !c.white_queenside && !c.black_kingside && !c.black_queenside {
            v.push('-');
        } else {
            if c.white_kingside {
                v.push('K');
            }
            if c.white_queenside {
                v.push('Q');
            }
            if c.black_kingside {
                v.push('k');
            }
            if c.black_queenside {
                v.push('q');
            }
        }
        proof {
            assert(v@ =~= s_castling_start + castling_chars(bv.castling));
        }
        v.push(' ');
        // en-passant target
        let ghost s_ep_start = v@;
        match self.en_passant_target_sq {
            None => {
                v.push('-');
            },
            Some(t) => {
                v.push(crate::square::file_char_exec(t.col));
                v.push(crate::square::rank_char_exec(t.row));
            },
        }
        proof {
            assert(v@ =~= s_ep_start + ep_chars(bv.en_passant_target_sq));
        }
        v.push(' ');
        // clocks
        push_dec(&mut v, self.halfmove_clock);
        v.push(' ');
        push_dec(&mut v, self.fullmove_number);
        proof {
            assert(v@ =~= print_fen(bv));
        }
        chars_to_string(&v)
    }
}

} // verus!

verus! {

/// A list of fields with `p` glued onto the front of the first one.
pub open spec fn cons_head(p: Seq<char>, l: Seq<Seq<char>>) -> Seq<Seq<char>> {
    seq![p + l[0]] + l.skip(1)
}

/// Splits a character vector on every space, as the specification splits
/// the string.
fn split_fields(v: &Vec<char>) -> (fields: Vec<Vec<char>>)
    ensures
        fields@.len() == split_spaces(v@).len(),
        forall|k: int| 0 <= k < fields@.len() ==> #[trigger] fields@[k]@ == split_spaces(v@)[k],
{
    let mut fields: Vec<Vec<char>> = Vec::new();
    let mut cur: Vec<char> = Vec::new();
    let ghost mut done: Seq<Seq<char>> = Seq::empty();
    let mut i: usize = 0;
    proof {
        lemma_split_spaces_len(v@);
        assert(v@.skip(0) =~= v@);
        assert(cons_head(Seq::<char>::empty(), split_spaces(v@)) =~= split_spaces(v@));
        assert(done + cons_head(cur@, split_spaces(v@.skip(0))) =~= split_spaces(v@));
    }
    while i < v.len()
        invariant
            i <= v.len(),
            done.len() == fields@.len(),
            forall|k: int| 0 <= k < done.len() ==> #[trigger] fields@[k]@ == done[k],
            split_spaces(v@) == done + cons_head(cur@, split_spaces(v@.skip(i as int))),
        decreases v.len() - i,
    {
        let ghost rest = split_spaces(v@.skip(i as int));
        let ghost rest1 = split_spaces(v@.skip(i as int + 1));
        proof {
            lemma_split_spaces_len(v@.skip(i as int + 1));
        }
        let c = v[i];
        proof {
            assert(v@.skip(i as int)[0] == c);
            assert(v@.skip(i as int).skip(1) =~= v@.skip(i as int + 1));
        }
        if c == ' ' {
            proof {
                assert(rest =~= seq![Seq::<char>::empty()] + rest1);
                assert(cons_head(cur@, rest) =~= seq![cur@] + rest1);
                assert(cons_head(Seq::<char>::empty(), rest1) =~= rest1);
                done = done + seq![cur@];
                assert(split_spaces(v@) =~= done + cons_head(Seq::<char>::empty(), rest1));
            }
            let full = cur;
            cur = Vec::new();
            fields.push(full);
        } else {
            proof {
                assert(rest =~= seq![seq![c] + rest1[0]] + rest1.skip(1));
                assert(cur@ + (seq![c] + rest1[0]) =~= cur@.push(c) + rest1[0]);
                assert(cons_head(cur@, rest) =~= cons_head(cur@.push(c), rest1));
            }
            cur.push(c);
        }
        i += 1;
    }
    proof {
        assert(v@.skip(v@.len() as int) =~= Seq::<char>::empty());
        assert(split_spaces(v@.skip(v@.len() as int)) =~= seq![Seq::<char>::empty()]);
        assert(cons_head(cur@, seq![Seq::<char>::empty()]) =~= seq![cur@]);
        assert(split_spaces(v@) =~= done + seq![cur@]);
    }
    fields.push(cur);
    fields
}

/// The value of a decimal digit character, if it is one.
fn char_digit_exec(c: char) -> (r: Option<u8>)
    ensures
        r == char_digit(c),
{
    match c {
        '0' => Some(0),
        '1' => Some(1),
        '2' => Some(2),
        '3' => Some(3),
        '4' => Some(4),
        '5' => Some(5),
        '6' => Some(6),
        '7' => Some(7),
        '8' => Some(8),
        '9' => Some(9),
        _ => None,
    }
}

/// The piece a FEN letter names, if any.
fn char_piece_exec(c: char) -> (r: Option<Piece>)
    ensures
        r == char_piece(c),
{
    match c {
        'K' => Some(Piece { breed: Pieces::King, color: Color::White }),
        'Q' => Some(Piece { breed: Pieces::Queen, color: Color::White }),
        'R' => Some(Piece { breed: Pieces::Rook, color: Color::White }),
        'B' => Some(Piece { breed: Pieces::Bishop, color: Color::White }),
        'N' => Some(Piece { breed: Pieces::Knight, color: Color::White }),
        'P' => Some(Piece { breed: Pieces::Pawn, color: Color::White }),
        'k' => Some(Piece { breed: Pieces::King, color: Color::Black }),
        'q' => Some(Piece { breed: Pieces::Queen, color: Color::Black }),
        'r' => Some(Piece { breed: Pieces::Rook, color: Color::Black }),
        'b' => Some(Piece { breed: Pieces::Bishop, color: Color::Black }),
        'n' => Some(Piece { breed: Pieces::Knight, color: Color::Black }),
        'p' => Some(Piece { breed: Pieces::Pawn, color: Color::Black }),
        _ => None,
    }
}

/// Reads the placement field into a 64-square list.
fn parse_placement_field(cs: &Vec<char>) -> (r: Result<Vec<Option<Piece>>, ChessError>)
    ensures
        match r {
            Ok(v) => parse_placement(cs@, 0, 0, Seq::new(64, |i: int| None)) == Some(v@),
            Err(e) => parse_placement(cs@, 0, 0, Seq::new(64, |i: int| None)) is None && e
                == ChessError::InvalidFen,
        },
{
    let mut acc: Vec<Option<Piece>> = Vec::new();
    let mut j: usize = 0;
    while j < 64
        invariant
            j <= 64,
            acc@ =~= Seq::new(j as nat, |i: int| None),
        decreases 64 - j,
    {
        acc.push(None);
        j += 1;
    }
    let mut row: u8 = 0;
    let mut col: u8 = 0;
    let mut i: usize = 0;
    proof {
        assert(cs@.skip(0) =~= cs@);
    }
    while i < cs.len()
        invariant
            i <= cs.len(),
            row <= 7,
            col <= 8,
            acc@.len() == 64,
            parse_placement(cs@, 0, 0, Seq::new(64, |k: int| None)) == parse_placement(
                cs@.skip(i as int),
                row as int,
                col as int,
                acc@,
            ),
        decreases cs.len() - i,
    {
        let c = cs[i];
        proof {
            assert(cs@.skip(i as int)[0] == c);
            assert(cs@.skip(i as int).skip(1) =~= cs@.skip(i as int + 1));
        }
        if c == '/' {
            if row < 7 {
                row = row + 1;
                col = 0;
            } else {
                return Err(ChessError::InvalidFen);
            }
        } else {
            match char_digit_exec(c) {
                Some(d) => {
                    if col + d <= 8 {
                        col = col + d;
                    } else {
                        return Err(ChessError::InvalidFen);
                    }
                },
                None => {
                    match char_piece_exec(c) {
                        Some(p) => {
                            if col <= 7 {
                                acc.set((row as usize) * 8 + col as usize, Some(p));
                                col = col + 1;
                            } else {
                                return Err(ChessError::InvalidFen);
                            }
                        },
                        None => {
                            return Err(ChessError::InvalidFen);
                        },
                    }
                },
            }
        }
        i += 1;
    }
    proof {
        assert(cs@.skip(cs@.len() as int) =~= Seq::<char>::empty());
    }
    Ok(acc)
}

/// Reads the castling field.
fn parse_castling_field(cs: &Vec<char>) -> (r: Result<CastlingRights, ChessError>)
    ensures
        match r {
            Ok(c) => parse_castling(cs@, 0, CastlingRights::spec_none()) == Some(c),
            Err(e) => parse_castling(cs@, 0, CastlingRights::spec_none()) is None && e
                == ChessError::InvalidFen,
        },
{
    let mut acc = CastlingRights {
        white_kingside: false,
        white_queenside: false,
        black_kingside: false,
        black_queenside: false,
    };
    let mut i: usize = 0;
    while i < cs.len()
        invariant
            i <= cs.len(),
            parse_castling(cs@, 0, CastlingRights::spec_none()) == parse_castling(
                cs@,
                i as int,
                acc,
            ),
        decreases cs.len() - i,
    {
        let c = cs[i];
        if c == 'K' {
            acc.white_kingside = true;
        } else if c == 'Q' {
            acc.white_queenside = true;
        } else if c == 'k' {
            acc.black_kingside = true;
        } else if c == 'q' {
            acc.black_queenside = true;
        } else if c == '-' {
        } else {
            return Err(ChessError::InvalidFen);
        }
        i += 1;
    }
    Ok(acc)
}

/// Reads a clock field as a decimal number that fits the board's counters.
fn parse_clock_field(cs: &Vec<char>) -> (r: Result<u16, ChessError>)
    ensures
        match r {
            Ok(n) => dec_value(cs@) == Some(n as int),
            Err(e) => {
                &&& match dec_value(cs@) {
                    Some(v) => !(0 <= v <= u16::MAX),
                    None => true,
                }
                &&& e == ChessError::InvalidFen
            },
        },
{
    if cs.len() == 0 {
        return Err(ChessError::InvalidFen);
    }
    let mut acc: u32 = 0;
    let mut i: usize = 0;
    proof {
        assert(cs@.skip(0) =~= cs@);
    }
    while i < cs.len()
        invariant
            i <= cs.len(),
            cs@.len() > 0,
            acc <= u16::MAX,
            dec_value(cs@) == dec_value_go(cs@.skip(i as int), acc as int),
        decreases cs.len() - i,
    {
        let c = cs[i];
        proof {
            assert(cs@.skip(i as int)[0] == c);
            assert(cs@.skip(i as int).skip(1) =~= cs@.skip(i as int + 1));
        }
        match char_digit_exec(c) {
            Some(d) => {
                acc = acc * 10 + d as u32;
                if acc > u16::MAX as u32 {
                    proof {
                        lemma_dec_go_min(cs@.skip(i as int + 1), acc as int);
                    }
                    return Err(ChessError::InvalidFen);
                }
            },
            None => {
                return Err(ChessError::InvalidFen);
            },
        }
        i += 1;
    }
    proof {
        assert(cs@.skip(cs@.len() as int) =~= Seq::<char>::empty());
    }
    Ok(acc as u16)
}

/// A left fold over more digits never shrinks the value read so far.
proof fn lemma_dec_go_min(cs: Seq<char>, acc: int)
    requires
        acc >= 0,
    ensures
        match dec_value_go(cs, acc) {
            Some(v) => v >= acc,
            None => true,
        },
    decreases cs.len(),
{
    if cs.len() != 0 {
        match char_digit(cs[0]) {
            Some(d) => {
                lemma_dec_go_min(cs.skip(1), acc * 10 + d);
            },
            None => {},
        }
    }
}

impl Board {
    /// Loads a FEN string into this board. A malformed string - anything
    /// but six space-separated fields read as the format says - is refused
    /// as `InvalidFen` and leaves the board reset to the empty position.
    pub fn load_fen(&mut self, fen: &str) -> (r: Result<(), ChessError>)
        ensures
            final(self)@.wf(),
            match parse_fen(fen@) {
                Some(bv) => r is Ok && final(self)@ == bv,
                None => r == Err::<(), ChessError>(ChessError::InvalidFen) && final(self)@
                    == BoardView::empty(),
            },
    {
        self.reset();
        let chars = crate::text::str_to_chars(fen);
        let fields = split_fields(&chars);
        if fields.len() != 6 {
            return Err(ChessError::InvalidFen);
        }
        let squares = match parse_placement_field(&fields[0]) {
            Ok(s) => s,
            Err(e) => {
                return Err(e);
            },
        };
        let f1 = &fields[1];
        let turn = if f1.len() == 1 && f1[0] == 'w' {
            Color::White
        } else if f1.len() == 1 && f1[0] == 'b' {
            Color::Black
        } else {
            return Err(ChessError::InvalidFen);
        };
        let castling = match parse_castling_field(&fields[2]) {
            Ok(c) => c,
            Err(e) => {
                return Err(e);
            },
        };
        let f3 = &fields[3];
        let ep: Option<Coordinate> = if f3.len() == 1 && f3[0] == '-' {
            None
        } else if f3.len() == 2 {
            let fi = crate::square::file_index_exec(f3[0]);
            let ri = crate::square::rank_index_exec(f3[1]);
            match (fi, ri) {
                (Some(fcol), Some(frow)) => Some(Coordinate { row: frow, col: fcol }),
                _ => {
                    return Err(ChessError::InvalidFen);
                },
            }
        } else {
            return Err(ChessError::InvalidFen);
        };
        let half = match parse_clock_field(&fields[4]) {
            Ok(n) => n,
            Err(e) => {
                return Err(e);
            },
        };
        let full = match parse_clock_field(&fields[5]) {
            Ok(n) => n,
            Err(e) => {
                return Err(e);
            },
        };
        self.turn = turn;
        self.squares = squares;
        self.en_passant_target_sq = ep;
        self.castling = castling;
        self.halfmove_clock = half;
        self.fullmove_number = full;
        proof {
            lemma_parse_placement_len(fields@[0]@, 0, 0, Seq::new(64, |k: int| None));
            assert(parse_fen(fen@) is Some);
            assert(final(self)@ =~= parse_fen(fen@)->Some_0);
        }
        Ok(())
    }

    /// The board a FEN string describes; a malformed string is refused as
    /// `InvalidFen`.
    pub fn from_fen(fen: &str) -> (r: Result<Board, ChessError>)
        ensures
            match parse_fen(fen@) {
                Some(bv) => match r {
                    Ok(b) => b@ == bv && b@.wf(),
                    Err(_) => false,
                },
                None => r == Err::<Board, ChessError>(ChessError::InvalidFen),
            },
    {
        let mut board = Board::new();
        match board.load_fen(fen) {
            Ok(_) => Ok(board),
            Err(e) => Err(e),
        }
    }
}

} // verus!

verus! {

// ---------------------------------------------------------------------
// the round trip: parsing what was printed gives the position back
// ---------------------------------------------------------------------
/// The parser's board agrees with the printed board on every square before
/// `bound` and is still untouched (empty) from `bound` on.
spec fn agrees_upto(acc: Seq<Option<Piece>>, sq: Seq<Option<Piece>>, bound: int) -> bool {
    &&& forall|k: int| 0 <= k < 64 && k < bound ==> (#[trigger] acc[k]) == sq[k]
    &&& forall|k: int| 0 <= k < 64 && k >= bound ==> (#[trigger] acc[k]) is None
}

/// A decimal digit character is read back as the digit it prints.
proof fn lemma_digit_char_roundtrip(d: int)
    requires
        0 <= d <= 9,
    ensures
        char_digit(digit_char(d)) == Some(d as u8),
{
}

/// A piece letter is read back as the piece it prints.
proof fn lemma_piece_char_roundtrip(p: Piece)
    ensures
        char_piece(piece_char(p)) == Some(p),
{
}

/// Reading one printed rank carries the parser from the rank's start to its
/// end, filling in exactly the printed squares.
proof fn lemma_rank_roundtrip(
    sq: Seq<Option<Piece>>,
    row: int,
    col: int,
    run: int,
    acc: Seq<Option<Piece>>,
    tail: Seq<char>,
) -> (acc2: Seq<Option<Piece>>)
    requires
        sq.len() == 64,
        acc.len() == 64,
        0 <= row <= 7,
        0 <= run <= col <= 8,
        agrees_upto(acc, sq, row * 8 + col - run),
        forall|j: int| col - run <= j < col ==> (#[trigger] sq[row * 8 + j]) is None,
    ensures
        acc2.len() == 64,
        agrees_upto(acc2, sq, row * 8 + 8),
        parse_placement(rank_chars(sq, row, col, run) + tail, row, col - run, acc)
            == parse_placement(tail, row, 8, acc2),
    decreases 8 - col,
{
    if col >= 8 {
        assert forall|k: int| 0 <= k < 64 && k < row * 8 + 8 implies (#[trigger] acc[k])
            == sq[k] by {
            if k >= row * 8 + col - run {
                let j = k - row * 8;
                assert(col - run <= j < col);
                assert(sq[row * 8 + j] is None);
                assert(acc[k] is None);
            }
        }
        if run > 0 {
            let chars = rank_chars(sq, row, col, run);
            assert(chars =~= seq![digit_char(run)]);
            let s = chars + tail;
            assert(s[0] == digit_char(run));
            lemma_digit_char_roundtrip(run);
            assert(s.skip(1) =~= tail);
            assert(parse_placement(s, row, col - run, acc) == parse_placement(
                tail,
                row,
                8,
                acc,
            ));
        } else {
            let s = rank_chars(sq, row, col, run) + tail;
            assert(s =~= tail);
        }
        acc
    } else {
        match sq[row * 8 + col] {
            None => {
                assert(rank_chars(sq, row, col, run) == rank_chars(sq, row, col + 1, run + 1));
                let acc2 = lemma_rank_roundtrip(sq, row, col + 1, run + 1, acc, tail);
                acc2
            },
            Some(p) => {
                let flush: Seq<char> = if run > 0 {
                    seq![digit_char(run)]
                } else {
                    seq![]
                };
                let rest_chars = rank_chars(sq, row, col + 1, 0);
                let chars = rank_chars(sq, row, col, run);
                assert(chars =~= flush + seq![piece_char(p)] + rest_chars);
                let s1 = seq![piece_char(p)] + (rest_chars + tail);
                let s = chars + tail;
                assert(s =~= flush + s1);
                if run > 0 {
                    assert(s[0] == digit_char(run));
                    lemma_digit_char_roundtrip(run);
                    assert(s.skip(1) =~= s1);
                    assert(parse_placement(s, row, col - run, acc) == parse_placement(
                        s1,
                        row,
                        col,
                        acc,
                    ));
                } else {
                    assert(s =~= s1);
                }
                // the piece letter places the piece and advances one file
                assert(s1[0] == piece_char(p));
                lemma_piece_char_roundtrip(p);
                let accp = acc.update(row * 8 + col, Some(p));
                assert(s1.skip(1) =~= rest_chars + tail);
                assert(parse_placement(s1, row, col, acc) == parse_placement(
                    rest_chars + tail,
                    row,
                    col + 1,
                    accp,
                ));
                assert(agrees_upto(accp, sq, row * 8 + col + 1)) by {
                    assert forall|k: int| 0 <= k < 64 && k < row * 8 + col + 1 implies (
                    #[trigger] accp[k]) == sq[k] by {
                        if k < row * 8 + col - run {
                        } else if k == row * 8 + col {
                        } else {
                            let j = k - row * 8;
                            assert(col - run <= j < col);
                            assert(sq[row * 8 + j] is None);
                            assert(acc[k] is None);
                        }
                    }
                }
                let acc2 = lemma_rank_roundtrip(sq, row, col + 1, 0, accp, tail);
                acc2
            },
        }
    }
}

/// Reading the printed placement from some rank on carries the parser to
/// the end of the board, reproducing every printed square.
proof fn lemma_placement_roundtrip(
    sq: Seq<Option<Piece>>,
    row: int,
    acc: Seq<Option<Piece>>,
    tail: Seq<char>,
) -> (acc2: Seq<Option<Piece>>)
    requires
        sq.len() == 64,
        acc.len() == 64,
        0 <= row <= 7,
        agrees_upto(acc, sq, row * 8),
    ensures
        acc2.len() == 64,
        agrees_upto(acc2, sq, 64),
        parse_placement(placement_chars(sq, row) + tail, row, 0, acc) == parse_placement(
            tail,
            7,
            8,
            acc2,
        ),
    decreases 7 - row,
{
    if row >= 7 {
        let acc2 = lemma_rank_roundtrip(sq, 7, 0, 0, acc, tail);
        acc2
    } else {
        let mid = seq!['/'] + (placement_chars(sq, row + 1) + tail);
        assert(placement_chars(sq, row) + tail =~= rank_chars(sq, row, 0, 0) + mid);
        let acc1 = lemma_rank_roundtrip(sq, row, 0, 0, acc, mid);
        assert(mid[0] == '/');
        assert(mid.skip(1) =~= placement_chars(sq, row + 1) + tail);
        assert(parse_placement(mid, row, 8, acc1) == parse_placement(
            placement_chars(sq, row + 1) + tail,
            row + 1,
            0,
            acc1,
        ));
        let acc2 = lemma_placement_roundtrip(sq, row + 1, acc1, tail);
        acc2
    }
}

/// No character of a printed rank is a space.
proof fn lemma_rank_no_space(sq: Seq<Option<Piece>>, row: int, col: int, run: int)
    ensures
        !rank_chars(sq, row, col, run).contains(' '),
    decreases 8 - col,
{
    broadcast use vstd::seq_lib::group_seq_properties;

    if col < 0 || col >= 8 {
    } else {
        match sq[row * 8 + col] {
            None => {
                lemma_rank_no_space(sq, row, col + 1, run + 1);
            },
            Some(p) => {
                lemma_rank_no_space(sq, row, col + 1, 0);
                let flush: Seq<char> = if run > 0 {
                    seq![digit_char(run)]
                } else {
                    seq![]
                };
                assert(!flush.contains(' '));
                assert(!seq![piece_char(p)].contains(' '));
            },
        }
    }
}

/// No character of the printed placement field is a space.
proof fn lemma_placement_no_space(sq: Seq<Option<Piece>>, row: int)
    ensures
        !placement_chars(sq, row).contains(' '),
    decreases 8 - row,
{
    broadcast use vstd::seq_lib::group_seq_properties;

    if row < 0 || row >= 7 {
        lemma_rank_no_space(sq, 7, 0, 0);
    } else {
        lemma_rank_no_space(sq, row, 0, 0);
        lemma_placement_no_space(sq, row + 1);
        assert(!seq!['/'].contains(' '));
    }
}

/// No character of a printed clock is a space.
proof fn lemma_dec_no_space(n: int)
    ensures
        !dec_chars(n).contains(' '),
    decreases n,
{
    broadcast use vstd::seq_lib::group_seq_properties;

    if n < 10 {
        assert(!seq![digit_char(n)].contains(' '));
    } else {
        lemma_dec_no_space(n / 10);
        assert(!seq![digit_char(n % 10)].contains(' '));
    }
}

/// No character of the printed castling field is a space.
proof fn lemma_castling_no_space(c: CastlingRights)
    ensures
        !castling_chars(c).contains(' '),
{
    broadcast use vstd::seq_lib::group_seq_properties;

}

/// No character of the printed en-passant field is a space.
proof fn lemma_ep_no_space(ep: Option<Coordinate>)
    ensures
        !ep_chars(ep).contains(' '),
{
}

/// Splitting a space-free prefix glues it onto the first field of the rest.
proof fn lemma_split_nosep(a: Seq<char>, rest: Seq<char>)
    requires
        !a.contains(' '),
    ensures
        split_spaces(a + rest) == cons_head(a, split_spaces(rest)),
    decreases a.len(),
{
    broadcast use vstd::seq_lib::group_seq_properties;

    lemma_split_spaces_len(rest);
    if a.len() == 0 {
        assert(a + rest =~= rest);
        assert(a + split_spaces(rest)[0] =~= split_spaces(rest)[0]);
        assert(cons_head(a, split_spaces(rest)) =~= split_spaces(rest));
    } else {
        assert(a.contains(a[0])) by {
            assert(a[0] == a[0]);
        }
        assert(a[0] != ' ');
        let s = a + rest;
        assert(s[0] == a[0]);
        assert(s.len() > 0);
        assert(s.skip(1) =~= a.skip(1) + rest);
        assert(!a.skip(1).contains(' ')) by {
            if a.skip(1).contains(' ') {
                let j = choose|j: int| 0 <= j < a.skip(1).len() && a.skip(1)[j] == ' ';
                assert(a[j + 1] == ' ');
            }
        }
        lemma_split_nosep(a.skip(1), rest);
        let r = split_spaces(rest);
        let r1 = split_spaces(a.skip(1) + rest);
        assert(r1 == cons_head(a.skip(1), r));
        assert(r1[0] == a.skip(1) + r[0]);
        assert(split_spaces(s) == seq![seq![s[0]] + r1[0]] + r1.skip(1));
        assert(seq![a[0]] + (a.skip(1) + r[0]) =~= a + r[0]);
        assert(r1.skip(1) =~= r.skip(1));
        assert(split_spaces(s) =~= cons_head(a, r));
    }
}

/// Splitting a space-free field followed by a space glues nothing: the
/// field comes out whole, followed by the split of what comes after the
/// space.
proof fn lemma_split_field(field: Seq<char>, x: Seq<char>)
    requires
        !field.contains(' '),
    ensures
        split_spaces(field + (seq![' '] + x)) == seq![field] + split_spaces(x),
{
    broadcast use vstd::seq_lib::group_seq_properties;

    let t = seq![' '] + x;
    assert(t[0] == ' ');
    assert(t.skip(1) =~= x);
    assert(split_spaces(t) == seq![Seq::<char>::empty()] + split_spaces(x));
    lemma_split_nosep(field, t);
    lemma_split_spaces_len(x);
    assert(field + (seq![Seq::<char>::empty()] + split_spaces(x))[0] =~= field);
    assert((seq![Seq::<char>::empty()] + split_spaces(x)).skip(1) =~= split_spaces(x));
    assert(cons_head(field, split_spaces(t)) =~= seq![field] + split_spaces(x));
}

/// Splitting a single space-free field yields just that field.
proof fn lemma_split_alone(field: Seq<char>)
    requires
        !field.contains(' '),
    ensures
        split_spaces(field) == seq![field],
{
    broadcast use vstd::seq_lib::group_seq_properties;

    lemma_split_nosep(field, Seq::empty());
    assert(field + Seq::<char>::empty() =~= field);
    assert(split_spaces(Seq::<char>::empty()) == seq![Seq::<char>::empty()]);
    assert(field + seq![Seq::<char>::empty()][0] =~= field);
    assert(seq![Seq::<char>::empty()].skip(1) =~= Seq::<Seq<char>>::empty());
    assert(cons_head(field, seq![Seq::<char>::empty()]) =~= seq![field]);
}

/// Splitting six space-free fields joined by single spaces yields exactly
/// those six fields.
#[verifier::rlimit(80)]
proof fn lemma_split_six(
    a: Seq<char>,
    b: Seq<char>,
    c: Seq<char>,
    d: Seq<char>,
    e: Seq<char>,
    f: Seq<char>,
)
    requires
        !a.contains(' '),
        !b.contains(' '),
        !c.contains(' '),
        !d.contains(' '),
        !e.contains(' '),
        !f.contains(' '),
    ensures
        split_spaces(
            a + seq![' '] + b + seq![' '] + c + seq![' '] + d + seq![' '] + e + seq![' '] + f,
        ) == seq![a, b, c, d, e, f],
{
    broadcast use vstd::seq_lib::group_seq_properties;

    let sp = seq![' '];
    let x4 = e + (sp + f);
    let x3 = d + (sp + x4);
    let x2 = c + (sp + x3);
    let x1 = b + (sp + x2);
    let x0 = a + (sp + x1);
    lemma_split_alone(f);
    lemma_split_field(e, f);
    assert(split_spaces(x4) =~= seq![e, f]);
    lemma_split_field(d, x4);
    assert(split_spaces(x3) =~= seq![d, e, f]);
    lemma_split_field(c, x3);
    assert(split_spaces(x2) =~= seq![c, d, e, f]);
    lemma_split_field(b, x2);
    assert(split_spaces(x1) =~= seq![b, c, d, e, f]);
    lemma_split_field(a, x1);
    assert(split_spaces(x0) =~= seq![a, b, c, d, e, f]);
    assert(a + seq![' '] + b + seq![' '] + c + seq![' '] + d + seq![' '] + e + seq![' '] + f
        =~= x0);
}

} // verus!

verus! {

/// The printed castling field is read back as the rights it printed.
proof fn lemma_castling_roundtrip(c: CastlingRights)
    ensures
        parse_castling(castling_chars(c), 0, CastlingRights::spec_none()) == Some(c),
{
    assert(parse_castling(castling_chars(c), 0, CastlingRights::spec_none()) == Some(c)) by {
        reveal_with_fuel(parse_castling, 6);
    }
}

/// Folding the digits of `a` and then of `b` is folding the digits of their
/// concatenation.
proof fn lemma_dec_go_append(a: Seq<char>, b: Seq<char>, acc: int)
    requires
        dec_value_go(a, acc) is Some,
    ensures
        dec_value_go(a + b, acc) == dec_value_go(b, dec_value_go(a, acc)->Some_0),
    decreases a.len(),
{
    if a.len() == 0 {
        assert(a + b =~= b);
    } else {
        match char_digit(a[0]) {
            Some(d) => {
                assert((a + b)[0] == a[0]);
                assert((a + b).skip(1) =~= a.skip(1) + b);
                lemma_dec_go_append(a.skip(1), b, acc * 10 + d);
            },
            None => {},
        }
    }
}

/// A printed clock is read back as the number it printed.
proof fn lemma_dec_roundtrip(n: int)
    requires
        n >= 0,
    ensures
        dec_value(dec_chars(n)) == Some(n),
    decreases n,
{
    if n < 10 {
        let cs = dec_chars(n);
        assert(cs =~= seq![digit_char(n)]);
        lemma_digit_char_roundtrip(n);
        assert(cs.skip(1) =~= Seq::<char>::empty());
        assert(dec_value_go(Seq::<char>::empty(), 0 * 10 + n) == Some(n));
        assert(dec_value_go(cs, 0) == Some(n));
    } else {
        lemma_dec_roundtrip(n / 10);
        let hi = dec_chars(n / 10);
        let lo = seq![digit_char(n % 10)];
        assert(hi.len() > 0);
        lemma_dec_go_append(hi, lo, 0);
        lemma_digit_char_roundtrip(n % 10);
        assert(lo.skip(1) =~= Seq::<char>::empty());
        assert(dec_value_go(Seq::<char>::empty(), (n / 10) * 10 + (n % 10)) == Some(
            (n / 10) * 10 + (n % 10),
        ));
        assert(dec_value_go(lo, n / 10) == Some((n / 10) * 10 + (n % 10)));
        assert(dec_chars(n) == hi + lo);
        assert(dec_chars(n).len() > 0);
    }
}

/// FEN round trip: reading back the printed FEN of any well-formed position
/// reproduces that position exactly.
pub proof fn lemma_fen_round_trip(bv: BoardView)
    requires
        bv.wf(),
    ensures
        parse_fen(print_fen(bv)) == Some(bv),
{
    broadcast use vstd::seq_lib::group_seq_properties;

    let a = placement_chars(bv.squares, 0);
    let b = seq![color_char(bv.turn)];
    let c = castling_chars(bv.castling);
    let d = ep_chars(bv.en_passant_target_sq);
    let e = dec_chars(bv.halfmove_clock);
    let f = dec_chars(bv.fullmove_number);
    lemma_placement_no_space(bv.squares, 0);
    assert(!b.contains(' '));
    lemma_castling_no_space(bv.castling);
    lemma_ep_no_space(bv.en_passant_target_sq);
    lemma_dec_no_space(bv.halfmove_clock);
    lemma_dec_no_space(bv.fullmove_number);
    lemma_split_six(a, b, c, d, e, f);
    let s = print_fen(bv);
    assert(s == a + seq![' '] + b + seq![' '] + c + seq![' '] + d + seq![' '] + e + seq![' ']
        + f);
    let fields = split_spaces(s);
    assert(fields == seq![a, b, c, d, e, f]);
    assert(fields.len() == 6);
    // placement
    let acc0 = Seq::new(64, |i: int| None::<Piece>);
    let acc2 = lemma_placement_roundtrip(bv.squares, 0, acc0, Seq::empty());
    assert(a + Seq::<char>::empty() =~= a);
    assert(parse_placement(a, 0, 0, acc0) == Some(acc2));
    assert(acc2 =~= bv.squares);
    // active color
    assert(parse_color(b) == Some(bv.turn));
    // castling
    lemma_castling_roundtrip(bv.castling);
    // en passant
    match bv.en_passant_target_sq {
        None => {
            assert(parse_ep(d) == Some(None::<Coordinate>));
        },
        Some(t) => {
            crate::square::lemma_notation_roundtrip(t);
            assert(parse_ep(d) == Some(Some(t)));
        },
    }
    // clocks
    lemma_dec_roundtrip(bv.halfmove_clock);
    lemma_dec_roundtrip(bv.fullmove_number);
    assert(parse_fen(s) is Some);
    assert(parse_fen(s)->Some_0 =~= bv);
}

} // verus!
