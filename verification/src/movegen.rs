//! Pseudo-legal move generation: per piece kind, the destination squares its
//! movement rule reaches, with no regard to king safety.
use vstd::prelude::*;

use crate::board::{Board, BoardView};
use crate::piece::{Color, Pieces};
use crate::rules::{
    bishop_reaches, dest_free_for, king_reaches, knight_reaches, on_board, pawn_dir,
    pawn_reaches, pawn_start_row, pseudo_legal, rook_reaches, slides_to, slides_to_n, unit_dir,
};
use crate::square::Coordinate;

verus! {

broadcast use vstd::seq_lib::group_seq_properties;

/// The square one (dr, dc) step away, when that step stays on the board.
pub open spec fn shifted(c: Coordinate, dr: int, dc: int) -> Option<Coordinate> {
    if on_board(c.row + dr, c.col + dc) {
        Some(Coordinate { row: (c.row + dr) as u8, col: (c.col + dc) as u8 })
    } else {
        None
    }
}

/// Pushing a fresh element onto a duplicate-free sequence keeps it
/// duplicate-free.
pub(crate) proof fn lemma_push_no_dup<A>(s: Seq<A>, v: A)
    requires
        s.no_duplicates(),
        !s.contains(v),
    ensures
        s.push(v).no_duplicates(),
{
    assert forall|i: int, j: int|
        0 <= i < s.push(v).len() && 0 <= j < s.push(v).len() && i != j implies s.push(v)[i] != s
        .push(v)[j] by {
        if i < s.len() && j < s.len() {
        } else if i < s.len() {
            assert(s.contains(s[i]));
        } else if j < s.len() {
            assert(s.contains(s[j]));
        }
    }
}

/// A ray pins down its direction: the target row sits on the side of the
/// origin the row step points to, and likewise for columns.
proof fn lemma_slides_sign(
    bv: BoardView,
    fr: int,
    fc: int,
    dr: int,
    dc: int,
    tr: int,
    tc: int,
    n: nat,
)
    requires
        slides_to_n(bv, fr, fc, dr, dc, tr, tc, n),
    ensures
        dr == 0 ==> tr == fr,
        dr == 1 ==> tr > fr,
        dr == -1 ==> tr < fr,
        dc == 0 ==> tc == fc,
        dc == 1 ==> tc > fc,
        dc == -1 ==> tc < fc,
    decreases n,
{
    if n > 0 {
        if tr == fr + dr && tc == fc + dc {
        } else {
            lemma_slides_sign(bv, fr + dr, fc + dc, dr, dc, tr, tc, (n - 1) as nat);
        }
    }
}

/// A square is reached from one origin along at most one direction.
proof fn lemma_slides_unique_dir(
    bv: BoardView,
    fr: int,
    fc: int,
    d1r: int,
    d1c: int,
    d2r: int,
    d2c: int,
    tr: int,
    tc: int,
)
    requires
        unit_dir(d1r, d1c),
        unit_dir(d2r, d2c),
        slides_to(bv, fr, fc, d1r, d1c, tr, tc),
        slides_to(bv, fr, fc, d2r, d2c, tr, tc),
    ensures
        d1r == d2r && d1c == d2c,
{
    lemma_slides_sign(bv, fr, fc, d1r, d1c, tr, tc, 7);
    lemma_slides_sign(bv, fr, fc, d2r, d2c, tr, tc, 7);
}

/// A ray that has left the board in its moving direction never returns to
/// the board.
proof fn lemma_slides_off(bv: BoardView, fr: int, fc: int, dr: int, dc: int, n: nat)
    requires
        (dr == 1 && fr >= 7) || (dr == -1 && fr <= 0) || (dc == 1 && fc >= 7) || (dc == -1 && fc
            <= 0),
    ensures
        forall|tr: int, tc: int|
            #[trigger] slides_to_n(bv, fr, fc, dr, dc, tr, tc, n) ==> !on_board(tr, tc),
    decreases n,
{
    if n > 0 {
        lemma_slides_off(bv, fr + dr, fc + dc, dr, dc, (n - 1) as nat);
        assert forall|tr: int, tc: int|
            #[trigger] slides_to_n(bv, fr, fc, dr, dc, tr, tc, n) implies !on_board(tr, tc) by {
            if !(tr == fr + dr && tc == fc + dc) {
                assert(slides_to_n(bv, fr + dr, fc + dc, dr, dc, tr, tc, (n - 1) as nat));
            }
        }
    }
}

/// The step one square away on the board, or nothing at the board's edge.
fn offset(c: Coordinate, dr: i8, dc: i8) -> (r: Option<Coordinate>)
    requires
        c.spec_valid(),
        -2 <= dr <= 2,
        -2 <= dc <= 2,
    ensures
        r == shifted(c, dr as int, dc as int),
{
    let nr = c.row as i16 + dr as i16;
    let nc = c.col as i16 + dc as i16;
    if 0 <= nr && nr < 8 && 0 <= nc && nc < 8 {
        Some(Coordinate { row: nr as u8, col: nc as u8 })
    } else {
        None
    }
}

impl Board {
    /// Pushes the square one (dr, dc) step away when it is on the board and
    /// free for the given color; used for the king's and knight's single
    /// steps.
    fn push_step(&self, moves: &mut Vec<Coordinate>, from: Coordinate, color: Color, dr: i8, dc: i8)
        requires
            self@.wf(),
            from.spec_valid(),
            -2 <= dr <= 2,
            -2 <= dc <= 2,
            old(moves)@.no_duplicates(),
            match shifted(from, dr as int, dc as int) {
                Some(t) => !old(moves)@.contains(t),
                None => true,
            },
        ensures
            final(moves)@.no_duplicates(),
            forall|t: Coordinate|
                #[trigger] final(moves)@.contains(t) <==> old(moves)@.contains(t) || (shifted(
                    from,
                    dr as int,
                    dc as int,
                ) == Some(t) && dest_free_for(self@, color, t.row as int, t.col as int)),
    {
        match offset(from, dr, dc) {
            Some(t) => {
                let push = match self.get_piece(&t) {
                    None => true,
                    Some(q) => q.color != color,
                };
                if push {
                    proof {
                        lemma_push_no_dup(moves@, t);
                    }
                    moves.push(t);
                }
            },
            None => {},
        }
    }

    /// Pushes every square a slider on `from` reaches in direction (dr, dc):
    /// each empty square stepping outward, then the first occupied square
    /// when the opposing color holds it.
    fn slide_dir(&self, moves: &mut Vec<Coordinate>, from: Coordinate, color: Color, dr: i8, dc: i8)
        requires
            self@.wf(),
            from.spec_valid(),
            unit_dir(dr as int, dc as int),
            old(moves)@.no_duplicates(),
            forall|t: Coordinate|
                old(moves)@.contains(t) ==> !slides_to(
                    self@,
                    from.row as int,
                    from.col as int,
                    dr as int,
                    dc as int,
                    t.row as int,
                    t.col as int,
                ),
        ensures
            final(moves)@.no_duplicates(),
            forall|t: Coordinate|
                #[trigger] final(moves)@.contains(t) <==> old(moves)@.contains(t) || (slides_to(
                    self@,
                    from.row as int,
                    from.col as int,
                    dr as int,
                    dc as int,
                    t.row as int,
                    t.col as int,
                ) && dest_free_for(self@, color, t.row as int, t.col as int)),
    {
        let ghost bv = self@;
        let ghost fr = from.row as int;
        let ghost fc = from.col as int;
        let ghost di = dr as int;
        let ghost dj = dc as int;
        let mut cur = from;
        let mut steps: u8 = 0;
        while steps < 7
            invariant
                self@ == bv,
                bv.wf(),
                from.spec_valid(),
                cur.spec_valid(),
                unit_dir(di, dj),
                di == dr as int,
                dj == dc as int,
                fr == from.row as int,
                fc == from.col as int,
                -2 <= dr <= 2,
                -2 <= dc <= 2,
                steps <= 7,
                moves@.no_duplicates(),
                forall|t: Coordinate|
                    old(moves)@.contains(t) ==> !slides_to(bv, fr, fc, di, dj, t.row as int,
                    t.col as int),
                forall|t: Coordinate| old(moves)@.contains(t) ==> #[trigger] moves@.contains(t),
                // every square the remaining ray reaches, the whole ray reaches
                forall|t: Coordinate|
                    #[trigger] slides_to_n(
                        bv,
                        cur.row as int,
                        cur.col as int,
                        di,
                        dj,
                        t.row as int,
                        t.col as int,
                        (7 - steps) as nat,
                    ) ==> slides_to(bv, fr, fc, di, dj, t.row as int, t.col as int),
                // what is in the list: old entries, plus ray squares already
                // passed, which the remaining ray no longer reaches
                forall|t: Coordinate|
                    #[trigger] moves@.contains(t) ==> old(moves)@.contains(t) || (slides_to(
                        bv,
                        fr,
                        fc,
                        di,
                        dj,
                        t.row as int,
                        t.col as int,
                    ) && dest_free_for(bv, color, t.row as int, t.col as int) && !slides_to_n(
                        bv,
                        cur.row as int,
                        cur.col as int,
                        di,
                        dj,
                        t.row as int,
                        t.col as int,
                        (7 - steps) as nat,
                    )),
                // what is still owed: every reachable square is in the list
                // or still ahead on the remaining ray
                forall|t: Coordinate|
                    #[trigger] slides_to(bv, fr, fc, di, dj, t.row as int, t.col as int)
                        && dest_free_for(bv, color, t.row as int, t.col as int) ==> moves@.contains(
                        t,
                    ) || slides_to_n(
                        bv,
                        cur.row as int,
                        cur.col as int,
                        di,
                        dj,
                        t.row as int,
                        t.col as int,
                        (7 - steps) as nat,
                    ),
            decreases 7 - steps,
        {
            let ghost rem = (7 - steps) as nat;
            match offset(cur, dr, dc) {
                None => {
                    proof {
                        lemma_slides_off(bv, cur.row as int, cur.col as int, di, dj, rem);
                        assert forall|t: Coordinate|
                            slides_to(bv, fr, fc, di, dj, t.row as int, t.col as int)
                                && dest_free_for(
                                bv,
                                color,
                                t.row as int,
                                t.col as int,
                            ) implies moves@.contains(t) by {
                            if !moves@.contains(t) {
                                assert(slides_to_n(
                                    bv,
                                    cur.row as int,
                                    cur.col as int,
                                    di,
                                    dj,
                                    t.row as int,
                                    t.col as int,
                                    rem,
                                ));
                                assert(!on_board(t.row as int, t.col as int));
                            }
                        }
                    }
                    return ;
                },
                Some(next) => {
                    proof {
                        assert(next.row as int == cur.row as int + di);
                        assert(next.col as int == cur.col as int + dj);
                        assert(slides_to_n(
                            bv,
                            cur.row as int,
                            cur.col as int,
                            di,
                            dj,
                            next.row as int,
                            next.col as int,
                            rem,
                        ));
                        assert(slides_to(bv, fr, fc, di, dj, next.row as int, next.col as int));
                    }
                    match self.get_piece(&next) {
                        None => {
                            proof {
                                assert(!moves@.contains(next));
                                lemma_push_no_dup(moves@, next);
                            }
                            moves.push(next);
                            proof {
                                assert forall|t: Coordinate|
                                    #[trigger] slides_to_n(
                                        bv,
                                        next.row as int,
                                        next.col as int,
                                        di,
                                        dj,
                                        t.row as int,
                                        t.col as int,
                                        (rem - 1) as nat,
                                    ) implies slides_to_n(
                                    bv,
                                    cur.row as int,
                                    cur.col as int,
                                    di,
                                    dj,
                                    t.row as int,
                                    t.col as int,
                                    rem,
                                ) by {}
                                assert(!slides_to_n(
                                    bv,
                                    next.row as int,
                                    next.col as int,
                                    di,
                                    dj,
                                    next.row as int,
                                    next.col as int,
                                    (rem - 1) as nat,
                                )) by {
                                    if slides_to_n(
                                        bv,
                                        next.row as int,
                                        next.col as int,
                                        di,
                                        dj,
                                        next.row as int,
                                        next.col as int,
                                        (rem - 1) as nat,
                                    ) {
                                        lemma_slides_sign(
                                            bv,
                                            next.row as int,
                                            next.col as int,
                                            di,
                                            dj,
                                            next.row as int,
                                            next.col as int,
                                            (rem - 1) as nat,
                                        );
                                    }
                                }
                                assert forall|t: Coordinate|
                                    slides_to(bv, fr, fc, di, dj, t.row as int, t.col as int)
                                        && dest_free_for(
                                        bv,
                                        color,
                                        t.row as int,
                                        t.col as int,
                                    ) implies moves@.contains(t) || slides_to_n(
                                    bv,
                                    next.row as int,
                                    next.col as int,
                                    di,
                                    dj,
                                    t.row as int,
                                    t.col as int,
                                    (rem - 1) as nat,
                                ) by {
                                    if !moves@.contains(t) {
                                        assert(slides_to_n(
                                            bv,
                                            cur.row as int,
                                            cur.col as int,
                                            di,
                                            dj,
                                            t.row as int,
                                            t.col as int,
                                            rem,
                                        ));
                                        assert(t != next);
                                    }
                                }
                            }
                            cur = next;
                        },
                        Some(q) => {
                            if q.color != color {
                                proof {
                                    assert(!moves@.contains(next));
                                    lemma_push_no_dup(moves@, next);
                                }
                                moves.push(next);
                            }
                            proof {
                                assert forall|t: Coordinate|
                                    slides_to(bv, fr, fc, di, dj, t.row as int, t.col as int)
                                        && dest_free_for(
                                        bv,
                                        color,
                                        t.row as int,
                                        t.col as int,
                                    ) implies moves@.contains(t) by {
                                    if !moves@.contains(t) {
                                        assert(slides_to_n(
                                            bv,
                                            cur.row as int,
                                            cur.col as int,
                                            di,
                                            dj,
                                            t.row as int,
                                            t.col as int,
                                            rem,
                                        ));
                                    }
                                }
                            }
                            return ;
                        },
                    }
                },
            }
            steps += 1;
        }
        proof {
            assert forall|t: Coordinate|
                slides_to(bv, fr, fc, di, dj, t.row as int, t.col as int) && dest_free_for(
                    bv,
                    color,
                    t.row as int,
                    t.col as int,
                ) implies moves@.contains(t) by {
                assert(!slides_to_n(
                    bv,
                    cur.row as int,
                    cur.col as int,
                    di,
                    dj,
                    t.row as int,
                    t.col as int,
                    0,
                ));
            }
        }
    }
}

} // verus!

verus! {

/// Along one direction, nothing is reached that another direction reaches.
proof fn lemma_only_dir(bv: BoardView, fr: int, fc: int, dr: int, dc: int, t: Coordinate)
    requires
        unit_dir(dr, dc),
        slides_to(bv, fr, fc, dr, dc, t.row as int, t.col as int),
    ensures
        forall|er: int, ec: int|
            unit_dir(er, ec) && (er != dr || ec != dc) ==> !#[trigger] slides_to(
                bv,
                fr,
                fc,
                er,
                ec,
                t.row as int,
                t.col as int,
            ),
{
    assert forall|er: int, ec: int|
        unit_dir(er, ec) && (er != dr || ec != dc) implies !#[trigger] slides_to(
        bv,
        fr,
        fc,
        er,
        ec,
        t.row as int,
        t.col as int,
    ) by {
        if slides_to(bv, fr, fc, er, ec, t.row as int, t.col as int) {
            lemma_slides_unique_dir(bv, fr, fc, dr, dc, er, ec, t.row as int, t.col as int);
        }
    }
}

impl Board {
    /// The squares a king on `from` may step to.
    fn gen_king(&self, from: Coordinate, color: Color) -> (moves: Vec<Coordinate>)
        requires
            self@.wf(),
            from.spec_valid(),
        ensures
            moves@.no_duplicates(),
            forall|t: Coordinate|
                #[trigger] moves@.contains(t) <==> king_reaches(
                    from.row as int,
                    from.col as int,
                    t.row as int,
                    t.col as int,
                ) && dest_free_for(self@, color, t.row as int, t.col as int),
    {
        let ghost bv = self@;
        let ghost fr = from.row as int;
        let ghost fc = from.col as int;
        let mut moves: Vec<Coordinate> = Vec::new();
        self.push_step(&mut moves, from, color, -1, -1);
        self.push_step(&mut moves, from, color, -1, 0);
        self.push_step(&mut moves, from, color, -1, 1);
        self.push_step(&mut moves, from, color, 0, -1);
        self.push_step(&mut moves, from, color, 0, 1);
        self.push_step(&mut moves, from, color, 1, -1);
        self.push_step(&mut moves, from, color, 1, 0);
        self.push_step(&mut moves, from, color, 1, 1);
        proof {
            assert forall|t: Coordinate|
                moves@.contains(t) <==> king_reaches(fr, fc, t.row as int, t.col as int)
                    && dest_free_for(bv, color, t.row as int, t.col as int) by {
                let tr = t.row as int;
                let tc = t.col as int;
                if king_reaches(fr, fc, tr, tc) && dest_free_for(bv, color, tr, tc) {
                    assert(shifted(from, tr - fr, tc - fc) == Some(t));
                }
            }
        }
        moves
    }

    /// The squares a knight on `from` may jump to.
    fn gen_knight(&self, from: Coordinate, color: Color) -> (moves: Vec<Coordinate>)
        requires
            self@.wf(),
            from.spec_valid(),
        ensures
            moves@.no_duplicates(),
            forall|t: Coordinate|
                #[trigger] moves@.contains(t) <==> knight_reaches(
                    from.row as int,
                    from.col as int,
                    t.row as int,
                    t.col as int,
                ) && dest_free_for(self@, color, t.row as int, t.col as int),
    {
        let ghost bv = self@;
        let ghost fr = from.row as int;
        let ghost fc = from.col as int;
        let mut moves: Vec<Coordinate> = Vec::new();
        self.push_step(&mut moves, from, color, -2, -1);
        self.push_step(&mut moves, from, color, -2, 1);
        self.push_step(&mut moves, from, color, -1, -2);
        self.push_step(&mut moves, from, color, -1, 2);
        self.push_step(&mut moves, from, color, 1, -2);
        self.push_step(&mut moves, from, color, 1, 2);
        self.push_step(&mut moves, from, color, 2, -1);
        self.push_step(&mut moves, from, color, 2, 1);
        proof {
            assert forall|t: Coordinate|
                moves@.contains(t) <==> knight_reaches(fr, fc, t.row as int, t.col as int)
                    && dest_free_for(bv, color, t.row as int, t.col as int) by {
                let tr = t.row as int;
                let tc = t.col as int;
                if knight_reaches(fr, fc, tr, tc) && dest_free_for(bv, color, tr, tc) {
                    assert(shifted(from, tr - fr, tc - fc) == Some(t));
                }
            }
        }
        moves
    }

    /// The squares a rook on `from` may slide to.
    fn gen_rook(&self, from: Coordinate, color: Color) -> (moves: Vec<Coordinate>)
        requires
            self@.wf(),
            from.spec_valid(),
        ensures
            moves@.no_duplicates(),
            forall|t: Coordinate|
                #[trigger] moves@.contains(t) <==> rook_reaches(
                    self@,
                    from.row as int,
                    from.col as int,
                    t.row as int,
                    t.col as int,
                ) && dest_free_for(self@, color, t.row as int, t.col as int),
    {
        let ghost bv = self@;
        let ghost fr = from.row as int;
        let ghost fc = from.col as int;
        let mut moves: Vec<Coordinate> = Vec::new();
        self.slide_dir(&mut moves, from, color, -1, 0);
        proof {
            assert forall|t: Coordinate| moves@.contains(t) implies !slides_to(
                bv, fr, fc, 1, 0, t.row as int, t.col as int,
            ) by {
                lemma_only_dir(bv, fr, fc, -1, 0, t);
            }
        }
        self.slide_dir(&mut moves, from, color, 1, 0);
        proof {
            assert forall|t: Coordinate| moves@.contains(t) implies !slides_to(
                bv, fr, fc, 0, -1, t.row as int, t.col as int,
            ) by {
                if slides_to(bv, fr, fc, -1, 0, t.row as int, t.col as int) {
                    lemma_only_dir(bv, fr, fc, -1, 0, t);
                }
                if slides_to(bv, fr, fc, 1, 0, t.row as int, t.col as int) {
                    lemma_only_dir(bv, fr, fc, 1, 0, t);
                }
            }
        }
        self.slide_dir(&mut moves, from, color, 0, -1);
        proof {
            assert forall|t: Coordinate| moves@.contains(t) implies !slides_to(
                bv, fr, fc, 0, 1, t.row as int, t.col as int,
            ) by {
                if slides_to(bv, fr, fc, -1, 0, t.row as int, t.col as int) {
                    lemma_only_dir(bv, fr, fc, -1, 0, t);
                }
                if slides_to(bv, fr, fc, 1, 0, t.row as int, t.col as int) {
                    lemma_only_dir(bv, fr, fc, 1, 0, t);
                }
                if slides_to(bv, fr, fc, 0, -1, t.row as int, t.col as int) {
                    lemma_only_dir(bv, fr, fc, 0, -1, t);
                }
            }
        }
        self.slide_dir(&mut moves, from, color, 0, 1);
        moves
    }

    /// The squares a bishop on `from` may slide to.
    fn gen_bishop(&self, from: Coordinate, color: Color) -> (moves: Vec<Coordinate>)
        requires
            self@.wf(),
            from.spec_valid(),
        ensures
            moves@.no_duplicates(),
            forall|t: Coordinate|
                #[trigger] moves@.contains(t) <==> bishop_reaches(
                    self@,
                    from.row as int,
                    from.col as int,
                    t.row as int,
                    t.col as int,
                ) && dest_free_for(self@, color, t.row as int, t.col as int),
    {
        let ghost bv = self@;
        let ghost fr = from.row as int;
        let ghost fc = from.col as int;
        let mut moves: Vec<Coordinate> = Vec::new();
        self.slide_dir(&mut moves, from, color, -1, -1);
        proof {
            assert forall|t: Coordinate| moves@.contains(t) implies !slides_to(
                bv, fr, fc, -1, 1, t.row as int, t.col as int,
            ) by {
                lemma_only_dir(bv, fr, fc, -1, -1, t);
            }
        }
        self.slide_dir(&mut moves, from, color, -1, 1);
        proof {
            assert forall|t: Coordinate| moves@.contains(t) implies !slides_to(
                bv, fr, fc, 1, -1, t.row as int, t.col as int,
            ) by {
                if slides_to(bv, fr, fc, -1, -1, t.row as int, t.col as int) {
                    lemma_only_dir(bv, fr, fc, -1, -1, t);
                }
                if slides_to(bv, fr, fc, -1, 1, t.row as int, t.col as int) {
                    lemma_only_dir(bv, fr, fc, -1, 1, t);
                }
            }
        }
        self.slide_dir(&mut moves, from, color, 1, -1);
        proof {
            assert forall|t: Coordinate| moves@.contains(t) implies !slides_to(
                bv, fr, fc, 1, 1, t.row as int, t.col as int,
            ) by {
                if slides_to(bv, fr, fc, -1, -1, t.row as int, t.col as int) {
                    lemma_only_dir(bv, fr, fc, -1, -1, t);
                }
                if slides_to(bv, fr, fc, -1, 1, t.row as int, t.col as int) {
                    lemma_only_dir(bv, fr, fc, -1, 1, t);
                }
                if slides_to(bv, fr, fc, 1, -1, t.row as int, t.col as int) {
                    lemma_only_dir(bv, fr, fc, 1, -1, t);
                }
            }
        }
        self.slide_dir(&mut moves, from, color, 1, 1);
        moves
    }

    /// The squares a queen on `from` may slide to.
    fn gen_queen(&self, from: Coordinate, color: Color) -> (moves: Vec<Coordinate>)
        requires
            self@.wf(),
            from.spec_valid(),
        ensures
            moves@.no_duplicates(),
            forall|t: Coordinate|
                #[trigger] moves@.contains(t) <==> (rook_reaches(
                    self@,
                    from.row as int,
                    from.col as int,
                    t.row as int,
                    t.col as int,
                ) || bishop_reaches(
                    self@,
                    from.row as int,
                    from.col as int,
                    t.row as int,
                    t.col as int,
                )) && dest_free_for(self@, color, t.row as int, t.col as int),
    {
        let ghost bv = self@;
        let ghost fr = from.row as int;
        let ghost fc = from.col as int;
        let mut moves: Vec<Coordinate> = Vec::new();
        self.slide_dir(&mut moves, from, color, -1, 0);
        proof {
            assert forall|t: Coordinate| moves@.contains(t) implies !slides_to(
                bv, fr, fc, 1, 0, t.row as int, t.col as int,
            ) by {
                lemma_only_dir(bv, fr, fc, -1, 0, t);
            }
        }
        self.slide_dir(&mut moves, from, color, 1, 0);
        proof {
            assert forall|t: Coordinate| moves@.contains(t) implies !slides_to(
                bv, fr, fc, 0, -1, t.row as int, t.col as int,
            ) by {
                if slides_to(bv, fr, fc, -1, 0, t.row as int, t.col as int) {
                    lemma_only_dir(bv, fr, fc, -1, 0, t);
                }
                if slides_to(bv, fr, fc, 1, 0, t.row as int, t.col as int) {
                    lemma_only_dir(bv, fr, fc, 1, 0, t);
                }
            }
        }
        self.slide_dir(&mut moves, from, color, 0, -1);
        proof {
            assert forall|t: Coordinate| moves@.contains(t) implies !slides_to(
                bv, fr, fc, 0, 1, t.row as int, t.col as int,
            ) by {
                if slides_to(bv, fr, fc, -1, 0, t.row as int, t.col as int) {
                    lemma_only_dir(bv, fr, fc, -1, 0, t);
                }
                if slides_to(bv, fr, fc, 1, 0, t.row as int, t.col as int) {
                    lemma_only_dir(bv, fr, fc, 1, 0, t);
                }
                if slides_to(bv, fr, fc, 0, -1, t.row as int, t.col as int) {
                    lemma_only_dir(bv, fr, fc, 0, -1, t);
                }
            }
        }
        self.slide_dir(&mut moves, from, color, 0, 1);
        proof {
            assert forall|t: Coordinate| moves@.contains(t) implies !slides_to(
                bv, fr, fc, -1, -1, t.row as int, t.col as int,
            ) by {
                if slides_to(bv, fr, fc, -1, 0, t.row as int, t.col as int) {
                    lemma_only_dir(bv, fr, fc, -1, 0, t);
                }
                if slides_to(bv, fr, fc, 1, 0, t.row as int, t.col as int) {
                    lemma_only_dir(bv, fr, fc, 1, 0, t);
                }
                if slides_to(bv, fr, fc, 0, -1, t.row as int, t.col as int) {
                    lemma_only_dir(bv, fr, fc, 0, -1, t);
                }
                if slides_to(bv, fr, fc, 0, 1, t.row as int, t.col as int) {
                    lemma_only_dir(bv, fr, fc, 0, 1, t);
                }
            }
        }
        self.slide_dir(&mut moves, from, color, -1, -1);
        proof {
            assert forall|t: Coordinate| moves@.contains(t) implies !slides_to(
                bv, fr, fc, -1, 1, t.row as int, t.col as int,
            ) by {
                if slides_to(bv, fr, fc, -1, 0, t.row as int, t.col as int) {
                    lemma_only_dir(bv, fr, fc, -1, 0, t);
                }
                if slides_to(bv, fr, fc, 1, 0, t.row as int, t.col as int) {
                    lemma_only_dir(bv, fr, fc, 1, 0, t);
                }
                if slides_to(bv, fr, fc, 0, -1, t.row as int, t.col as int) {
                    lemma_only_dir(bv, fr, fc, 0, -1, t);
                }
                if slides_to(bv, fr, fc, 0, 1, t.row as int, t.col as int) {
                    lemma_only_dir(bv, fr, fc, 0, 1, t);
                }
                if slides_to(bv, fr, fc, -1, -1, t.row as int, t.col as int) {
                    lemma_only_dir(bv, fr, fc, -1, -1, t);
                }
            }
        }
        self.slide_dir(&mut moves, from, color, -1, 1);
        proof {
            assert forall|t: Coordinate| moves@.contains(t) implies !slides_to(
                bv, fr, fc, 1, -1, t.row as int, t.col as int,
            ) by {
                if slides_to(bv, fr, fc, -1, 0, t.row as int, t.col as int) {
                    lemma_only_dir(bv, fr, fc, -1, 0, t);
                }
                if slides_to(bv, fr, fc, 1, 0, t.row as int, t.col as int) {
                    lemma_only_dir(bv, fr, fc, 1, 0, t);
                }
                if slides_to(bv, fr, fc, 0, -1, t.row as int, t.col as int) {
                    lemma_only_dir(bv, fr, fc, 0, -1, t);
                }
                if slides_to(bv, fr, fc, 0, 1, t.row as int, t.col as int) {
                    lemma_only_dir(bv, fr, fc, 0, 1, t);
                }
                if slides_to(bv, fr, fc, -1, -1, t.row as int, t.col as int) {
                    lemma_only_dir(bv, fr, fc, -1, -1, t);
                }
                if slides_to(bv, fr, fc, -1, 1, t.row as int, t.col as int) {
                    lemma_only_dir(bv, fr, fc, -1, 1, t);
                }
            }
        }
        self.slide_dir(&mut moves, from, color, 1, -1);
        proof {
            assert forall|t: Coordinate| moves@.contains(t) implies !slides_to(
                bv, fr, fc, 1, 1, t.row as int, t.col as int,
            ) by {
                if slides_to(bv, fr, fc, -1, 0, t.row as int, t.col as int) {
                    lemma_only_dir(bv, fr, fc, -1, 0, t);
                }
                if slides_to(bv, fr, fc, 1, 0, t.row as int, t.col as int) {
                    lemma_only_dir(bv, fr, fc, 1, 0, t);
                }
                if slides_to(bv, fr, fc, 0, -1, t.row as int, t.col as int) {
                    lemma_only_dir(bv, fr, fc, 0, -1, t);
                }
                if slides_to(bv, fr, fc, 0, 1, t.row as int, t.col as int) {
                    lemma_only_dir(bv, fr, fc, 0, 1, t);
                }
                if slides_to(bv, fr, fc, -1, -1, t.row as int, t.col as int) {
                    lemma_only_dir(bv, fr, fc, -1, -1, t);
                }
                if slides_to(bv, fr, fc, -1, 1, t.row as int, t.col as int) {
                    lemma_only_dir(bv, fr, fc, -1, 1, t);
                }
                if slides_to(bv, fr, fc, 1, -1, t.row as int, t.col as int) {
                    lemma_only_dir(bv, fr, fc, 1, -1, t);
                }
            }
        }
        self.slide_dir(&mut moves, from, color, 1, 1);
        moves
    }

    /// The squares a pawn on `from` may move or capture to.
    fn gen_pawn(&self, from: Coordinate, color: Color) -> (moves: Vec<Coordinate>)
        requires
            self@.wf(),
            from.spec_valid(),
        ensures
            moves@.no_duplicates(),
            forall|t: Coordinate|
                #[trigger] moves@.contains(t) <==> pawn_reaches(
                    self@,
                    color,
                    from.row as int,
                    from.col as int,
                    t.row as int,
                    t.col as int,
                ),
    {
        let ghost bv = self@;
        let ghost fr = from.row as int;
        let ghost fc = from.col as int;
        let mut moves: Vec<Coordinate> = Vec::new();
        let d: i8 = match color {
            Color::White => -1,
            Color::Black => 1,
        };
        let start_row: u8 = match color {
            Color::White => 6,
            Color::Black => 1,
        };
        proof {
            assert(d as int == pawn_dir(color));
            assert(start_row as int == pawn_start_row(color));
        }
        match offset(from, d, 0) {
            Some(t1) => {
                if self.get_piece(&t1).is_none() {
                    moves.push(t1);
                    if from.row == start_row {
                        match offset(from, 2 * d, 0) {
                            Some(t2) => {
                                if self.get_piece(&t2).is_none() {
                                    proof {
                                        assert(!moves@.contains(t2));
                                        lemma_push_no_dup(moves@, t2);
                                    }
                                    moves.push(t2);
                                }
                            },
                            None => {},
                        }
                    }
                }
            },
            None => {},
        }
        match offset(from, d, -1) {
            Some(t) => {
                let cap = match self.get_piece(&t) {
                    Some(q) => q.color != color,
                    None => false,
                };
                let is_ep = match self.en_passant_target_sq {
                    Some(e) => e == t,
                    None => false,
                };
                if cap || is_ep {
                    proof {
                        assert(!moves@.contains(t));
                        lemma_push_no_dup(moves@, t);
                    }
                    moves.push(t);
                }
            },
            None => {},
        }
        match offset(from, d, 1) {
            Some(t) => {
                let cap = match self.get_piece(&t) {
                    Some(q) => q.color != color,
                    None => false,
                };
                let is_ep = match self.en_passant_target_sq {
                    Some(e) => e == t,
                    None => false,
                };
                if cap || is_ep {
                    proof {
                        assert(!moves@.contains(t));
                        lemma_push_no_dup(moves@, t);
                    }
                    moves.push(t);
                }
            },
            None => {},
        }
        proof {
            assert forall|t: Coordinate|
                moves@.contains(t) <==> pawn_reaches(bv, color, fr, fc, t.row as int,
                t.col as int) by {
                let tr = t.row as int;
                let tc = t.col as int;
                if pawn_reaches(bv, color, fr, fc, tr, tc) {
                    if tc == fc && tr == fr + pawn_dir(color) {
                        assert(shifted(from, d as int, 0) == Some(t));
                    } else if tc == fc {
                        assert(shifted(from, 2 * d as int, 0) == Some(t));
                    } else if tc == fc - 1 {
                        assert(shifted(from, d as int, -1) == Some(t));
                    } else {
                        assert(shifted(from, d as int, 1) == Some(t));
                    }
                }
            }
        }
        moves
    }

    /// The pseudo-legal moves of the piece on the given square: every
    /// destination its movement rule reaches, with no regard to king
    /// safety. An empty or off-board square yields no moves. The result
    /// holds no duplicates.
    pub fn generate_pseudo_legal_moves(&self, coordinate: Coordinate) -> (moves: Vec<Coordinate>)
        requires
            self@.wf(),
        ensures
            moves@.no_duplicates(),
            forall|t: Coordinate|
                #[trigger] moves@.contains(t) <==> pseudo_legal(
                    self@,
                    coordinate.row as int,
                    coordinate.col as int,
                    t.row as int,
                    t.col as int,
                ),
    {
        if !coordinate.is_valid() {
            let moves: Vec<Coordinate> = Vec::new();
            return moves;
        }
        let piece = match self.get_piece(&coordinate) {
            None => {
                let moves: Vec<Coordinate> = Vec::new();
                return moves;
            },
            Some(p) => p,
        };
        match piece.breed {
            Pieces::King => self.gen_king(coordinate, piece.color),
            Pieces::Queen => self.gen_queen(coordinate, piece.color),
            Pieces::Rook => self.gen_rook(coordinate, piece.color),
            Pieces::Bishop => self.gen_bishop(coordinate, piece.color),
            Pieces::Knight => self.gen_knight(coordinate, piece.color),
            Pieces::Pawn => self.gen_pawn(coordinate, piece.color),
        }
    }
}

} // verus!
