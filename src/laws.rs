use vstd::prelude::*;
use crate::piece::{Piece, PieceKind, Color};
use crate::square::{Case, Dir, neighbour};
use crate::moves::{Move, MoveKind};
use crate::board::{BoardView, moved, landing, behind};
use crate::move_generation::{legal, pseudo_legal, piece_step, pawn_move, pawn_push, pawn_double, pawn_capture, pawn_forward, king_castle, queen_castle, king_home, king_side_right, queen_side_right, attacked};

verus! {

/// The number of pieces on the squares.
pub open spec fn count_pieces(s: Seq<Option<Piece>>) -> int
    decreases s.len(),
{
    if s.len() == 0 {
        0
    } else {
        count_pieces(s.drop_last()) + if s.last() is Some {
            1int
        } else {
            0int
        }
    }
}

pub open spec fn occupied(x: Option<Piece>) -> int {
    if x is Some {
        1
    } else {
        0
    }
}

/// Writing one square changes the count by what leaves and what arrives.
pub proof fn lemma_count_update(s: Seq<Option<Piece>>, i: int, x: Option<Piece>)
    requires
        0 <= i < s.len(),
    ensures
        count_pieces(s.update(i, x)) == count_pieces(s) - occupied(s[i]) + occupied(x),
    decreases s.len(),
{
    if i == s.len() - 1 {
        assert(s.update(i, x).drop_last() =~= s.drop_last());
    } else {
        assert(s.update(i, x).drop_last() =~= s.drop_last().update(i, x));
        lemma_count_update(s.drop_last(), i, x);
    }
}

/// A step of one or more squares never stays in place.
proof fn lemma_neighbour_moves(c: Case, d: Dir, k: int)
    requires
        k >= 1,
        c.wf(),
    ensures
        neighbour(c, d, k) != Some(c),
{
    assert(d.dline() * k != 0 || d.dcolumn() * k != 0) by (nonlinear_arith)
        requires
            k >= 1,
            d.dline() != 0 || d.dcolumn() != 0,
    ;
}

/// The en passant target, when set, is empty and the pawn that skipped over
/// it stands right behind it, as the side to move sees it.
pub open spec fn en_passant_consistent(v: BoardView) -> bool {
    v.en_passant matches Some(e) ==> (v.squares[e.0 as int] is None && 0 <= behind(e, v.side)
        < 64 && v.squares[behind(e, v.side)] is Some)
}

/// The destination of a pseudo-legal move other than a castle or an en passant
/// capture is empty exactly when the move takes nothing, and `from` differs from `to`.
proof fn lemma_simple_target(v: BoardView, m: Move)
    requires
        v.wf(),
        pseudo_legal(v, m),
        m.kind != MoveKind::KingCastle,
        m.kind != MoveKind::QueenCastle,
        m.kind != MoveKind::EnPassantCapture,
    ensures
        m.from != m.to,
        m.kind.captures() ==> v.squares[m.to.0 as int] is Some,
        !m.kind.captures() ==> v.squares[m.to.0 as int] is None,
{
    if v.squares[m.from.0 as int] matches Some(p) && p.color == v.side && exists|d: Dir, steps: int|
        #[trigger] piece_step(v, m, d, steps) {
        let (d, k) = choose|d: Dir, steps: int| #[trigger] piece_step(v, m, d, steps);
        lemma_neighbour_moves(m.from, d, k);
    } else if pawn_move(v, m) {
        if pawn_push(v, m) {
            lemma_neighbour_moves(m.from, pawn_forward(v.side), 1);
        } else if pawn_double(v, m) {
            lemma_neighbour_moves(m.from, pawn_forward(v.side), 2);
        } else {
            let d = choose|d: Dir| #[trigger] pawn_capture(v, m, d);
            lemma_neighbour_moves(m.from, d, 1);
        }
    }
}

/// A legal move that takes nothing leaves the number of pieces unchanged.
pub proof fn law_quiet_move_keeps_count(v: BoardView, m: Move)
    requires
        v.wf(),
        legal(v, m),
        !m.kind.captures(),
    ensures
        count_pieces(v.apply(m).squares) == count_pieces(v.squares),
{
    let s = v.squares;
    let to = m.to.0 as int;
    let from = m.from.0 as int;
    let s1 = s.update(to, landing(s, m));
    lemma_count_update(s, to, landing(s, m));
    if m.kind == MoveKind::KingCastle {
        assert(king_castle(v, m));
        let s2 = s1.update(to - 1, s[to + 1]);
        let s3 = s2.update(from, None);
        lemma_count_update(s1, to - 1, s[to + 1]);
        lemma_count_update(s2, from, None);
        lemma_count_update(s3, to + 1, None);
    } else if m.kind == MoveKind::QueenCastle {
        assert(queen_castle(v, m));
        let s2 = s1.update(to + 1, s[to - 2]);
        let s3 = s2.update(from, None);
        lemma_count_update(s1, to + 1, s[to - 2]);
        lemma_count_update(s2, from, None);
        lemma_count_update(s3, to - 2, None);
    } else {
        lemma_simple_target(v, m);
        lemma_count_update(s1, from, None);
    }
}

/// A legal capture removes exactly one piece, on a board whose en passant
/// target is consistent.
pub proof fn law_capture_removes_one(v: BoardView, m: Move)
    requires
        v.wf(),
        en_passant_consistent(v),
        legal(v, m),
        m.kind.captures(),
    ensures
        count_pieces(v.apply(m).squares) == count_pieces(v.squares) - 1,
{
    let s = v.squares;
    let to = m.to.0 as int;
    let from = m.from.0 as int;
    let s1 = s.update(to, landing(s, m));
    lemma_count_update(s, to, landing(s, m));
    if m.kind == MoveKind::EnPassantCapture {
        assert(pawn_move(v, m));
        let d = choose|d: Dir| #[trigger] pawn_capture(v, m, d);
        assert(pawn_capture(v, m, d));
        lemma_neighbour_moves(m.from, d, 1);
        let s2 = s1.update(from, None);
        lemma_count_update(s1, from, None);
        lemma_count_update(s2, behind(m.to, v.side), None);
    } else {
        lemma_simple_target(v, m);
        lemma_count_update(s1, from, None);
    }
}

/// After a legal move the other side is to move.
pub proof fn law_side_flips(v: BoardView, m: Move)
    requires
        legal(v, m),
    ensures
        v.apply(m).side == v.side.opposite(),
{
}

/// After a legal move the fullmove number grows by one exactly when Black moved.
pub proof fn law_fullmove_after_black(v: BoardView, m: Move)
    requires
        legal(v, m),
    ensures
        v.apply(m).moves == v.moves + if v.side == Color::Black {
            1nat
        } else {
            0nat
        },
{
}

/// After a legal move the halfmove clock is 0 exactly when the move took a
/// piece or moved a pawn, and grew by one otherwise.
pub proof fn law_halfmove_reset(v: BoardView, m: Move)
    requires
        legal(v, m),
    ensures
        (v.apply(m).halfmove == 0) == (m.kind.captures() || v.squares[m.from.0 as int]->Some_0.kind
            == PieceKind::Pawn),
        !(m.kind.captures() || v.squares[m.from.0 as int]->Some_0.kind == PieceKind::Pawn)
            ==> v.apply(m).halfmove == v.halfmove + 1,
{
}

/// A legal castle has its right set, the squares between king and rook
/// empty, and the king's square, the one it crosses and the one it reaches
/// unattacked by the opponent.
pub proof fn law_castle_preconditions(v: BoardView, m: Move)
    requires
        legal(v, m),
        m.kind == MoveKind::KingCastle || m.kind == MoveKind::QueenCastle,
    ensures
        m.kind == MoveKind::KingCastle ==> {
            let e = king_home(v.side);
            &&& king_side_right(v)
            &&& v.squares[e + 1] is None && v.squares[e + 2] is None
            &&& !attacked(v.squares, Case(e as usize), v.side.opposite())
            &&& !attacked(v.squares, Case((e + 1) as usize), v.side.opposite())
            &&& !attacked(v.squares, Case((e + 2) as usize), v.side.opposite())
        },
        m.kind == MoveKind::QueenCastle ==> {
            let e = king_home(v.side);
            &&& queen_side_right(v)
            &&& v.squares[e - 1] is None && v.squares[e - 2] is None && v.squares[e - 3] is None
            &&& !attacked(v.squares, Case(e as usize), v.side.opposite())
            &&& !attacked(v.squares, Case((e - 1) as usize), v.side.opposite())
            &&& !attacked(v.squares, Case((e - 2) as usize), v.side.opposite())
        },
{
    if m.kind == MoveKind::KingCastle {
        assert(king_castle(v, m));
    } else {
        assert(queen_castle(v, m));
    }
}

} // verus!
