use vstd::prelude::*;
use crate::piece::{Piece, PieceKind, Color};
use crate::square::{Case, Dir, neighbour, lemma_dir_index_injective, lemma_neighbour_reverse};
use crate::moves::{Move, MoveKind};
use crate::board::{Board, BoardView, moved};
use crate::laws::{
    count_pieces,
    en_passant_consistent,
    law_quiet_move_keeps_count,
    law_capture_removes_one,
    law_halfmove_reset,
};

verus! {

/// Rook lines for rooks, diagonals for bishops, both for queens.
pub open spec fn slides_along(k: PieceKind, d: Dir) -> bool {
    ||| (k == PieceKind::Queen && d.is_step())
    ||| (k == PieceKind::Rook && d.is_orthogonal())
    ||| (k == PieceKind::Bishop && d.is_diagonal())
}

/// A piece of kind `k` can go `steps` steps in direction `d` when the path is clear.
pub open spec fn moves_along(k: PieceKind, d: Dir, steps: int) -> bool {
    ||| (k == PieceKind::Knight && !d.is_step() && steps == 1)
    ||| (k == PieceKind::King && d.is_step() && steps == 1)
    ||| (slides_along(k, d) && 1 <= steps <= 7)
}

/// The squares 1 to `steps - 1` away from `c` in direction `d` are on the board and empty.
pub open spec fn clear(s: Seq<Option<Piece>>, c: Case, d: Dir, steps: int) -> bool {
    forall|j: int|
        1 <= j < steps ==> (#[trigger] neighbour(c, d, j) matches Some(q) && s[q.0 as int] is None)
}

/// A piece of color `by` slides onto `t` from `steps` squares away in direction `d`.
pub open spec fn ray_attack(s: Seq<Option<Piece>>, t: Case, by: Color, d: Dir, steps: int) -> bool {
    &&& 1 <= steps <= 7
    &&& clear(s, t, d, steps)
    &&& neighbour(t, d, steps) matches Some(q) && s[q.0 as int] matches Some(p) && p.color == by
        && slides_along(p.kind, d)
}

/// A knight or a king of color `by` stands one jump or one step away from `t` in direction `d`.
pub open spec fn jump_attack(s: Seq<Option<Piece>>, t: Case, by: Color, d: Dir) -> bool {
    neighbour(t, d, 1) matches Some(q) && s[q.0 as int] matches Some(p) && p.color == by && ((
    !d.is_step() && p.kind == PieceKind::Knight) || (d.is_step() && p.kind == PieceKind::King))
}

/// The diagonals a pawn of color `c` moves and captures along.
pub open spec fn pawn_diagonal(c: Color, d: Dir) -> bool {
    match c {
        Color::White => d == Dir::UpLeft || d == Dir::UpRight,
        Color::Black => d == Dir::DownLeft || d == Dir::DownRight,
    }
}

/// A pawn of color `by` stands diagonally behind `t` in direction `d`, as `by` sees it.
pub open spec fn pawn_attack(s: Seq<Option<Piece>>, t: Case, by: Color, d: Dir) -> bool {
    &&& pawn_diagonal(by.opposite(), d)
    &&& neighbour(t, d, 1) matches Some(q) && s[q.0 as int] == Some(
        Piece { kind: PieceKind::Pawn, color: by },
    )
}

/// Square `t` is attacked by color `by`: some piece of `by` could take on it,
/// a pawn whether or not anything stands there.
pub open spec fn attacked(s: Seq<Option<Piece>>, t: Case, by: Color) -> bool {
    ||| exists|d: Dir, steps: int| #[trigger] ray_attack(s, t, by, d, steps)
    ||| exists|d: Dir| #[trigger] jump_attack(s, t, by, d)
    ||| exists|d: Dir| #[trigger] pawn_attack(s, t, by, d)
}

/// The piece of color `by` on `q` could take on `t`, `steps` squares away
/// in direction `d`: along a clear line, by a knight jump or a king step, or
/// one square diagonally forward for a pawn.
pub open spec fn could_take(
    s: Seq<Option<Piece>>,
    q: Case,
    t: Case,
    by: Color,
    d: Dir,
    steps: int,
) -> bool {
    &&& q.wf()
    &&& neighbour(q, d, steps) == Some(t)
    &&& s[q.0 as int] matches Some(p) && p.color == by && if p.kind == PieceKind::Pawn {
        pawn_diagonal(by, d) && steps == 1
    } else {
        moves_along(p.kind, d, steps) && clear(s, q, d, steps)
    }
}

/// Each attacker found from the target is a piece that could take on it.
proof fn lemma_attack_has_taker(s: Seq<Option<Piece>>, t: Case, by: Color)
    requires
        t.wf(),
        attacked(s, t, by),
    ensures
        exists|q: Case, d: Dir, steps: int| #[trigger] could_take(s, q, t, by, d, steps),
{
    if exists|d: Dir, steps: int| #[trigger] ray_attack(s, t, by, d, steps) {
        let (d, k) = choose|d: Dir, steps: int| #[trigger] ray_attack(s, t, by, d, steps);
        let q = neighbour(t, d, k)->Some_0;
        lemma_neighbour_reverse(t, d, k, k);
        assert forall|j: int| 1 <= j < k implies (#[trigger] neighbour(q, d.reverse(), j) matches Some(
            x,
        ) && s[x.0 as int] is None) by {
            lemma_neighbour_reverse(t, d, k, j);
            assert(neighbour(t, d, k - j) matches Some(x) && s[x.0 as int] is None);
        }
        assert(could_take(s, q, t, by, d.reverse(), k));
    } else if exists|d: Dir| #[trigger] jump_attack(s, t, by, d) {
        let d = choose|d: Dir| #[trigger] jump_attack(s, t, by, d);
        let q = neighbour(t, d, 1)->Some_0;
        lemma_neighbour_reverse(t, d, 1, 1);
        assert(could_take(s, q, t, by, d.reverse(), 1));
    } else {
        let d = choose|d: Dir| #[trigger] pawn_attack(s, t, by, d);
        let q = neighbour(t, d, 1)->Some_0;
        lemma_neighbour_reverse(t, d, 1, 1);
        assert(could_take(s, q, t, by, d.reverse(), 1));
    }
}

/// A piece that could take on a square attacks it.
proof fn lemma_taker_attacks(s: Seq<Option<Piece>>, t: Case, by: Color, q: Case, d: Dir, k: int)
    requires
        t.wf(),
        could_take(s, q, t, by, d, k),
    ensures
        attacked(s, t, by),
{
    let p = s[q.0 as int]->Some_0;
    let r = d.reverse();
    lemma_neighbour_reverse(q, d, k, k);
    assert(neighbour(q, d, 0) == Some(q));
    assert forall|j: int| 1 <= j < k implies (#[trigger] neighbour(t, r, j) matches Some(x)
        && s[x.0 as int] is None) by {
        lemma_neighbour_reverse(q, d, k, j);
        assert(neighbour(q, d, k - j) matches Some(x) && s[x.0 as int] is None);
    }
    if p.kind == PieceKind::Pawn {
        assert(pawn_attack(s, t, by, r));
    } else if p.kind == PieceKind::Knight || p.kind == PieceKind::King {
        assert(jump_attack(s, t, by, r));
    } else {
        assert(ray_attack(s, t, by, r, k));
    }
}

/// A square is attacked by a color exactly when some piece of that color
/// could take on it.
pub proof fn law_attacked_iff_some_piece_takes(s: Seq<Option<Piece>>, t: Case, by: Color)
    requires
        t.wf(),
    ensures
        attacked(s, t, by) <==> exists|q: Case, d: Dir, steps: int|
            #[trigger] could_take(s, q, t, by, d, steps),
{
    if attacked(s, t, by) {
        lemma_attack_has_taker(s, t, by);
    }
    if exists|q: Case, d: Dir, steps: int| #[trigger] could_take(s, q, t, by, d, steps) {
        let (q, d, k) = choose|q: Case, d: Dir, steps: int| #[trigger] could_take(
            s,
            q,
            t,
            by,
            d,
            steps,
        );
        lemma_taker_attacks(s, t, by, q, d, k);
    }
}

/// No king of color `c` stands on an attacked square.
pub open spec fn king_safe(s: Seq<Option<Piece>>, c: Color) -> bool {
    forall|i: int|
        0 <= i < 64 && #[trigger] s[i] == Some(Piece { kind: PieceKind::King, color: c })
            ==> !attacked(s, Case(i as usize), c.opposite())
}

pub open spec fn is_empty(v: BoardView, c: Case) -> bool {
    v.squares[c.0 as int] is None
}

pub open spec fn is_enemy(v: BoardView, c: Case) -> bool {
    v.squares[c.0 as int] matches Some(p) && p.color != v.side
}

/// A king step, a knight jump or a slide by the piece on `from`, over a clear
/// path, quiet onto an empty square or taking an enemy piece.
pub open spec fn piece_step(v: BoardView, m: Move, d: Dir, steps: int) -> bool {
    &&& v.squares[m.from.0 as int] matches Some(p) && moves_along(p.kind, d, steps)
    &&& neighbour(m.from, d, steps) == Some(m.to)
    &&& clear(v.squares, m.from, d, steps)
    &&& ((is_empty(v, m.to) && m.kind == MoveKind::Quiet) || (is_enemy(v, m.to) && m.kind
        == MoveKind::SimpleCapture))
}

pub open spec fn pawn_forward(c: Color) -> Dir {
    match c {
        Color::White => Dir::Up,
        Color::Black => Dir::Down,
    }
}

pub open spec fn pawn_start_line(c: Color) -> int {
    match c {
        Color::White => 1,
        Color::Black => 6,
    }
}

pub open spec fn last_line(c: Color) -> int {
    match c {
        Color::White => 7,
        Color::Black => 0,
    }
}

/// A pawn's one-step push: quiet, or one of the four promotions onto the last rank.
pub open spec fn pawn_push(v: BoardView, m: Move) -> bool {
    &&& neighbour(m.from, pawn_forward(v.side), 1) == Some(m.to)
    &&& is_empty(v, m.to)
    &&& if m.to.line() == last_line(v.side) {
        m.kind.promotes_to() is Some && !m.kind.captures()
    } else {
        m.kind == MoveKind::Quiet
    }
}

/// A pawn's two-step push from its starting rank over an empty square.
pub open spec fn pawn_double(v: BoardView, m: Move) -> bool {
    &&& m.from.line() == pawn_start_line(v.side)
    &&& neighbour(m.from, pawn_forward(v.side), 1) matches Some(mid) && is_empty(v, mid)
    &&& neighbour(m.from, pawn_forward(v.side), 2) == Some(m.to)
    &&& is_empty(v, m.to)
    &&& m.kind == MoveKind::DoublePawnPush
}

/// A pawn's diagonal capture: of an enemy piece (promoting on the last rank),
/// or en passant onto the board's target square.
pub open spec fn pawn_capture(v: BoardView, m: Move, d: Dir) -> bool {
    &&& pawn_diagonal(v.side, d)
    &&& neighbour(m.from, d, 1) == Some(m.to)
    &&& {
        ||| is_enemy(v, m.to) && if m.to.line() == last_line(v.side) {
            m.kind.promotes_to() is Some && m.kind.captures()
        } else {
            m.kind == MoveKind::SimpleCapture
        }
        ||| v.en_passant == Some(m.to) && m.kind == MoveKind::EnPassantCapture
    }
}

pub open spec fn pawn_move(v: BoardView, m: Move) -> bool {
    &&& v.squares[m.from.0 as int] == Some(Piece { kind: PieceKind::Pawn, color: v.side })
    &&& {
        ||| pawn_push(v, m)
        ||| pawn_double(v, m)
        ||| exists|d: Dir| #[trigger] pawn_capture(v, m, d)
    }
}

/// The square the king of color `c` starts on: e1 or e8.
pub open spec fn king_home(c: Color) -> int {
    match c {
        Color::White => 4,
        Color::Black => 60,
    }
}

pub open spec fn king_side_right(v: BoardView) -> bool {
    match v.side {
        Color::White => v.castle.white_king,
        Color::Black => v.castle.black_king,
    }
}

pub open spec fn queen_side_right(v: BoardView) -> bool {
    match v.side {
        Color::White => v.castle.white_queen,
        Color::Black => v.castle.black_queen,
    }
}

/// Castling on the king's side: the right is set, f and g are empty, and e,
/// f and g are not attacked by the opponent.
pub open spec fn king_castle(v: BoardView, m: Move) -> bool {
    let e = king_home(v.side);
    let them = v.side.opposite();
    &&& m == Move { from: Case(e as usize), to: Case((e + 2) as usize), kind: MoveKind::KingCastle }
    &&& v.squares[e] == Some(Piece { kind: PieceKind::King, color: v.side })
    &&& king_side_right(v)
    &&& v.squares[e + 1] is None && v.squares[e + 2] is None
    &&& !attacked(v.squares, Case(e as usize), them)
    &&& !attacked(v.squares, Case((e + 1) as usize), them)
    &&& !attacked(v.squares, Case((e + 2) as usize), them)
}

/// Castling on the queen's side: the right is set, b, c and d are empty, and
/// e, d and c are not attacked by the opponent.
pub open spec fn queen_castle(v: BoardView, m: Move) -> bool {
    let e = king_home(v.side);
    let them = v.side.opposite();
    &&& m == Move { from: Case(e as usize), to: Case((e - 2) as usize), kind: MoveKind::QueenCastle }
    &&& v.squares[e] == Some(Piece { kind: PieceKind::King, color: v.side })
    &&& queen_side_right(v)
    &&& v.squares[e - 1] is None && v.squares[e - 2] is None && v.squares[e - 3] is None
    &&& !attacked(v.squares, Case(e as usize), them)
    &&& !attacked(v.squares, Case((e - 1) as usize), them)
    &&& !attacked(v.squares, Case((e - 2) as usize), them)
}

/// A move that obeys how pieces move, whether or not it leaves the mover's king attacked.
pub open spec fn pseudo_legal(v: BoardView, m: Move) -> bool {
    &&& m.wf()
    &&& {
        ||| v.squares[m.from.0 as int] matches Some(p) && p.color == v.side
            && exists|d: Dir, steps: int| #[trigger] piece_step(v, m, d, steps)
        ||| pawn_move(v, m)
        ||| king_castle(v, m)
        ||| queen_castle(v, m)
    }
}

/// A pseudo-legal move after which no king of the mover is attacked.
pub open spec fn legal(v: BoardView, m: Move) -> bool {
    pseudo_legal(v, m) && king_safe(moved(v.squares, m), v.side)
}

/// Every pseudo-legal move can be applied.
pub proof fn lemma_pseudo_legal_applies(v: BoardView, m: Move)
    requires
        v.wf(),
        pseudo_legal(v, m),
    ensures
        v.can_apply(m),
{
    if pawn_move(v, m) && m.kind == MoveKind::EnPassantCapture {
        let d = choose|d: Dir| #[trigger] pawn_capture(v, m, d);
        assert(pawn_capture(v, m, d));
    }
}

fn slides(k: PieceKind, d: Dir) -> (r: bool)
    ensures
        r == slides_along(k, d),
{
    let orth = match d {
        Dir::Up | Dir::Right | Dir::Down | Dir::Left => true,
        _ => false,
    };
    let diag = match d {
        Dir::UpRight | Dir::DownRight | Dir::DownLeft | Dir::UpLeft => true,
        _ => false,
    };
    match k {
        PieceKind::Queen => orth || diag,
        PieceKind::Rook => orth,
        PieceKind::Bishop => diag,
        _ => false,
    }
}

/// How far a piece of kind `k` may go in direction `d`: 0, 1 or 7 squares.
fn reach(k: PieceKind, d: Dir) -> (r: usize)
    ensures
        r <= 7,
        forall|steps: int| moves_along(k, d, steps) <==> 1 <= steps <= r,
{
    let step = d.index_exec() < 8;
    match k {
        PieceKind::Knight => if step {
            0
        } else {
            1
        },
        PieceKind::King => if step {
            1
        } else {
            0
        },
        PieceKind::Pawn => 0,
        _ => if slides(k, d) {
            7
        } else {
            0
        },
    }
}

/// Whether a piece of color `by` slides onto `t` along direction `d`.
fn ray_hits(s: &[Option<Piece>; 64], t: Case, by: Color, d: Dir) -> (r: bool)
    requires
        t.wf(),
    ensures
        r == exists|steps: int| #[trigger] ray_attack(s@, t, by, d, steps),
{
    let mut k: usize = 1;
    while k <= 7
        invariant
            1 <= k <= 8,
            t.wf(),
            clear(s@, t, d, k as int),
            forall|j: int| 1 <= j < k ==> !#[trigger] ray_attack(s@, t, by, d, j),
        decreases 8 - k,
    {
        match t.get_neighbour(d, k) {
            None => {
                assert forall|j: int| !#[trigger] ray_attack(s@, t, by, d, j) by {
                    if j > k {
                        assert(neighbour(t, d, k as int) is None);
                    }
                }
                return false;
            },
            Some(q) => match s[q.0] {
                Some(p) => {
                    let hit = p.color == by && slides(p.kind, d);
                    assert forall|j: int| j != k implies !#[trigger] ray_attack(s@, t, by, d, j) by {
                        if j > k {
                            assert(neighbour(t, d, k as int) == Some(q));
                        }
                    }
                    if hit {
                        assert(ray_attack(s@, t, by, d, k as int));
                    }
                    return hit;
                },
                None => {
                    assert(clear(s@, t, d, k + 1)) by {
                        assert forall|j: int| 1 <= j < k + 1 implies (#[trigger] neighbour(t, d, j) matches Some(q)
                            && s@[q.0 as int] is None) by {
                            if j < k {
                                assert(clear(s@, t, d, k as int));
                            }
                        }
                    }
                    k += 1;
                },
            },
        }
    }
    false
}

/// Whether square `t` is attacked by color `by`: scans outward from `t` along
/// each line and checks each knight, king and pawn square that reaches it.
pub fn is_attacked(s: &[Option<Piece>; 64], t: Case, by: Color) -> (r: bool)
    requires
        t.wf(),
    ensures
        r == attacked(s@, t, by),
{
    let mut i: usize = 0;
    while i < 16
        invariant
            i <= 16,
            t.wf(),
            forall|d: Dir, j: int| d.index() < i ==> !#[trigger] ray_attack(s@, t, by, d, j),
            forall|d: Dir| d.index() < i ==> !#[trigger] jump_attack(s@, t, by, d),
            forall|d: Dir| d.index() < i ==> !#[trigger] pawn_attack(s@, t, by, d),
        decreases 16 - i,
    {
        let d = Dir::nth(i);
        let step = i < 8;
        if step {
            if ray_hits(s, t, by, d) {
                return true;
            }
        } else {
            assert forall|j: int| !#[trigger] ray_attack(s@, t, by, d, j) by {}
        }
        match t.get_neighbour(d, 1) {
            Some(q) => match s[q.0] {
                Some(p) => {
                    if p.color == by {
                        let jumper = if step {
                            p.kind == PieceKind::King
                        } else {
                            p.kind == PieceKind::Knight
                        };
                        if jumper {
                            assert(jump_attack(s@, t, by, d));
                            return true;
                        }
                        let pawn_dir = match by {
                            Color::White => i == 3 || i == 5,
                            Color::Black => i == 1 || i == 7,
                        };
                        if pawn_dir && p.kind == PieceKind::Pawn {
                            assert(pawn_attack(s@, t, by, d));
                            return true;
                        }
                    }
                },
                None => {},
            },
            None => {},
        }
        proof {
            assert forall|e: Dir| e.index() < i + 1 implies !#[trigger] pawn_attack(s@, t, by, e) by {
                lemma_dir_index_injective(e, d);
            }
            assert forall|e: Dir| e.index() < i + 1 implies !#[trigger] jump_attack(s@, t, by, e) by {
                lemma_dir_index_injective(e, d);
            }
            assert forall|e: Dir, j: int| e.index() < i + 1 implies !#[trigger] ray_attack(s@, t, by, e, j) by {
                lemma_dir_index_injective(e, d);
            }
        }
        i += 1;
    }
    proof {
        assert forall|e: Dir| #[trigger] e.index() < 16 by {}
    }
    false
}

/// Whether no king of color `c` stands on a square attacked by the other color.
pub fn king_is_safe(s: &[Option<Piece>; 64], c: Color) -> (r: bool)
    ensures
        r == king_safe(s@, c),
{
    let them = c.flip();
    let mut i: usize = 0;
    while i < 64
        invariant
            i <= 64,
            them == c.opposite(),
            forall|j: int|
                0 <= j < i && #[trigger] s@[j] == Some(Piece { kind: PieceKind::King, color: c })
                    ==> !attacked(s@, Case(j as usize), c.opposite()),
        decreases 64 - i,
    {
        match s[i] {
            Some(Piece { kind: PieceKind::King, color }) => {
                if color == c && is_attacked(s, Case(i), them) {
                    return false;
                }
            },
            _ => {},
        }
        i += 1;
    }
    true
}

} // verus!

verus! {

/// Every move of `ms` is pseudo-legal on `v`.
pub open spec fn all_pseudo_legal(v: BoardView, ms: Seq<Move>) -> bool {
    forall|i: int| 0 <= i < ms.len() ==> pseudo_legal(v, #[trigger] ms[i])
}

/// Every move of `ms` is legal on `v`.
pub open spec fn all_legal(v: BoardView, ms: Seq<Move>) -> bool {
    forall|i: int| 0 <= i < ms.len() ==> legal(v, #[trigger] ms[i])
}

/// `b` starts with `a`.
pub open spec fn extends(a: Seq<Move>, b: Seq<Move>) -> bool {
    a.len() <= b.len() && forall|i: int| 0 <= i < a.len() ==> #[trigger] b[i] == a[i]
}

proof fn lemma_extends_contains(a: Seq<Move>, b: Seq<Move>)
    requires
        extends(a, b),
    ensures
        forall|m: Move| a.contains(m) ==> b.contains(m),
{
    assert forall|m: Move| a.contains(m) implies b.contains(m) by {
        let i = choose|i: int| 0 <= i < a.len() && a[i] == m;
        assert(b[i] == m);
    }
}

proof fn lemma_extends_trans(a: Seq<Move>, b: Seq<Move>, c: Seq<Move>)
    requires
        extends(a, b),
        extends(b, c),
    ensures
        extends(a, c),
{
    assert forall|i: int| 0 <= i < a.len() implies #[trigger] c[i] == a[i] by {
        assert(c[i] == b[i]);
    }
}

/// Pushes `m`, which is pseudo-legal, keeping what was there.
fn push_move(v: Ghost<BoardView>, out: &mut Vec<Move>, m: Move)
    requires
        all_pseudo_legal(v@, old(out)@),
        pseudo_legal(v@, m),
        old(out)@.no_duplicates(),
        forall|i: int| 0 <= i < old(out)@.len() ==> old(out)@[i] != m,
    ensures
        all_pseudo_legal(v@, final(out)@),
        extends(old(out)@, final(out)@),
        final(out)@.contains(m),
        final(out)@.no_duplicates(),
        final(out)@ == old(out)@.push(m),
        forall|x: Move| old(out)@.contains(x) ==> final(out)@.contains(x),
{
    out.push(m);
    assert(out@[out@.len() - 1] == m);
    proof {
        lemma_extends_contains(old(out)@, out@);
    }
}

impl Board {
    /// Whether a piece of the other color than `color` stands on `case`.
    fn is_adversary(&self, case: &Case, color: &Color) -> (r: bool)
        requires
            self.wf(),
            case.wf(),
        ensures
            r == (self.board@[case.0 as int] matches Some(p) && p.color != *color),
    {
        match self.board[case.0] {
            Some(piece) => piece.color != *color,
            None => false,
        }
    }

    /// A move `steps` squares along the ray is not yet among moves that either
    /// leave another square, lie off this ray, or lie nearer on it.
    proof fn lemma_fresh_on_ray(
        &self,
        start: Seq<Move>,
        out: Seq<Move>,
        from: Case,
        dir: Dir,
        steps: int,
        m: Move,
    )
        requires
            from.wf(),
            1 <= steps <= 7,
            m.from == from,
            neighbour(from, dir, steps) == Some(m.to),
            extends(start, out),
            forall|i: int|
                0 <= i < start.len() && (#[trigger] start[i]).from == from ==> !on_ray(
                    from,
                    dir,
                    start[i].to,
                    8,
                ),
            forall|i: int|
                start.len() <= i < out.len() ==> (#[trigger] out[i]).from == from && on_ray(
                    from,
                    dir,
                    out[i].to,
                    steps,
                ),
        ensures
            forall|i: int| 0 <= i < out.len() ==> out[i] != m,
    {
        assert forall|i: int| 0 <= i < out.len() implies out[i] != m by {
            if i < start.len() {
                assert(out[i] == start[i]);
                if start[i] == m {
                    assert(on_ray(from, dir, m.to, 8));
                }
            } else {
                if out[i] == m {
                    let j = choose|j: int| 1 <= j < steps && #[trigger] neighbour(from, dir, j)
                        == Some(out[i].to);
                    lemma_ray_injective(from, dir, j, steps);
                }
            }
        }
    }

    /// Adds the moves of the piece on `from` along `dir`, up to `max` squares
    /// away: quiet ones onto empty squares, then a capture of the first enemy
    /// piece met; a piece of its own color stops it.
    fn all_moves_in_dir(&self, from: &Case, dir: Dir, max: usize, out: &mut Vec<Move>)
        requires
            self.wf(),
            from.wf(),
            max <= 7,
            self.board@[from.0 as int] matches Some(p) && p.color == self.side && forall|k: int|
                1 <= k <= max ==> moves_along(p.kind, dir, k),
            all_pseudo_legal(self@, old(out)@),
            old(out)@.no_duplicates(),
            forall|i: int|
                0 <= i < old(out)@.len() && (#[trigger] old(out)@[i]).from == *from ==> !on_ray(
                    *from,
                    dir,
                    old(out)@[i].to,
                    8,
                ),
        ensures
            all_pseudo_legal(self@, final(out)@),
            extends(old(out)@, final(out)@),
            forall|m: Move, k: int|
                1 <= k <= max && m.from == *from && #[trigger] piece_step(self@, m, dir, k)
                    ==> final(out)@.contains(m),
            final(out)@.no_duplicates(),
            forall|i: int|
                old(out)@.len() <= i < final(out)@.len() ==> (#[trigger] final(out)@[i]).from
                    == *from && on_ray(*from, dir, final(out)@[i].to, 8) && (final(out)@[i].kind
                    == MoveKind::Quiet || final(out)@[i].kind == MoveKind::SimpleCapture),
    {
        let ghost v = self@;
        let ghost start = out@;
        let mut dist: usize = 1;
        while dist <= max
            invariant
                1 <= dist,
                self.wf(),
                v == self@,
                from.wf(),
                max <= 7,
                self.board@[from.0 as int] matches Some(p) && p.color == self.side && forall|k: int|
                    1 <= k <= max ==> moves_along(p.kind, dir, k),
                clear(self.board@, *from, dir, dist as int),
                all_pseudo_legal(self@, out@),
                start == old(out)@,
                extends(start, out@),
                dist <= max + 1,
                out@.no_duplicates(),
                forall|i: int|
                    0 <= i < start.len() && (#[trigger] start[i]).from == *from ==> !on_ray(
                        *from,
                        dir,
                        start[i].to,
                        8,
                    ),
                forall|i: int|
                    start.len() <= i < out@.len() ==> (#[trigger] out@[i]).from == *from && on_ray(
                        *from,
                        dir,
                        out@[i].to,
                        dist as int,
                    ) && (out@[i].kind == MoveKind::Quiet || out@[i].kind
                        == MoveKind::SimpleCapture),
                forall|m: Move, k: int|
                    1 <= k < dist && m.from == *from && #[trigger] piece_step(v, m, dir, k)
                        ==> out@.contains(m),
            decreases max + 1 - dist,
        {
            let ghost before = out@;
            match from.get_neighbour(dir, dist) {
                None => {
                    assert forall|m: Move, k: int|
                        dist <= k <= max && m.from == *from && #[trigger] piece_step(v, m, dir, k)
                            implies false by {
                        if k > dist {
                            assert(neighbour(*from, dir, dist as int) is None);
                        }
                    }
                    return;
                },
                Some(to) => match self.board[to.0] {
                    Some(piece) => {
                        if piece.color != self.side {
                            let m = Move::new(*from, to, MoveKind::SimpleCapture);
                            assert(piece_step(self@, m, dir, dist as int));
                            proof {
                                self.lemma_fresh_on_ray(start, out@, *from, dir, dist as int, m);
                            }
                            push_move(Ghost(v), out, m);
                        }
                        proof {
                            lemma_extends_trans(start, before, out@);
                            assert forall|m: Move, k: int|
                                1 <= k <= max && m.from == *from && #[trigger] piece_step(
                                    v,
                                    m,
                                    dir,
                                    k,
                                ) implies out@.contains(m) by {
                                if k > dist {
                                    assert(neighbour(*from, dir, dist as int) == Some(to));
                                } else if k < dist {
                                    assert(before.contains(m));
                                }
                            }
                        }
                        return;
                    },
                    None => {
                        let m = Move::new(*from, to, MoveKind::Quiet);
                        assert(piece_step(self@, m, dir, dist as int));
                        proof {
                            self.lemma_fresh_on_ray(start, out@, *from, dir, dist as int, m);
                        }
                        push_move(Ghost(v), out, m);
                        assert(clear(self.board@, *from, dir, dist + 1)) by {
                            assert forall|j: int| 1 <= j < dist + 1 implies (#[trigger] neighbour(
                                *from,
                                dir,
                                j,
                            ) matches Some(q) && self.board@[q.0 as int] is None) by {
                                if j < dist {
                                    assert(clear(self.board@, *from, dir, dist as int));
                                }
                            }
                        }
                        proof {
                            lemma_extends_trans(start, before, out@);
                            assert forall|m: Move, k: int|
                                1 <= k < dist + 1 && m.from == *from && #[trigger] piece_step(
                                    v,
                                    m,
                                    dir,
                                    k,
                                ) implies out@.contains(m) by {
                                if k < dist {
                                    assert(before.contains(m));
                                }
                            }
                        }
                        dist += 1;
                    },
                },
            }
        }
    }

    /// Adds the king steps, knight jumps or slides of the piece on `case`.
    fn moves_for_dir(&self, case: &Case, out: &mut Vec<Move>)
        requires
            self.wf(),
            case.wf(),
            self.board@[case.0 as int] matches Some(p) && p.color == self.side,
            all_pseudo_legal(self@, old(out)@),
            old(out)@.no_duplicates(),
            forall|i: int| 0 <= i < old(out)@.len() ==> (#[trigger] old(out)@[i]).from != *case,
        ensures
            all_pseudo_legal(self@, final(out)@),
            extends(old(out)@, final(out)@),
            forall|m: Move, d: Dir, k: int|
                m.from == *case && #[trigger] piece_step(self@, m, d, k) ==> final(out)@.contains(m),
            final(out)@.no_duplicates(),
            forall|i: int|
                old(out)@.len() <= i < final(out)@.len() ==> (#[trigger] final(out)@[i]).from
                    == *case && (final(out)@[i].kind == MoveKind::Quiet || final(out)@[i].kind
                    == MoveKind::SimpleCapture),
    {
        let ghost v = self@;
        let ghost start = out@;
        let kind = match self.board[case.0] {
            Some(p) => p.kind,
            None => PieceKind::Pawn,
        };
        let mut i: usize = 0;
        while i < 16
            invariant
                self.wf(),
                v == self@,
                case.wf(),
                self.board@[case.0 as int] == Some(Piece { kind, color: self.side }),
                all_pseudo_legal(self@, out@),
                extends(start, out@),
                start == old(out)@,
                forall|m: Move, d: Dir, k: int|
                    d.index() < i && m.from == *case && #[trigger] piece_step(v, m, d, k)
                        ==> out@.contains(m),
                out@.no_duplicates(),
                forall|j: int| 0 <= j < start.len() ==> (#[trigger] start[j]).from != *case,
                forall|j: int|
                    start.len() <= j < out@.len() ==> (#[trigger] out@[j]).from == *case
                        && on_earlier_ray(*case, out@[j].to, i as int) && (out@[j].kind
                        == MoveKind::Quiet || out@[j].kind == MoveKind::SimpleCapture),
            decreases 16 - i,
        {
            let ghost before = out@;
            let dir = Dir::nth(i);
            let max = reach(kind, dir);
            proof {
                assert forall|j: int|
                    0 <= j < out@.len() && (#[trigger] out@[j]).from == *case implies !on_ray(
                    *case,
                    dir,
                    out@[j].to,
                    8,
                ) by {
                    if j >= start.len() {
                        let d = choose|d: Dir| d.index() < i && #[trigger] on_ray(
                            *case,
                            d,
                            out@[j].to,
                            8,
                        );
                        lemma_dir_index_injective(d, dir);
                        lemma_on_rays_disjoint(*case, d, dir, out@[j].to);
                    } else {
                        assert(out@[j] == start[j]);
                    }
                }
            }
            if max > 0 {
                self.all_moves_in_dir(case, dir, max, out);
            }
            proof {
                assert forall|j: int| start.len() <= j < out@.len() implies (#[trigger] out@[j]).from
                    == *case && on_earlier_ray(*case, out@[j].to, i + 1) by {
                    if j < before.len() {
                        assert(out@[j] == before[j]);
                        let d = choose|d: Dir| d.index() < i && #[trigger] on_ray(
                            *case,
                            d,
                            before[j].to,
                            8,
                        );
                        assert(d.index() < i + 1);
                    } else {
                        assert(on_ray(*case, dir, out@[j].to, 8));
                    }
                }
                lemma_extends_trans(start, before, out@);
                lemma_extends_contains(before, out@);
                assert forall|m: Move, d: Dir, k: int|
                    d.index() < i + 1 && m.from == *case && #[trigger] piece_step(v, m, d, k)
                        implies out@.contains(m) by {
                    lemma_dir_index_injective(d, dir);
                    if d.index() < i {
                        assert(before.contains(m));
                    }
                }
            }
            i += 1;
        }
        proof {
            assert forall|d: Dir| #[trigger] d.index() < 16 by {}
        }
    }

    /// Adds the pushes of the pawn on `case`: one step (or the four promotions
    /// onto the last rank), and two steps from the starting rank.
    fn pawn_quiet_moves(&self, case: &Case, out: &mut Vec<Move>)
        requires
            self.wf(),
            case.wf(),
            self.board@[case.0 as int] == Some(Piece { kind: PieceKind::Pawn, color: self.side }),
            all_pseudo_legal(self@, old(out)@),
            old(out)@.no_duplicates(),
            forall|i: int| 0 <= i < old(out)@.len() ==> (#[trigger] old(out)@[i]).from != *case,
        ensures
            all_pseudo_legal(self@, final(out)@),
            extends(old(out)@, final(out)@),
            forall|m: Move|
                m.from == *case && (pawn_push(self@, m) || pawn_double(self@, m))
                    ==> #[trigger] final(out)@.contains(m),
            final(out)@.no_duplicates(),
            forall|i: int|
                old(out)@.len() <= i < final(out)@.len() ==> (#[trigger] final(out)@[i]).from
                    == *case && !final(out)@[i].kind.captures() && (pawn_push(
                    self@,
                    final(out)@[i],
                ) || pawn_double(self@, final(out)@[i])),
    {
        let ghost v = self@;
        let ghost start = out@;
        let (front, start_line, promotion_line) = match self.side {
            Color::White => (Dir::Up, 1usize, 7usize),
            Color::Black => (Dir::Down, 6usize, 0usize),
        };
        let front_case = match case.get_neighbour(front, 1) {
            Some(c) => c,
            None => {
                return;
            },
        };
        if self.board[front_case.0].is_some() {
            return;
        }
        if front_case.get_line() == promotion_line {
            let m1 = Move::new(*case, front_case, MoveKind::QueenPromotion);
            let m2 = Move::new(*case, front_case, MoveKind::BishopPromotion);
            let m3 = Move::new(*case, front_case, MoveKind::RookPromotion);
            let m4 = Move::new(*case, front_case, MoveKind::KnightPromotion);
            assert(pawn_push(v, m1) && pawn_push(v, m2) && pawn_push(v, m3) && pawn_push(v, m4));
            push_move(Ghost(v), out, m1);
            push_move(Ghost(v), out, m2);
            push_move(Ghost(v), out, m3);
            push_move(Ghost(v), out, m4);
        } else {
            let m = Move::new(*case, front_case, MoveKind::Quiet);
            assert(pawn_push(self@, m));
            push_move(Ghost(v), out, m);
        }
        let ghost mid = out@;
        if case.get_line() == start_line {
            if let Some(two) = case.get_neighbour(front, 2) {
                if self.board[two.0].is_none() {
                    let m = Move::new(*case, two, MoveKind::DoublePawnPush);
                    assert(pawn_double(self@, m));
                    push_move(Ghost(v), out, m);
                }
            }
        }
        proof {
            lemma_extends_contains(mid, out@);
        }
    }

    /// Adds the captures of the pawn on `case` along diagonal `side`: of an
    /// enemy piece (the four capturing promotions onto the last rank), and en passant.
    fn pawn_attack_dir(&self, case: &Case, side: Dir, out: &mut Vec<Move>)
        requires
            self.wf(),
            case.wf(),
            pawn_diagonal(self.side, side),
            self.board@[case.0 as int] == Some(Piece { kind: PieceKind::Pawn, color: self.side }),
            all_pseudo_legal(self@, old(out)@),
            old(out)@.no_duplicates(),
            forall|i: int|
                0 <= i < old(out)@.len() && (#[trigger] old(out)@[i]).from == *case
                    && old(out)@[i].kind.captures() ==> neighbour(*case, side, 1) != Some(
                    old(out)@[i].to,
                ),
        ensures
            all_pseudo_legal(self@, final(out)@),
            extends(old(out)@, final(out)@),
            forall|m: Move|
                m.from == *case && #[trigger] pawn_capture(self@, m, side) ==> final(out)@.contains(m),
            final(out)@.no_duplicates(),
            forall|i: int|
                old(out)@.len() <= i < final(out)@.len() ==> (#[trigger] final(out)@[i]).from
                    == *case && final(out)@[i].kind.captures() && neighbour(*case, side, 1) == Some(
                    final(out)@[i].to,
                ) && pawn_capture(self@, final(out)@[i], side),
    {
        let ghost v = self@;
        let promotion_line: usize = match self.side {
            Color::White => 7,
            Color::Black => 0,
        };
        let target = match case.get_neighbour(side, 1) {
            Some(t) => t,
            None => {
                return;
            },
        };
        if self.is_adversary(&target, &self.side) {
            if target.get_line() == promotion_line {
                let m1 = Move::new(*case, target, MoveKind::QueenCapturePromotion);
                let m2 = Move::new(*case, target, MoveKind::BishopCapturePromotion);
                let m3 = Move::new(*case, target, MoveKind::RookCapturePromotion);
                let m4 = Move::new(*case, target, MoveKind::KnightCapturePromotion);
                assert(pawn_capture(v, m1, side) && pawn_capture(v, m2, side) && pawn_capture(
                    v,
                    m3,
                    side,
                ) && pawn_capture(v, m4, side));
                push_move(Ghost(v), out, m1);
                push_move(Ghost(v), out, m2);
                push_move(Ghost(v), out, m3);
                push_move(Ghost(v), out, m4);
            } else {
                let m = Move::new(*case, target, MoveKind::SimpleCapture);
                assert(pawn_capture(self@, m, side));
                push_move(Ghost(v), out, m);
            }
        }
        let ghost mid = out@;
        if let Some(en_passant_target) = self.en_passant {
            if target == en_passant_target {
                let m = Move::new(*case, target, MoveKind::EnPassantCapture);
                assert(pawn_capture(self@, m, side));
                push_move(Ghost(v), out, m);
            }
        }
        proof {
            lemma_extends_contains(mid, out@);
        }
    }

    /// Adds the diagonal captures of the pawn on `case`.
    fn pawn_attack_moves(&self, case: &Case, out: &mut Vec<Move>)
        requires
            self.wf(),
            case.wf(),
            self.board@[case.0 as int] == Some(Piece { kind: PieceKind::Pawn, color: self.side }),
            all_pseudo_legal(self@, old(out)@),
            old(out)@.no_duplicates(),
            forall|i: int|
                0 <= i < old(out)@.len() && (#[trigger] old(out)@[i]).from == *case
                    ==> !old(out)@[i].kind.captures(),
        ensures
            all_pseudo_legal(self@, final(out)@),
            extends(old(out)@, final(out)@),
            forall|m: Move, d: Dir|
                m.from == *case && #[trigger] pawn_capture(self@, m, d) ==> final(out)@.contains(m),
            final(out)@.no_duplicates(),
            forall|i: int|
                old(out)@.len() <= i < final(out)@.len() ==> (#[trigger] final(out)@[i]).from
                    == *case && final(out)@[i].kind.captures() && exists|d: Dir|
                    #[trigger] pawn_capture(self@, final(out)@[i], d),
    {
        let ghost start = out@;
        let (front_left, front_right) = match self.side {
            Color::White => (Dir::UpLeft, Dir::UpRight),
            Color::Black => (Dir::DownLeft, Dir::DownRight),
        };
        self.pawn_attack_dir(case, front_left, out);
        let ghost mid = out@;
        proof {
            assert forall|i: int|
                0 <= i < mid.len() && (#[trigger] mid[i]).from == *case && mid[i].kind.captures()
                    implies neighbour(*case, front_right, 1) != Some(mid[i].to) by {
                if i < start.len() {
                    assert(mid[i] == start[i]);
                } else {
                    lemma_rays_disjoint(*case, front_left, front_right, 1, 1);
                }
            }
        }
        self.pawn_attack_dir(case, front_right, out);
        proof {
            lemma_extends_trans(start, mid, out@);
            lemma_extends_contains(mid, out@);
        }
    }

    /// Adds the castling moves of the king on its home square: a side is
    /// tried when its right is set, the squares between king and rook are
    /// empty, and the king's square, the one it crosses and the one it
    /// reaches are not attacked by the opponent.
    fn castle_move(&self, out: &mut Vec<Move>)
        requires
            self.wf(),
            self.board@[king_home(self.side)] == Some(
                Piece { kind: PieceKind::King, color: self.side },
            ),
            all_pseudo_legal(self@, old(out)@),
            old(out)@.no_duplicates(),
            forall|i: int|
                0 <= i < old(out)@.len() && (#[trigger] old(out)@[i]).from.0 == king_home(self.side)
                    ==> old(out)@[i].kind != MoveKind::KingCastle && old(out)@[i].kind
                    != MoveKind::QueenCastle,
        ensures
            all_pseudo_legal(self@, final(out)@),
            extends(old(out)@, final(out)@),
            forall|m: Move|
                king_castle(self@, m) || queen_castle(self@, m) ==> #[trigger] final(out)@.contains(m),
            final(out)@.no_duplicates(),
            forall|i: int|
                old(out)@.len() <= i < final(out)@.len() ==> (#[trigger] final(out)@[i]).from.0
                    == king_home(self.side) && (king_castle(self@, final(out)@[i]) || queen_castle(
                    self@,
                    final(out)@[i],
                )),
    {
        let ghost v = self@;
        let (e, can_king, can_queen) = match self.side {
            Color::White => (4usize, self.castle.white_king, self.castle.white_queen),
            Color::Black => (60usize, self.castle.black_king, self.castle.black_queen),
        };
        // The squares are tested against the opponent, the side not to move.
        let them = self.side.flip();
        if can_king && self.board[e + 1].is_none() && self.board[e + 2].is_none() {
            if !is_attacked(&self.board, Case(e), them) && !is_attacked(
                &self.board,
                Case(e + 1),
                them,
            ) && !is_attacked(&self.board, Case(e + 2), them) {
                let m = Move::new(Case(e), Case(e + 2), MoveKind::KingCastle);
                assert(king_castle(self@, m));
                push_move(Ghost(v), out, m);
            }
        }
        let ghost mid = out@;
        if can_queen && self.board[e - 1].is_none() && self.board[e - 2].is_none()
            && self.board[e - 3].is_none() {
            if !is_attacked(&self.board, Case(e), them) && !is_attacked(
                &self.board,
                Case(e - 1),
                them,
            ) && !is_attacked(&self.board, Case(e - 2), them) {
                let m = Move::new(Case(e), Case(e - 2), MoveKind::QueenCastle);
                assert(queen_castle(self@, m));
                push_move(Ghost(v), out, m);
            }
        }
        proof {
            lemma_extends_contains(mid, out@);
        }
    }

    /// Adds the pseudo-legal moves of the piece on `case`, if it belongs to
    /// the side to move.
    fn get_moves_for_case(&self, case: &Case, out: &mut Vec<Move>)
        requires
            self.wf(),
            case.wf(),
            all_pseudo_legal(self@, old(out)@),
            old(out)@.no_duplicates(),
            forall|i: int| 0 <= i < old(out)@.len() ==> (#[trigger] old(out)@[i]).from != *case,
        ensures
            all_pseudo_legal(self@, final(out)@),
            extends(old(out)@, final(out)@),
            forall|m: Move|
                m.from == *case && #[trigger] pseudo_legal(self@, m) ==> final(out)@.contains(m),
            final(out)@.no_duplicates(),
            forall|i: int|
                old(out)@.len() <= i < final(out)@.len() ==> (#[trigger] final(out)@[i]).from
                    == *case,
    {
        let ghost v = self@;
        let ghost start = out@;
        match self.board[case.0] {
            Some(Piece { kind, color }) => {
                if color != self.side {
                    return;
                }
                match kind {
                    PieceKind::Pawn => {
                        self.pawn_quiet_moves(case, out);
                        let ghost mid = out@;
                        self.pawn_attack_moves(case, out);
                        proof {
                            lemma_extends_trans(start, mid, out@);
                            lemma_extends_contains(mid, out@);
                        }
                    },
                    PieceKind::King => {
                        self.moves_for_dir(case, out);
                        let ghost mid = out@;
                        let home: usize = match self.side {
                            Color::White => 4,
                            Color::Black => 60,
                        };
                        if case.0 == home {
                            self.castle_move(out);
                        }
                        proof {
                            lemma_extends_trans(start, mid, out@);
                            lemma_extends_contains(mid, out@);
                        }
                    },
                    _ => {
                        self.moves_for_dir(case, out);
                    },
                }
            },
            None => {},
        }
    }

    /// Whether `mv` leaves no king of the mover attacked: the move is played
    /// on a copy of the squares, then each king of the side that just moved is
    /// tested against the side that is to move next.
    pub fn is_move_legal(&self, mv: &Move) -> (r: bool)
        requires
            self.wf(),
            self@.can_apply(*mv),
        ensures
            r == king_safe(moved(self.board@, *mv), self.side),
    {
        let squares = self.moved_squares(mv);
        king_is_safe(&squares, self.side)
    }

    /// The strictly-legal moves of the side to move: every move returned is
    /// legal, every legal move is returned, and none twice. For each of them,
    /// the position that `apply_move` gives has the mover's king safe, the
    /// other side to move, the clocks advanced as the move calls for, and the
    /// same number of pieces, or one fewer after a capture.
    pub fn get_moves(&self) -> (r: Vec<Move>)
        requires
            self.wf(),
        ensures
            all_legal(self@, r@),
            forall|m: Move| legal(self@, m) ==> #[trigger] r@.contains(m),
            r@.no_duplicates(),
            forall|i: int|
                0 <= i < r@.len() ==> king_safe(#[trigger] self@.apply(r@[i]).squares, self.side),
            forall|i: int|
                #![trigger r@[i]]
                0 <= i < r@.len() ==> {
                    let m = r@[i];
                    let n = self@.apply(m);
                    let mover = self.board@[m.from.0 as int]->Some_0;
                    &&& n.side == self.side.opposite()
                    &&& n.moves == self@.moves + if self.side == Color::Black {
                        1nat
                    } else {
                        0nat
                    }
                    &&& (n.halfmove == 0) == (m.kind.captures() || mover.kind == PieceKind::Pawn)
                    &&& !(m.kind.captures() || mover.kind == PieceKind::Pawn) ==> n.halfmove
                        == self@.halfmove + 1
                    &&& !m.kind.captures() ==> count_pieces(n.squares) == count_pieces(
                        self.board@,
                    )
                    &&& m.kind.captures() && en_passant_consistent(self@) ==> count_pieces(
                        n.squares,
                    ) == count_pieces(self.board@) - 1
                },
    {
        let ghost v = self@;
        let mut pseudo: Vec<Move> = Vec::new();
        let mut i: usize = 0;
        while i < 64
            invariant
                self.wf(),
                v == self@,
                all_pseudo_legal(self@, pseudo@),
                forall|m: Move|
                    m.from.0 < i && #[trigger] pseudo_legal(v, m) ==> pseudo@.contains(m),
                pseudo@.no_duplicates(),
                forall|k: int| 0 <= k < pseudo@.len() ==> (#[trigger] pseudo@[k]).from.0 < i,
            decreases 64 - i,
        {
            let ghost before = pseudo@;
            self.get_moves_for_case(&Case(i), &mut pseudo);
            proof {
                lemma_extends_contains(before, pseudo@);
                assert forall|k: int| 0 <= k < pseudo@.len() implies (#[trigger] pseudo@[k]).from.0
                    < i + 1 by {
                    if k < before.len() {
                        assert(pseudo@[k] == before[k]);
                    }
                }
            }
            i += 1;
        }
        let mut res: Vec<Move> = Vec::new();
        let mut j: usize = 0;
        while j < pseudo.len()
            invariant
                self.wf(),
                v == self@,
                all_pseudo_legal(self@, pseudo@),
                forall|m: Move| #[trigger] pseudo_legal(v, m) ==> pseudo@.contains(m),
                all_legal(self@, res@),
                forall|k: int|
                    0 <= k < j && legal(v, #[trigger] pseudo@[k]) ==> res@.contains(pseudo@[k]),
                pseudo@.no_duplicates(),
                res@.no_duplicates(),
                forall|a: int|
                    #![trigger res@[a]]
                    0 <= a < res@.len() ==> exists|k: int|
                        #![trigger pseudo@[k]]
                        0 <= k < j && pseudo@[k] == res@[a],
            decreases pseudo.len() - j,
        {
            let mv = pseudo[j];
            let ghost before = res@;
            assert(pseudo_legal(self@, pseudo@[j as int]));
            proof {
                lemma_pseudo_legal_applies(self@, mv);
            }
            if self.is_move_legal(&mv) {
                proof {
                    assert forall|a: int| 0 <= a < res@.len() implies res@[a] != mv by {
                        let k = choose|k: int| 0 <= k < j && #[trigger] pseudo@[k] == res@[a];
                        assert(pseudo@[k] != pseudo@[j as int]);
                    }
                }
                res.push(mv);
                assert(res@[res@.len() - 1] == mv);
            }
            proof {
                assert forall|a: int| #![trigger res@[a]] 0 <= a < res@.len() implies exists|k: int|
                    #![trigger pseudo@[k]]
                    0 <= k < j + 1 && pseudo@[k] == res@[a] by {
                    if a < before.len() {
                        assert(res@[a] == before[a]);
                        let k = choose|k: int| 0 <= k < j && #[trigger] pseudo@[k] == before[a];
                        assert(pseudo@[k] == res@[a]);
                    } else {
                        assert(pseudo@[j as int] == res@[a]);
                    }
                }
            }
            proof {
                assert(extends(before, res@));
                lemma_extends_contains(before, res@);
            }
            j += 1;
        }
        proof {
            assert forall|m: Move| legal(v, m) implies #[trigger] res@.contains(m) by {
                assert(pseudo_legal(v, m));
                assert(pseudo@.contains(m));
                let k = choose|k: int| 0 <= k < pseudo@.len() && pseudo@[k] == m;
                assert(legal(v, pseudo@[k]));
            }
            assert forall|i: int| #![trigger res@[i]] 0 <= i < res@.len() implies {
                let m = res@[i];
                let n = v.apply(m);
                let mover = self.board@[m.from.0 as int]->Some_0;
                &&& !(m.kind.captures() || mover.kind == PieceKind::Pawn) ==> n.halfmove
                    == v.halfmove + 1
                &&& (n.halfmove == 0) == (m.kind.captures() || mover.kind == PieceKind::Pawn)
                &&& !m.kind.captures() ==> count_pieces(n.squares) == count_pieces(self.board@)
                &&& m.kind.captures() && en_passant_consistent(v) ==> count_pieces(n.squares)
                    == count_pieces(self.board@) - 1
            } by {
                let m = res@[i];
                assert(legal(v, m));
                law_halfmove_reset(v, m);
                if m.kind.captures() {
                    if en_passant_consistent(v) {
                        law_capture_removes_one(v, m);
                    }
                } else {
                    law_quiet_move_keeps_count(v, m);
                }
            }
        }
        res
    }
}

} // verus!

verus! {

/// `t` lies 1 to `n - 1` steps away from `c` in direction `d`.
pub open spec fn on_ray(c: Case, d: Dir, t: Case, n: int) -> bool {
    exists|j: int| 1 <= j < n && #[trigger] neighbour(c, d, j) == Some(t)
}

/// Different numbers of steps in one direction reach different squares.
proof fn lemma_ray_injective(c: Case, d: Dir, j1: int, j2: int)
    requires
        c.wf(),
        neighbour(c, d, j1) is Some,
        neighbour(c, d, j1) == neighbour(c, d, j2),
    ensures
        j1 == j2,
{
    let l1 = c.line() + d.dline() * j1;
    let l2 = c.line() + d.dline() * j2;
    let k1 = c.column() + d.dcolumn() * j1;
    let k2 = c.column() + d.dcolumn() * j2;
    assert(8 * l1 + k1 == 8 * l2 + k2);
    assert(l1 == l2 && k1 == k2);
    assert(j1 == j2) by (nonlinear_arith)
        requires
            d.dline() * j1 == d.dline() * j2,
            d.dcolumn() * j1 == d.dcolumn() * j2,
            d.dline() != 0 || d.dcolumn() != 0,
    ;
}

/// Two directions whose steps point the same way are the same direction.
proof fn lemma_same_heading(d1: Dir, d2: Dir)
    requires
        d1.dline() * d2.dcolumn() == d2.dline() * d1.dcolumn(),
        (d1.dline() > 0) == (d2.dline() > 0),
        (d1.dline() < 0) == (d2.dline() < 0),
        (d1.dcolumn() > 0) == (d2.dcolumn() > 0),
        (d1.dcolumn() < 0) == (d2.dcolumn() < 0),
    ensures
        d1 == d2,
{
    match d1 {
        Dir::Up => assert(d2 == Dir::Up),
        Dir::UpRight => assert(d2 == Dir::UpRight),
        Dir::Right => assert(d2 == Dir::Right),
        Dir::DownRight => assert(d2 == Dir::DownRight),
        Dir::Down => assert(d2 == Dir::Down),
        Dir::DownLeft => assert(d2 == Dir::DownLeft),
        Dir::Left => assert(d2 == Dir::Left),
        Dir::UpLeft => assert(d2 == Dir::UpLeft),
        Dir::Cav1 => assert(d2 == Dir::Cav1),
        Dir::Cav2 => assert(d2 == Dir::Cav2),
        Dir::Cav4 => assert(d2 == Dir::Cav4),
        Dir::Cav5 => assert(d2 == Dir::Cav5),
        Dir::Cav7 => assert(d2 == Dir::Cav7),
        Dir::Cav8 => assert(d2 == Dir::Cav8),
        Dir::Cav10 => assert(d2 == Dir::Cav10),
        Dir::Cav11 => assert(d2 == Dir::Cav11),
    }
}

/// A square on the ray of one direction is on no ray of another.
proof fn lemma_on_rays_disjoint(c: Case, d1: Dir, d2: Dir, t: Case)
    requires
        c.wf(),
        d1 != d2,
        on_ray(c, d1, t, 8),
    ensures
        !on_ray(c, d2, t, 8),
{
    let j1 = choose|j: int| 1 <= j < 8 && #[trigger] neighbour(c, d1, j) == Some(t);
    assert forall|j2: int| 1 <= j2 < 8 implies #[trigger] neighbour(c, d2, j2) != Some(t) by {
        lemma_rays_disjoint(c, d1, d2, j1, j2);
    }
}

/// `t` is on the ray of a direction among the first `n` of the enumeration.
pub open spec fn on_earlier_ray(c: Case, t: Case, n: int) -> bool {
    exists|d: Dir| d.index() < n && #[trigger] on_ray(c, d, t, 8)
}

/// Rays in two different directions from one square share no square.
proof fn lemma_rays_disjoint(c: Case, d1: Dir, d2: Dir, j1: int, j2: int)
    requires
        c.wf(),
        d1 != d2,
        j1 >= 1,
        j2 >= 1,
        neighbour(c, d1, j1) is Some,
    ensures
        neighbour(c, d1, j1) != neighbour(c, d2, j2),
{
    if neighbour(c, d1, j1) == neighbour(c, d2, j2) {
        let l1 = c.line() + d1.dline() * j1;
        let l2 = c.line() + d2.dline() * j2;
        let k1 = c.column() + d1.dcolumn() * j1;
        let k2 = c.column() + d2.dcolumn() * j2;
        assert(8 * l1 + k1 == 8 * l2 + k2);
        assert(l1 == l2 && k1 == k2);
        let (a1, b1, a2, b2) = (d1.dline(), d1.dcolumn(), d2.dline(), d2.dcolumn());
        assert(a1 * j1 == a2 * j2 && b1 * j1 == b2 * j2);
        assert(a1 * b2 == a2 * b1 && (a1 > 0) == (a2 > 0) && (a1 < 0) == (a2 < 0) && (b1 > 0) == (b2
            > 0) && (b1 < 0) == (b2 < 0)) by (nonlinear_arith)
            requires
                a1 * j1 == a2 * j2,
                b1 * j1 == b2 * j2,
                j1 >= 1,
                j2 >= 1,
        ;
        lemma_same_heading(d1, d2);
    }
}

} // verus!
