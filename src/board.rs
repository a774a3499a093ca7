use vstd::prelude::*;
use crate::piece::{Piece, PieceKind, Color};
use crate::square::Case;
use crate::moves::{Move, MoveKind, MoveParseError, uci_move, kind_on_board};

verus! {

/// Error returned when a castling field is not `-` or a set of `KQkq` letters.
#[derive(Debug, Copy, Clone, PartialEq, Eq, Structural)]
pub struct ParseCastleError;

/// The castling moves that are still available.
#[derive(Debug, Copy, Clone, PartialEq, Eq, Structural)]
pub struct Castle {
    pub white_king: bool,
    pub white_queen: bool,
    pub black_king: bool,
    pub black_queen: bool,
}

/// A position: 64 squares, the side to move, castling rights, the en passant
/// target, the halfmove clock and the fullmove number.
#[derive(Debug, Copy, Clone)]
pub struct Board {
    /// Indexed by `column + 8 * line`, a1 = 0, h1 = 7, a8 = 56, h8 = 63.
    pub board: [Option<Piece>; 64],
    /// The side to play next.
    pub side: Color,
    pub castle: Castle,
    /// The square a pawn skipped over on the move just played, if it was a double push.
    pub en_passant: Option<Case>,
    /// Halfmoves since the last capture or pawn move.
    pub halfmove: u32,
    /// The fullmove number, incremented after each Black move.
    pub moves: u32,
}

/// A position as mathematical values.
pub struct BoardView {
    pub squares: Seq<Option<Piece>>,
    pub side: Color,
    pub castle: Castle,
    pub en_passant: Option<Case>,
    pub halfmove: nat,
    pub moves: nat,
}

impl View for Board {
    type V = BoardView;

    open spec fn view(&self) -> BoardView {
        BoardView {
            squares: self.board@,
            side: self.side,
            castle: self.castle,
            en_passant: self.en_passant,
            halfmove: self.halfmove as nat,
            moves: self.moves as nat,
        }
    }
}

/// The piece that stands on `to` after `m`: the mover, or what it promotes to.
pub open spec fn landing(s: Seq<Option<Piece>>, m: Move) -> Option<Piece> {
    match (s[m.from.0 as int], m.kind.promotes_to()) {
        (Some(p), Some(k)) => Some(Piece { kind: k, color: p.color }),
        (p, _) => p,
    }
}

/// The square behind `to` as the mover sees it: where a pawn taken en passant stands.
pub open spec fn behind(to: Case, mover: Color) -> int {
    match mover {
        Color::White => to.0 - 8,
        Color::Black => to.0 + 8,
    }
}

/// The squares after `m`: the mover (or its promotion) on `to`, `from`
/// emptied, and the rook of a castle or the pawn taken en passant moved or removed.
pub open spec fn moved(s: Seq<Option<Piece>>, m: Move) -> Seq<Option<Piece>> {
    let to = m.to.0 as int;
    let from = m.from.0 as int;
    let base = s.update(to, landing(s, m));
    match m.kind {
        MoveKind::KingCastle => base.update(to - 1, s[to + 1]).update(from, None).update(
            to + 1,
            None,
        ),
        MoveKind::QueenCastle => base.update(to + 1, s[to - 2]).update(from, None).update(
            to - 2,
            None,
        ),
        MoveKind::EnPassantCapture => base.update(from, None).update(
            behind(m.to, s[from]->Some_0.color),
            None,
        ),
        _ => base.update(from, None),
    }
}

/// Castling rights after `m`: a king move drops both of its color's rights, a
/// move from a corner drops that corner's right, and a capture on a corner drops it too.
pub open spec fn castle_after(c: Castle, s: Seq<Option<Piece>>, m: Move) -> Castle {
    let p = s[m.from.0 as int]->Some_0;
    let white_king_moves = p.kind == PieceKind::King && p.color == Color::White;
    let black_king_moves = p.kind == PieceKind::King && p.color == Color::Black;
    let takes = m.kind.captures();
    Castle {
        white_king: c.white_king && !white_king_moves && m.from.0 != 7 && !(takes && m.to.0 == 7),
        white_queen: c.white_queen && !white_king_moves && m.from.0 != 0 && !(takes && m.to.0
            == 0),
        black_king: c.black_king && !black_king_moves && m.from.0 != 63 && !(takes && m.to.0
            == 63),
        black_queen: c.black_queen && !black_king_moves && m.from.0 != 56 && !(takes && m.to.0
            == 56),
    }
}

impl BoardView {
    /// The squares hold 64 entries and the en passant target is on the board.
    pub open spec fn wf(self) -> bool {
        &&& self.squares.len() == 64
        &&& self.en_passant matches Some(c) ==> c.wf()
    }

    /// `m` names squares of the board, a piece stands on `from`, and the
    /// squares that a castle or an en passant capture also touches are on the board.
    pub open spec fn can_apply(self, m: Move) -> bool {
        &&& m.wf()
        &&& self.squares[m.from.0 as int] is Some
        &&& m.kind == MoveKind::KingCastle ==> 1 <= m.to.column() <= 6
        &&& m.kind == MoveKind::QueenCastle ==> 2 <= m.to.column() <= 6
        &&& m.kind == MoveKind::EnPassantCapture ==> 0 <= behind(
            m.to,
            self.squares[m.from.0 as int]->Some_0.color,
        ) < 64
    }

    /// The position after `m`.
    pub open spec fn apply(self, m: Move) -> BoardView {
        let p = self.squares[m.from.0 as int]->Some_0;
        BoardView {
            squares: moved(self.squares, m),
            side: self.side.opposite(),
            castle: castle_after(self.castle, self.squares, m),
            en_passant: if m.kind == MoveKind::DoublePawnPush {
                Some(Case(((m.from.0 + m.to.0) / 2) as usize))
            } else {
                None
            },
            halfmove: if m.kind.captures() || p.kind == PieceKind::Pawn {
                0
            } else {
                self.halfmove + 1
            },
            moves: if self.side == Color::Black {
                self.moves + 1
            } else {
                self.moves
            },
        }
    }
}

/// The piece on each square of the starting position.
pub open spec fn start_piece(i: int) -> Option<Piece> {
    let col = i % 8;
    let line = i / 8;
    let back = if col == 0 || col == 7 {
        PieceKind::Rook
    } else if col == 1 || col == 6 {
        PieceKind::Knight
    } else if col == 2 || col == 5 {
        PieceKind::Bishop
    } else if col == 3 {
        PieceKind::Queen
    } else {
        PieceKind::King
    };
    if line == 0 {
        Some(Piece { kind: back, color: Color::White })
    } else if line == 1 {
        Some(Piece { kind: PieceKind::Pawn, color: Color::White })
    } else if line == 6 {
        Some(Piece { kind: PieceKind::Pawn, color: Color::Black })
    } else if line == 7 {
        Some(Piece { kind: back, color: Color::Black })
    } else {
        None
    }
}

/// The kind standing on file `col` of a back rank in the starting position.
fn back_rank_kind(col: usize) -> (r: PieceKind)
    requires
        col < 8,
    ensures
        start_piece(col as int) == Some(Piece { kind: r, color: Color::White }),
{
    match col {
        0 | 7 => PieceKind::Rook,
        1 | 6 => PieceKind::Knight,
        2 | 5 => PieceKind::Bishop,
        3 => PieceKind::Queen,
        _ => PieceKind::King,
    }
}

impl Board {
    pub open spec fn wf(self) -> bool {
        self@.wf()
    }

    /// A board with no pieces, White to move, every castling right set, the
    /// clocks at 0 and 1.
    pub fn new_empty_board() -> (r: Board)
        ensures
            r.wf(),
            forall|i: int| 0 <= i < 64 ==> r.board@[i] is None,
            r.side == Color::White,
            r.castle == (Castle {
                white_king: true,
                white_queen: true,
                black_king: true,
                black_queen: true,
            }),
            r.en_passant is None,
            r.halfmove == 0,
            r.moves == 1,
    {
        Board {
            board: [None;64],
            side: Color::White,
            castle: Castle {
                white_king: true,
                white_queen: true,
                black_king: true,
                black_queen: true,
            },
            en_passant: None,
            halfmove: 0,
            moves: 1,
        }
    }

    /// The starting position, `rnbqkbnr/pppppppp/8/8/8/8/PPPPPPPP/RNBQKBNR w KQkq - 0 1`.
    pub fn new_board() -> (r: Board)
        ensures
            r.wf(),
            forall|i: int| 0 <= i < 64 ==> r.board@[i] == start_piece(i),
            r.side == Color::White,
            r.castle == (Castle {
                white_king: true,
                white_queen: true,
                black_king: true,
                black_queen: true,
            }),
            r.en_passant is None,
            r.halfmove == 0,
            r.moves == 1,
    {
        let mut b = Board::new_empty_board();
        let mut col: usize = 0;
        while col < 8
            invariant
                col <= 8,
                b.board@.len() == 64,
                forall|i: int| 0 <= i < 64 && i % 8 < col ==> b.board@[i] == start_piece(i),
                forall|i: int| 0 <= i < 64 && i % 8 >= col ==> b.board@[i] is None,
                b.side == Color::White,
                b.castle == (Castle {
                    white_king: true,
                    white_queen: true,
                    black_king: true,
                    black_queen: true,
                }),
                b.en_passant is None,
                b.halfmove == 0,
                b.moves == 1,
            decreases 8 - col,
        {
            let kind = back_rank_kind(col);
            b.board[col] = Some(Piece { kind, color: Color::White });
            b.board[col + 8] = Some(Piece { kind: PieceKind::Pawn, color: Color::White });
            b.board[col + 48] = Some(Piece { kind: PieceKind::Pawn, color: Color::Black });
            b.board[col + 56] = Some(Piece { kind, color: Color::Black });
            proof {
                assert forall|i: int| 0 <= i < 64 && i % 8 <= col implies b.board@[i]
                    == start_piece(i) by {
                    if i % 8 == col {
                        assert(start_piece(col + 56) == Some(Piece { kind, color: Color::Black }));
                    }
                }
            }
            col += 1;
        }
        b
    }

    /// Whether `mv` can be applied to this board.
    pub fn can_apply(&self, mv: &Move) -> (r: bool)
        requires
            self.wf(),
        ensures
            r == self@.can_apply(*mv),
    {
        if mv.from.0 >= 64 || mv.to.0 >= 64 {
            return false;
        }
        let piece = match self.board[mv.from.0] {
            Some(p) => p,
            None => {
                return false;
            },
        };
        let col = mv.to.0 % 8;
        match mv.kind {
            MoveKind::KingCastle => 1 <= col && col <= 6,
            MoveKind::QueenCastle => 2 <= col && col <= 6,
            MoveKind::EnPassantCapture => match piece.color {
                Color::White => mv.to.0 >= 8,
                Color::Black => mv.to.0 + 8 < 64,
            },
            _ => true,
        }
    }

    /// Plays a move given in UCI notation, its kind read from the position.
    /// Fails when the text is not a move, when no piece stands on its first
    /// square, when the squares a castle or an en passant capture also touches
    /// are off the board, or when a clock is at its largest value.
    pub fn apply_move_from_uci(&self, text: &str) -> (r: Result<Board, MoveParseError>)
        requires
            self.wf(),
        ensures
            match uci_move(text@) {
                None => r is Err,
                Some(m) => {
                    let k = Move { kind: kind_on_board(m, *self), ..m };
                    if self@.can_apply(k) && self.halfmove < u32::MAX && self.moves < u32::MAX {
                        r matches Ok(b) && b@ == self@.apply(k) && b.wf()
                    } else {
                        r is Err
                    }
                },
            },
    {
        let parsed = match Move::parse(text) {
            Ok(m) => m,
            Err(e) => {
                return Err(e);
            },
        };
        let mut mv = parsed;
        let kind = parsed.get_kind_on_board(self);
        mv.set_kind(kind);
        if !self.can_apply(&mv) || self.halfmove == u32::MAX || self.moves == u32::MAX {
            return Err(MoveParseError);
        }
        Ok(self.apply_move(&mv))
    }

    /// The board after `mv`, a fresh value: the input is not changed.
    pub fn apply_move(&self, mv: &Move) -> (r: Board)
        requires
            self.wf(),
            self@.can_apply(*mv),
            self.halfmove < u32::MAX,
            self.moves < u32::MAX,
        ensures
            r@ == self@.apply(*mv),
            r.wf(),
    {
        let mut new = *self;
        new.board = self.moved_squares(mv);
        let piece = match self.board[mv.from.0] {
            Some(p) => p,
            None => Piece { kind: PieceKind::Pawn, color: self.side },
        };
        new.en_passant = match mv.kind {
            MoveKind::DoublePawnPush => Some(Case((mv.from.0 + mv.to.0) / 2)),
            _ => None,
        };
        new.castle = self.castle_rights_after(mv, piece);
        if mv.is_capture() || piece.kind == PieceKind::Pawn {
            new.halfmove = 0;
        } else {
            new.halfmove = self.halfmove + 1;
        }
        match self.side {
            Color::White => {
                new.side = Color::Black;
            },
            Color::Black => {
                new.side = Color::White;
                new.moves = self.moves + 1;
            },
        }
        proof {
            assert(new.board@ == moved(self.board@, *mv));
        }
        new
    }

    /// The castling rights once `mv`, played by `piece`, is on the board.
    fn castle_rights_after(&self, mv: &Move, piece: Piece) -> (r: Castle)
        requires
            self.board@[mv.from.0 as int] == Some(piece),
            mv.wf(),
        ensures
            r == castle_after(self.castle, self.board@, *mv),
    {
        let king = piece.kind == PieceKind::King;
        let white = piece.color == Color::White;
        let takes = mv.is_capture();
        let f = mv.from.0;
        let t = mv.to.0;
        Castle {
            white_king: self.castle.white_king && !(king && white) && f != 7 && !(takes && t == 7),
            white_queen: self.castle.white_queen && !(king && white) && f != 0 && !(takes && t
                == 0),
            black_king: self.castle.black_king && !(king && !white) && f != 63 && !(takes && t
                == 63),
            black_queen: self.castle.black_queen && !(king && !white) && f != 56 && !(takes && t
                == 56),
        }
    }

    /// The squares after `mv`, with the rest of the position untouched.
    pub fn moved_squares(&self, mv: &Move) -> (r: [Option<Piece>; 64])
        requires
            self.wf(),
            self@.can_apply(*mv),
        ensures
            r@ == moved(self.board@, *mv),
    {
        let mut sq = self.board;
        let from = mv.from.0;
        let to = mv.to.0;
        let mover = match self.board[from] {
            Some(p) => p,
            None => Piece { kind: PieceKind::Pawn, color: self.side },
        };
        let landed = match mv.kind.promotion() {
            Some(k) => Piece { kind: k, color: mover.color },
            None => mover,
        };
        sq[to] = Some(landed);
        match mv.kind {
            MoveKind::KingCastle => {
                sq[to - 1] = self.board[to + 1];
                sq[from] = None;
                sq[to + 1] = None;
            },
            MoveKind::QueenCastle => {
                sq[to + 1] = self.board[to - 2];
                sq[from] = None;
                sq[to - 2] = None;
            },
            MoveKind::EnPassantCapture => {
                sq[from] = None;
                match mover.color {
                    Color::White => {
                        sq[to - 8] = None;
                    },
                    Color::Black => {
                        sq[to + 8] = None;
                    },
                }
            },
            _ => {
                sq[from] = None;
            },
        }
        proof {
            assert(sq@ =~= moved(self.board@, *mv));
        }
        sq
    }
}

impl std::str::FromStr for Board {
    type Err = crate::fen::BoardParseError;

    fn from_str(s: &str) -> Result<Board, crate::fen::BoardParseError> {
        Board::from_fen(s)
    }
}

} // verus!
