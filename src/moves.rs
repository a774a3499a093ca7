use vstd::prelude::*;
use vstd::string::*;
use crate::piece::{Piece, PieceKind, Color};
use crate::square::{Case, ParseCaseError, square_of_text, square_name};
use crate::board::Board;
use crate::text::{chars_of, string_of};

verus! {

/// What a move does besides carrying a piece from one square to another.
#[derive(Debug, Copy, Clone, PartialEq, Eq, Structural)]
pub enum MoveKind {
    Quiet,
    DoublePawnPush,
    KingCastle,
    QueenCastle,
    SimpleCapture,
    EnPassantCapture,
    KnightPromotion,
    BishopPromotion,
    RookPromotion,
    QueenPromotion,
    KnightCapturePromotion,
    BishopCapturePromotion,
    RookCapturePromotion,
    QueenCapturePromotion,
}

impl MoveKind {
    /// The six kinds that take a piece.
    pub open spec fn captures(self) -> bool {
        match self {
            MoveKind::SimpleCapture | MoveKind::EnPassantCapture | MoveKind::KnightCapturePromotion
            | MoveKind::BishopCapturePromotion | MoveKind::RookCapturePromotion
            | MoveKind::QueenCapturePromotion => true,
            _ => false,
        }
    }

    /// The kind a pawn becomes, for the eight promotion kinds.
    pub open spec fn promotes_to(self) -> Option<PieceKind> {
        match self {
            MoveKind::KnightPromotion | MoveKind::KnightCapturePromotion => Some(PieceKind::Knight),
            MoveKind::BishopPromotion | MoveKind::BishopCapturePromotion => Some(PieceKind::Bishop),
            MoveKind::RookPromotion | MoveKind::RookCapturePromotion => Some(PieceKind::Rook),
            MoveKind::QueenPromotion | MoveKind::QueenCapturePromotion => Some(PieceKind::Queen),
            _ => None,
        }
    }

    /// The kind that takes a piece and promotes to the same kind as this one.
    pub open spec fn with_capture(self) -> MoveKind {
        match self {
            MoveKind::QueenPromotion => MoveKind::QueenCapturePromotion,
            MoveKind::RookPromotion => MoveKind::RookCapturePromotion,
            MoveKind::KnightPromotion => MoveKind::KnightCapturePromotion,
            MoveKind::BishopPromotion => MoveKind::BishopCapturePromotion,
            _ => MoveKind::Quiet,
        }
    }

    pub fn is_capture(&self) -> (r: bool)
        ensures
            r == self.captures(),
    {
        match self {
            MoveKind::SimpleCapture | MoveKind::EnPassantCapture | MoveKind::KnightCapturePromotion
            | MoveKind::BishopCapturePromotion | MoveKind::RookCapturePromotion
            | MoveKind::QueenCapturePromotion => true,
            _ => false,
        }
    }

    pub fn promotion(&self) -> (r: Option<PieceKind>)
        ensures
            r == self.promotes_to(),
    {
        match self {
            MoveKind::KnightPromotion | MoveKind::KnightCapturePromotion => Some(PieceKind::Knight),
            MoveKind::BishopPromotion | MoveKind::BishopCapturePromotion => Some(PieceKind::Bishop),
            MoveKind::RookPromotion | MoveKind::RookCapturePromotion => Some(PieceKind::Rook),
            MoveKind::QueenPromotion | MoveKind::QueenCapturePromotion => Some(PieceKind::Queen),
            _ => None,
        }
    }
}

/// Error returned when a text is not a move in UCI notation.
#[derive(Debug, Copy, Clone, PartialEq, Eq, Structural)]
pub struct MoveParseError;

/// A move: the square left, the square reached, and what kind of move it is.
#[derive(Debug, Copy, Clone, PartialEq, Eq, Structural)]
pub struct Move {
    pub from: Case,
    pub to: Case,
    pub kind: MoveKind,
}

/// The promotion kind that a UCI suffix letter selects.
pub open spec fn promotion_of_letter(c: char) -> Option<MoveKind> {
    if c == 'q' {
        Some(MoveKind::QueenPromotion)
    } else if c == 'r' {
        Some(MoveKind::RookPromotion)
    } else if c == 'b' {
        Some(MoveKind::BishopPromotion)
    } else if c == 'n' {
        Some(MoveKind::KnightPromotion)
    } else {
        None
    }
}

/// The move that a UCI text names, before the board gives it its kind:
/// two squares, and an optional promotion letter.
pub open spec fn uci_move(t: Seq<char>) -> Option<Move> {
    if (t.len() == 4 || t.len() == 5) && square_of_text(t.subrange(0, 2)) is Some
        && square_of_text(t.subrange(2, 4)) is Some {
        let from = square_of_text(t.subrange(0, 2))->Some_0;
        let to = square_of_text(t.subrange(2, 4))->Some_0;
        if t.len() == 4 {
            Some(Move { from, to, kind: MoveKind::Quiet })
        } else {
            match promotion_of_letter(t[4]) {
                Some(k) => Some(Move { from, to, kind: k }),
                None => None,
            }
        }
    } else {
        None
    }
}

/// The kind of a move given by its squares and promotion letter alone, as
/// the position on `b` decides it.
pub open spec fn kind_on_board(m: Move, b: Board) -> MoveKind {
    let piece = b.board@[m.from.0 as int];
    let target = b.board@[m.to.0 as int];
    let pawn = piece matches Some(p) && p.kind == PieceKind::Pawn;
    let king = piece matches Some(p) && p.kind == PieceKind::King;
    if pawn && (m.to.line() == 0 || m.to.line() == 7) {
        if target is Some {
            m.kind.with_capture()
        } else {
            m.kind
        }
    } else if target is Some {
        MoveKind::SimpleCapture
    } else if pawn && b.en_passant == Some(m.to) {
        MoveKind::EnPassantCapture
    } else if king && ((m.from.0 == 4 && m.to.0 == 6) || (m.from.0 == 60 && m.to.0 == 62)) {
        MoveKind::KingCastle
    } else if king && ((m.from.0 == 4 && m.to.0 == 2) || (m.from.0 == 60 && m.to.0 == 58)) {
        MoveKind::QueenCastle
    } else if pawn && ((m.from.line() == 1 && m.to.line() == 3) || (m.from.line() == 6
        && m.to.line() == 4)) {
        MoveKind::DoublePawnPush
    } else {
        MoveKind::Quiet
    }
}

impl Move {
    pub open spec fn wf(self) -> bool {
        self.from.wf() && self.to.wf()
    }

    /// A move with the given squares and kind.
    pub fn new(from: Case, to: Case, kind: MoveKind) -> (r: Move)
        ensures
            r == (Move { from, to, kind }),
    {
        Move { from, to, kind }
    }

    /// The move that a UCI text names on `board`, its kind read from the position.
    pub fn new_on_board(text: &str, board: &Board) -> (r: Move)
        requires
            uci_move(text@) is Some,
        ensures
            r.from == uci_move(text@)->Some_0.from,
            r.to == uci_move(text@)->Some_0.to,
            r.kind == kind_on_board(uci_move(text@)->Some_0, *board),
            r.wf(),
    {
        match Move::parse(text) {
            Ok(mv) => {
                let mut mv = mv;
                let kind = mv.get_kind_on_board(board);
                mv.set_kind(kind);
                mv
            },
            Err(_) => Move { from: Case(0), to: Case(0), kind: MoveKind::Quiet },
        }
    }

    /// Reads a move in UCI notation: `e2e4`, `e7e8q`. Its kind is `Quiet`, or the
    /// promotion that the fifth letter selects.
    pub fn parse(text: &str) -> (r: Result<Move, MoveParseError>)
        ensures
            match uci_move(text@) {
                Some(m) => r == Ok::<Move, MoveParseError>(m),
                None => r is Err,
            },
            r matches Ok(m) ==> m.wf(),
    {
        let t = chars_of(text);
        if t.len() != 4 && t.len() != 5 {
            return Err(MoveParseError);
        }
        assert(t@.subrange(0, 2) == seq![t@[0], t@[1]]);
        assert(t@.subrange(2, 4) == seq![t@[2], t@[3]]);
        let from = match Case::from_chars(t[0], t[1]) {
            Ok(c) => c,
            Err(_) => {
                return Err(MoveParseError);
            },
        };
        let to = match Case::from_chars(t[2], t[3]) {
            Ok(c) => c,
            Err(_) => {
                return Err(MoveParseError);
            },
        };
        if t.len() == 4 {
            return Ok(Move { from, to, kind: MoveKind::Quiet });
        }
        let kind = match t[4] {
            'q' => MoveKind::QueenPromotion,
            'r' => MoveKind::RookPromotion,
            'b' => MoveKind::BishopPromotion,
            'n' => MoveKind::KnightPromotion,
            _ => {
                return Err(MoveParseError);
            },
        };
        Ok(Move { from, to, kind })
    }

    /// The move in UCI notation.
    pub fn to_string(&self) -> (r: String)
        requires
            self.wf(),
        ensures
            r@ == square_name(self.from) + square_name(self.to) + match self.kind.promotes_to() {
                Some(k) => seq![crate::piece::kind_letter(k)],
                None => Seq::<char>::empty(),
            },
    {
        let mut t: Vec<char> = Vec::new();
        let (a, b) = self.from.name();
        let (c, d) = self.to.name();
        t.push(a);
        t.push(b);
        t.push(c);
        t.push(d);
        match self.kind.promotion() {
            Some(PieceKind::Queen) => t.push('q'),
            Some(PieceKind::Rook) => t.push('r'),
            Some(PieceKind::Bishop) => t.push('b'),
            Some(PieceKind::Knight) => t.push('n'),
            _ => {},
        }
        proof {
            let tail = match self.kind.promotes_to() {
                Some(k) => seq![crate::piece::kind_letter(k)],
                None => Seq::<char>::empty(),
            };
            assert(t@ =~= square_name(self.from) + square_name(self.to) + tail);
        }
        string_of(&t)
    }

    /// Whether the move takes a piece.
    pub fn is_capture(&self) -> (r: bool)
        ensures
            r == self.kind.captures(),
    {
        self.kind.is_capture()
    }

    /// Whether the move promotes a pawn.
    pub fn is_promotion(&self) -> (r: bool)
        ensures
            r == (self.kind.promotes_to() is Some),
    {
        self.kind.promotion().is_some()
    }

    pub fn get_kind(&self) -> (r: MoveKind)
        ensures
            r == self.kind,
    {
        self.kind
    }

    pub fn set_kind(&mut self, kind: MoveKind)
        ensures
            *final(self) == (Move { kind, ..*old(self) }),
    {
        self.kind = kind;
    }

    /// The kind of this move on `board`, from its squares and promotion kind
    /// alone: the position tells captures, en passant, castling and double pushes.
    pub fn get_kind_on_board(&self, board: &Board) -> (r: MoveKind)
        requires
            self.wf(),
        ensures
            r == kind_on_board(*self, *board),
    {
        if self.is_promotion_on_board(board) {
            if self.is_capture_on_board(board) {
                match self.get_kind() {
                    MoveKind::QueenPromotion => MoveKind::QueenCapturePromotion,
                    MoveKind::RookPromotion => MoveKind::RookCapturePromotion,
                    MoveKind::KnightPromotion => MoveKind::KnightCapturePromotion,
                    MoveKind::BishopPromotion => MoveKind::BishopCapturePromotion,
                    _ => MoveKind::Quiet,
                }
            } else {
                self.get_kind()
            }
        } else if self.is_capture_on_board(board) {
            MoveKind::SimpleCapture
        } else if self.is_en_passant_on_board(board) {
            MoveKind::EnPassantCapture
        } else if self.is_king_rock_on_board(board) {
            MoveKind::KingCastle
        } else if self.is_queen_rock_on_board(board) {
            MoveKind::QueenCastle
        } else if self.is_double_pawn_on_board(board) {
            MoveKind::DoublePawnPush
        } else {
            MoveKind::Quiet
        }
    }

    /// Whether a piece stands on the destination.
    fn is_capture_on_board(&self, board: &Board) -> (r: bool)
        requires
            self.wf(),
        ensures
            r == (board.board@[self.to.0 as int] is Some),
    {
        match board.board[self.to.0] {
            None => false,
            Some(_) => true,
        }
    }

    /// Whether a pawn moves onto the first or the last rank.
    fn is_promotion_on_board(&self, board: &Board) -> (r: bool)
        requires
            self.wf(),
        ensures
            r == (board.board@[self.from.0 as int] matches Some(p) && p.kind == PieceKind::Pawn
                && (self.to.line() == 0 || self.to.line() == 7)),
    {
        match board.board[self.from.0] {
            Some(Piece { kind: PieceKind::Pawn, color: _ }) => self.to.get_line() == 0
                || self.to.get_line() == 7,
            _ => false,
        }
    }

    /// Whether a king goes from e1 to c1, or from e8 to c8.
    fn is_queen_rock_on_board(&self, board: &Board) -> (r: bool)
        requires
            self.wf(),
        ensures
            r == (board.board@[self.from.0 as int] matches Some(p) && p.kind == PieceKind::King
                && ((self.from.0 == 4 && self.to.0 == 2) || (self.from.0 == 60 && self.to.0
                == 58))),
    {
        match board.board[self.from.0] {
            Some(Piece { kind: PieceKind::King, color: _ }) => (self.from.0 == 4 && self.to.0
                == 2) || (self.from.0 == 60 && self.to.0 == 58),
            _ => false,
        }
    }

    /// Whether a king goes from e1 to g1, or from e8 to g8.
    fn is_king_rock_on_board(&self, board: &Board) -> (r: bool)
        requires
            self.wf(),
        ensures
            r == (board.board@[self.from.0 as int] matches Some(p) && p.kind == PieceKind::King
                && ((self.from.0 == 4 && self.to.0 == 6) || (self.from.0 == 60 && self.to.0
                == 62))),
    {
        match board.board[self.from.0] {
            Some(Piece { kind: PieceKind::King, color: _ }) => (self.from.0 == 4 && self.to.0
                == 6) || (self.from.0 == 60 && self.to.0 == 62),
            _ => false,
        }
    }

    /// Whether a pawn moves onto the board's en passant target.
    fn is_en_passant_on_board(&self, board: &Board) -> (r: bool)
        requires
            self.wf(),
        ensures
            r == (board.board@[self.from.0 as int] matches Some(p) && p.kind == PieceKind::Pawn
                && board.en_passant == Some(self.to)),
    {
        match board.board[self.from.0] {
            Some(Piece { kind: PieceKind::Pawn, color: _ }) => match board.en_passant {
                None => false,
                Some(case) => case == self.to,
            },
            _ => false,
        }
    }

    /// Whether a pawn goes two ranks forward from its starting rank.
    fn is_double_pawn_on_board(&self, board: &Board) -> (r: bool)
        requires
            self.wf(),
        ensures
            r == (board.board@[self.from.0 as int] matches Some(p) && p.kind == PieceKind::Pawn
                && ((self.from.line() == 1 && self.to.line() == 3) || (self.from.line() == 6
                && self.to.line() == 4))),
    {
        match board.board[self.from.0] {
            Some(Piece { kind: PieceKind::Pawn, color: _ }) => {
                let a = self.from.get_line();
                let b = self.to.get_line();
                (a == 1 && b == 3) || (a == 6 && b == 4)
            },
            _ => false,
        }
    }
}

impl std::str::FromStr for Move {
    type Err = MoveParseError;

    fn from_str(s: &str) -> Result<Move, MoveParseError> {
        Move::parse(s)
    }
}

} // verus!
