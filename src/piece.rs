use vstd::prelude::*;
use vstd::string::*;

verus! {

/// Color of a piece, and the side to move.
#[derive(Debug, Copy, Clone, PartialEq, Eq, Structural)]
pub enum Color {
    White,
    Black,
}

impl Color {
    pub open spec fn opposite(self) -> Color {
        match self {
            Color::White => Color::Black,
            Color::Black => Color::White,
        }
    }

    /// The other color.
    pub fn flip(&self) -> (r: Color)
        ensures
            r == self.opposite(),
    {
        match self {
            Color::White => Color::Black,
            Color::Black => Color::White,
        }
    }

    /// The FEN letter of the side to move: `w` or `b`.
    pub fn letter(&self) -> (r: char)
        ensures
            r == color_letter(*self),
    {
        match self {
            Color::White => 'w',
            Color::Black => 'b',
        }
    }
}

pub open spec fn color_letter(c: Color) -> char {
    match c {
        Color::White => 'w',
        Color::Black => 'b',
    }
}

/// Kind of a piece.
#[derive(Debug, Copy, Clone, PartialEq, Eq, Structural)]
pub enum PieceKind {
    King,
    Queen,
    Rook,
    Bishop,
    Knight,
    Pawn,
}

/// A piece: a kind and a color.
#[derive(Debug, Copy, Clone, PartialEq, Eq, Structural)]
pub struct Piece {
    pub kind: PieceKind,
    pub color: Color,
}

/// Error returned when a character is not a FEN piece glyph.
#[derive(Debug, Copy, Clone, PartialEq, Eq, Structural)]
pub struct PieceParseError;

/// The lowercase FEN letter of a kind.
pub open spec fn kind_letter(k: PieceKind) -> char {
    match k {
        PieceKind::King => 'k',
        PieceKind::Queen => 'q',
        PieceKind::Rook => 'r',
        PieceKind::Bishop => 'b',
        PieceKind::Knight => 'n',
        PieceKind::Pawn => 'p',
    }
}

/// The FEN glyph of a piece: uppercase for White, lowercase for Black.
pub open spec fn glyph_of(p: Piece) -> char {
    let l = kind_letter(p.kind);
    match p.color {
        Color::White => ((l as u8) - 32) as char,
        Color::Black => l,
    }
}

/// The piece that a FEN glyph stands for, if any.
pub open spec fn piece_of_glyph(c: char) -> Option<Piece> {
    if c == 'K' {
        Some(Piece { kind: PieceKind::King, color: Color::White })
    } else if c == 'Q' {
        Some(Piece { kind: PieceKind::Queen, color: Color::White })
    } else if c == 'R' {
        Some(Piece { kind: PieceKind::Rook, color: Color::White })
    } else if c == 'B' {
        Some(Piece { kind: PieceKind::Bishop, color: Color::White })
    } else if c == 'N' {
        Some(Piece { kind: PieceKind::Knight, color: Color::White })
    } else if c == 'P' {
        Some(Piece { kind: PieceKind::Pawn, color: Color::White })
    } else if c == 'k' {
        Some(Piece { kind: PieceKind::King, color: Color::Black })
    } else if c == 'q' {
        Some(Piece { kind: PieceKind::Queen, color: Color::Black })
    } else if c == 'r' {
        Some(Piece { kind: PieceKind::Rook, color: Color::Black })
    } else if c == 'b' {
        Some(Piece { kind: PieceKind::Bishop, color: Color::Black })
    } else if c == 'n' {
        Some(Piece { kind: PieceKind::Knight, color: Color::Black })
    } else if c == 'p' {
        Some(Piece { kind: PieceKind::Pawn, color: Color::Black })
    } else {
        None
    }
}

/// Every piece is read back from its own glyph.
pub proof fn lemma_glyph_round_trip(p: Piece)
    ensures
        piece_of_glyph(glyph_of(p)) == Some(p),
{
}

impl Piece {
    /// The FEN glyph of this piece.
    pub fn glyph(&self) -> (r: char)
        ensures
            r == glyph_of(*self),
    {
        match (self.kind, self.color) {
            (PieceKind::King, Color::White) => 'K',
            (PieceKind::Queen, Color::White) => 'Q',
            (PieceKind::Rook, Color::White) => 'R',
            (PieceKind::Bishop, Color::White) => 'B',
            (PieceKind::Knight, Color::White) => 'N',
            (PieceKind::Pawn, Color::White) => 'P',
            (PieceKind::King, Color::Black) => 'k',
            (PieceKind::Queen, Color::Black) => 'q',
            (PieceKind::Rook, Color::Black) => 'r',
            (PieceKind::Bishop, Color::Black) => 'b',
            (PieceKind::Knight, Color::Black) => 'n',
            (PieceKind::Pawn, Color::Black) => 'p',
        }
    }

    /// Reads a text made of one FEN piece glyph.
    pub fn parse(s: &str) -> (r: Result<Piece, PieceParseError>)
        ensures
            match (s@.len() == 1, piece_of_glyph(s@[0])) {
                (true, Some(p)) => r == Ok::<Piece, PieceParseError>(p),
                _ => r is Err,
            },
    {
        if s.unicode_len() != 1 {
            return Err(PieceParseError);
        }
        Piece::from_glyph(s.get_char(0))
    }

    /// Reads a FEN piece glyph.
    pub fn from_glyph(c: char) -> (r: Result<Piece, PieceParseError>)
        ensures
            match piece_of_glyph(c) {
                Some(p) => r == Ok::<Piece, PieceParseError>(p),
                None => r is Err,
            },
    {
        let (kind, color) = match c {
            'K' => (PieceKind::King, Color::White),
            'Q' => (PieceKind::Queen, Color::White),
            'R' => (PieceKind::Rook, Color::White),
            'B' => (PieceKind::Bishop, Color::White),
            'N' => (PieceKind::Knight, Color::White),
            'P' => (PieceKind::Pawn, Color::White),
            'k' => (PieceKind::King, Color::Black),
            'q' => (PieceKind::Queen, Color::Black),
            'r' => (PieceKind::Rook, Color::Black),
            'b' => (PieceKind::Bishop, Color::Black),
            'n' => (PieceKind::Knight, Color::Black),
            'p' => (PieceKind::Pawn, Color::Black),
            _ => {
                return Err(PieceParseError);
            },
        };
        Ok(Piece { kind, color })
    }
}

impl std::str::FromStr for Piece {
    type Err = PieceParseError;

    fn from_str(s: &str) -> Result<Piece, PieceParseError> {
        Piece::parse(s)
    }
}

} // verus!
