use vstd::prelude::*;
use crate::piece::{Piece, PieceKind, Color, glyph_of, piece_of_glyph, color_letter};
use crate::square::{Case, square_of_text, square_name};
use crate::board::{Board, BoardView, Castle, ParseCastleError};
use crate::text::{chars_of, string_of};

verus! {

/// The part of a FEN text that could not be read.
#[derive(Debug, Copy, Clone, PartialEq, Eq, Structural)]
pub enum FenField {
    /// The text does not hold exactly six space-separated fields.
    Fields,
    /// The placement does not hold exactly eight ranks.
    RankCount,
    /// A rank holds a character that is neither a digit 1 to 8 nor a piece glyph.
    PieceGlyph,
    /// A rank does not describe exactly eight squares.
    RankWidth,
    /// The active color is not `w` or `b`.
    Side,
    /// The castling field is not `-` or a set of `KQkq` letters.
    Castling,
    /// The en passant field is not `-` or a square.
    EnPassant,
    /// The halfmove clock is not a number.
    Halfmove,
    /// The fullmove number is not a number.
    Fullmove,
}

/// Error returned when a FEN text is rejected, with the field that failed.
#[derive(Debug, Copy, Clone, PartialEq, Eq, Structural)]
pub struct BoardParseError {
    pub field: FenField,
}

/// The pieces of `s` between the occurrences of `sep`, as `str::split` gives them.
pub open spec fn split(s: Seq<char>, sep: char) -> Seq<Seq<char>>
    decreases s.len(),
{
    if s.len() == 0 {
        seq![Seq::<char>::empty()]
    } else {
        let init = split(s.drop_last(), sep);
        if s.last() == sep {
            init.push(Seq::<char>::empty())
        } else {
            init.update(init.len() - 1, init.last().push(s.last()))
        }
    }
}

pub proof fn lemma_split_nonempty(s: Seq<char>, sep: char)
    ensures
        split(s, sep).len() >= 1,
    decreases s.len(),
{
    if s.len() > 0 {
        lemma_split_nonempty(s.drop_last(), sep);
    }
}

pub open spec fn is_run_digit(c: char) -> bool {
    '1' <= c <= '8'
}

/// The squares that one rank of a FEN placement describes, left to right: a
/// digit stands for that many empty squares, a glyph for a piece.
pub open spec fn row_cells(t: Seq<char>) -> Option<Seq<Option<Piece>>>
    decreases t.len(),
{
    if t.len() == 0 {
        Some(Seq::<Option<Piece>>::empty())
    } else {
        match row_cells(t.drop_last()) {
            None => None,
            Some(cells) => {
                let c = t.last();
                if is_run_digit(c) {
                    Some(cells + Seq::new((c as int - '0' as int) as nat, |i: int| None::<Piece>))
                } else {
                    match piece_of_glyph(c) {
                        Some(p) => Some(cells.push(Some(p))),
                        None => None,
                    }
                }
            },
        }
    }
}

/// What is wrong with one rank, if anything.
pub open spec fn row_error(t: Seq<char>) -> Option<FenField> {
    match row_cells(t) {
        None => Some(FenField::PieceGlyph),
        Some(cells) => if cells.len() != 8 {
            Some(FenField::RankWidth)
        } else {
            None
        },
    }
}

/// The first error among the first `n` ranks.
pub open spec fn rows_error(rows: Seq<Seq<char>>, n: int) -> Option<FenField>
    decreases n,
{
    if n <= 0 {
        None
    } else {
        match rows_error(rows, n - 1) {
            Some(e) => Some(e),
            None => row_error(rows[n - 1]),
        }
    }
}

/// The 64 squares of a placement whose eight ranks are given from rank 8 down to rank 1.
pub open spec fn placement_squares(rows: Seq<Seq<char>>) -> Seq<Option<Piece>> {
    Seq::new(64, |i: int| row_cells(rows[7 - i / 8])->Some_0[i % 8])
}

pub open spec fn side_of(f: Seq<char>) -> Option<Color> {
    if f == seq!['w'] {
        Some(Color::White)
    } else if f == seq!['b'] {
        Some(Color::Black)
    } else {
        None
    }
}

pub open spec fn has_char(f: Seq<char>, c: char) -> bool {
    exists|i: int| 0 <= i < f.len() && f[i] == c
}

pub open spec fn is_castle_letter(c: char) -> bool {
    c == 'K' || c == 'Q' || c == 'k' || c == 'q'
}

/// The rights a castling field gives: `-`, or letters of `KQkq` in any order.
pub open spec fn castle_of(f: Seq<char>) -> Option<Castle> {
    if f == seq!['-'] || forall|i: int| 0 <= i < f.len() ==> is_castle_letter(#[trigger] f[i]) {
        Some(
            Castle {
                white_king: has_char(f, 'K'),
                white_queen: has_char(f, 'Q'),
                black_king: has_char(f, 'k'),
                black_queen: has_char(f, 'q'),
            },
        )
    } else {
        None
    }
}

/// The target an en passant field gives: `-` for none, or a square.
pub open spec fn en_passant_of(f: Seq<char>) -> Option<Option<Case>> {
    if f == seq!['-'] {
        Some(None)
    } else {
        match square_of_text(f) {
            Some(c) => Some(Some(c)),
            None => None,
        }
    }
}

pub open spec fn is_digit(c: char) -> bool {
    '0' <= c <= '9'
}

/// The value of a sequence of decimal digits.
pub open spec fn digits_value(f: Seq<char>) -> nat
    decreases f.len(),
{
    if f.len() == 0 {
        0
    } else {
        digits_value(f.drop_last()) * 10 + (f.last() as nat - '0' as nat) as nat
    }
}

/// The number a clock field gives: one or more digits, whose value fits 32 bits.
pub open spec fn number_of(f: Seq<char>) -> Option<nat> {
    if f.len() > 0 && (forall|i: int| 0 <= i < f.len() ==> is_digit(#[trigger] f[i]))
        && digits_value(f) <= u32::MAX {
        Some(digits_value(f))
    } else {
        None
    }
}

/// The position a FEN text describes, or the first field that is wrong.
pub open spec fn parse_fen(s: Seq<char>) -> Result<BoardView, FenField> {
    let f = split(s, ' ');
    let rows = split(f[0], '/');
    if f.len() != 6 {
        Err(FenField::Fields)
    } else if rows.len() != 8 {
        Err(FenField::RankCount)
    } else if rows_error(rows, 8) is Some {
        Err(rows_error(rows, 8)->Some_0)
    } else if side_of(f[1]) is None {
        Err(FenField::Side)
    } else if castle_of(f[2]) is None {
        Err(FenField::Castling)
    } else if en_passant_of(f[3]) is None {
        Err(FenField::EnPassant)
    } else if number_of(f[4]) is None {
        Err(FenField::Halfmove)
    } else if number_of(f[5]) is None {
        Err(FenField::Fullmove)
    } else {
        Ok(
            BoardView {
                squares: placement_squares(rows),
                side: side_of(f[1])->Some_0,
                castle: castle_of(f[2])->Some_0,
                en_passant: en_passant_of(f[3])->Some_0,
                halfmove: number_of(f[4])->Some_0,
                moves: number_of(f[5])->Some_0,
            },
        )
    }
}

/// Splits `s` at each `sep`.
fn split_chars(s: &Vec<char>, sep: char) -> (r: Vec<Vec<char>>)
    ensures
        r@.len() == split(s@, sep).len(),
        forall|k: int| 0 <= k < r@.len() ==> (#[trigger] r@[k])@ == split(s@, sep)[k],
{
    let mut fields: Vec<Vec<char>> = Vec::new();
    let mut cur: Vec<char> = Vec::new();
    let mut i: usize = 0;
    while i < s.len()
        invariant
            i <= s.len(),
            split(s@.take(i as int), sep).len() == fields@.len() + 1,
            forall|k: int|
                0 <= k < fields@.len() ==> (#[trigger] fields@[k])@ == split(
                    s@.take(i as int),
                    sep,
                )[k],
            cur@ == split(s@.take(i as int), sep)[fields@.len() as int],
        decreases s.len() - i,
    {
        assert(s@.take(i + 1).drop_last() =~= s@.take(i as int));
        let c = s[i];
        if c == sep {
            fields.push(cur);
            cur = Vec::new();
        } else {
            cur.push(c);
        }
        i += 1;
    }
    assert(s@.take(i as int) =~= s@);
    fields.push(cur);
    fields
}

/// Reads one rank of a placement into its eight squares.
fn parse_row(t: &Vec<char>) -> (r: Result<Vec<Option<Piece>>, FenField>)
    ensures
        match row_error(t@) {
            Some(e) => r == Err::<Vec<Option<Piece>>, FenField>(e),
            None => r matches Ok(cells) && cells@ == row_cells(t@)->Some_0,
        },
{
    let mut cells: Vec<Option<Piece>> = Vec::new();
    let mut wide = false;
    let mut i: usize = 0;
    while i < t.len()
        invariant
            i <= t.len(),
            row_cells(t@.take(i as int)) is Some,
            wide ==> row_cells(t@.take(i as int))->Some_0.len() > 8,
            !wide ==> cells@ == row_cells(t@.take(i as int))->Some_0,
            cells@.len() <= 8,
        decreases t.len() - i,
    {
        assert(t@.take(i + 1).drop_last() =~= t@.take(i as int));
        let c = t[i];
        if '1' <= c && c <= '8' {
            let n = (c as u32 - '0' as u32) as usize;
            if wide || cells.len() + n > 8 {
                wide = true;
            } else {
                let ghost before = cells@;
                let mut k: usize = 0;
                while k < n
                    invariant
                        k <= n,
                        before.len() + n <= 8,
                        cells@ == before + Seq::new(k as nat, |j: int| None::<Piece>),
                    decreases n - k,
                {
                    cells.push(None);
                    k += 1;
                    assert(cells@ =~= before + Seq::new(k as nat, |j: int| None::<Piece>));
                }
            }
        } else {
            match Piece::from_glyph(c) {
                Ok(p) => {
                    if wide || cells.len() + 1 > 8 {
                        wide = true;
                    } else {
                        cells.push(Some(p));
                    }
                },
                Err(_) => {
                    proof {
                        lemma_row_cells_fails_after(t@, i as int + 1);
                    }
                    return Err(FenField::PieceGlyph);
                },
            }
        }
        i += 1;
    }
    assert(t@.take(i as int) =~= t@);
    if wide || cells.len() != 8 {
        Err(FenField::RankWidth)
    } else {
        Ok(cells)
    }
}

/// Once a prefix of a rank fails, the whole rank fails.
proof fn lemma_row_cells_fails_after(t: Seq<char>, n: int)
    requires
        0 <= n <= t.len(),
        row_cells(t.take(n)) is None,
    ensures
        row_cells(t) is None,
    decreases t.len() - n,
{
    if n < t.len() {
        assert(t.take(n + 1).drop_last() =~= t.take(n));
        lemma_row_cells_fails_after(t, n + 1);
    } else {
        assert(t.take(n) =~= t);
    }
}

/// A longer run of digits has a value at least as large.
proof fn lemma_digits_value_grows(f: Seq<char>, n: int)
    requires
        0 <= n <= f.len(),
    ensures
        digits_value(f.take(n)) <= digits_value(f),
    decreases f.len() - n,
{
    if n < f.len() {
        assert(f.take(n + 1).drop_last() =~= f.take(n));
        lemma_digits_value_grows(f, n + 1);
    } else {
        assert(f.take(n) =~= f);
    }
}

/// Reads a clock field.
fn parse_number(f: &Vec<char>) -> (r: Option<u32>)
    ensures
        match number_of(f@) {
            Some(n) => r == Some(n as u32),
            None => r is None,
        },
{
    if f.len() == 0 {
        return None;
    }
    let mut v: u64 = 0;
    let mut i: usize = 0;
    while i < f.len()
        invariant
            i <= f.len(),
            forall|j: int| 0 <= j < i ==> is_digit(#[trigger] f@[j]),
            v == digits_value(f@.take(i as int)),
            v <= u32::MAX,
        decreases f.len() - i,
    {
        assert(f@.take(i + 1).drop_last() =~= f@.take(i as int));
        let c = f[i];
        if c < '0' || c > '9' {
            return None;
        }
        v = v * 10 + (c as u32 - '0' as u32) as u64;
        i += 1;
        if v > u32::MAX as u64 {
            proof {
                lemma_digits_value_grows(f@, i as int);
            }
            return None;
        }
    }
    assert(f@.take(i as int) =~= f@);
    Some(v as u32)
}

impl Castle {
    /// Reads a castling field: `-`, or letters of `KQkq` in any order.
    pub fn parse(f: &Vec<char>) -> (r: Result<Castle, ParseCastleError>)
        ensures
            match castle_of(f@) {
                Some(c) => r == Ok::<Castle, ParseCastleError>(c),
                None => r is Err,
            },
    {
        let mut castle = Castle {
            white_king: false,
            white_queen: false,
            black_king: false,
            black_queen: false,
        };
        if f.len() == 1 && f[0] == '-' {
            assert(f@ =~= seq!['-']);
            return Ok(castle);
        }
        let mut i: usize = 0;
        while i < f.len()
            invariant
                i <= f.len(),
                f@ != seq!['-'],
                forall|j: int| 0 <= j < i ==> is_castle_letter(#[trigger] f@[j]),
                castle.white_king == has_char(f@.take(i as int), 'K'),
                castle.white_queen == has_char(f@.take(i as int), 'Q'),
                castle.black_king == has_char(f@.take(i as int), 'k'),
                castle.black_queen == has_char(f@.take(i as int), 'q'),
            decreases f.len() - i,
        {
            let c = f[i];
            let ghost p = f@.take(i as int);
            let ghost q = f@.take(i + 1);
            assert(q =~= p.push(c));
            match c {
                'K' => castle.white_king = true,
                'Q' => castle.white_queen = true,
                'k' => castle.black_king = true,
                'q' => castle.black_queen = true,
                _ => {
                    return Err(ParseCastleError);
                },
            }
            proof {
                assert(q[i as int] == c);
                assert forall|x: char| has_char(q, x) == (has_char(p, x) || x == c) by {
                    if has_char(p, x) {
                        let j = choose|j: int| 0 <= j < p.len() && p[j] == x;
                        assert(q[j] == x);
                    }
                    if has_char(q, x) && x != c {
                        let j = choose|j: int| 0 <= j < q.len() && q[j] == x;
                        assert(p[j] == x);
                    }
                }
            }
            i += 1;
        }
        assert(f@.take(i as int) =~= f@);
        Ok(castle)
    }

    /// Reads a castling field given as text.
    pub fn parse_str(s: &str) -> (r: Result<Castle, ParseCastleError>)
        ensures
            match castle_of(s@) {
                Some(c) => r == Ok::<Castle, ParseCastleError>(c),
                None => r is Err,
            },
    {
        let chars = chars_of(s);
        Castle::parse(&chars)
    }

    /// The castling field: `-` when no right is set, else the letters of the set
    /// rights in the order `KQkq`.
    pub fn to_chars(&self) -> (r: Vec<char>)
        ensures
            r@ == castle_text(*self),
    {
        let mut r: Vec<char> = Vec::new();
        if !(self.white_king || self.white_queen || self.black_king || self.black_queen) {
            r.push('-');
            return r;
        }
        if self.white_king {
            r.push('K');
        }
        if self.white_queen {
            r.push('Q');
        }
        if self.black_king {
            r.push('k');
        }
        if self.black_queen {
            r.push('q');
        }
        r
    }
}

pub open spec fn flag(b: bool, c: char) -> Seq<char> {
    if b {
        seq![c]
    } else {
        Seq::empty()
    }
}

/// The castling field of FEN for the given rights.
pub open spec fn castle_text(c: Castle) -> Seq<char> {
    if !(c.white_king || c.white_queen || c.black_king || c.black_queen) {
        seq!['-']
    } else {
        flag(c.white_king, 'K') + flag(c.white_queen, 'Q') + flag(c.black_king, 'k') + flag(
            c.black_queen,
            'q',
        )
    }
}

/// The digit for a run of `n` empty squares, or nothing when there is none.
pub open spec fn run_text(n: nat) -> Seq<char> {
    if n == 0 {
        Seq::empty()
    } else {
        seq![('0' as int + n) as char]
    }
}

/// Scans a rank left to right: the text so far, and the run of empty squares not yet written.
pub open spec fn row_scan(cells: Seq<Option<Piece>>) -> (Seq<char>, nat)
    decreases cells.len(),
{
    if cells.len() == 0 {
        (Seq::empty(), 0)
    } else {
        let (t, run) = row_scan(cells.drop_last());
        match cells.last() {
            None => (t, run + 1),
            Some(p) => (t + run_text(run) + seq![glyph_of(p)], 0),
        }
    }
}

/// The FEN text of one rank.
pub open spec fn row_text(cells: Seq<Option<Piece>>) -> Seq<char> {
    row_scan(cells).0 + run_text(row_scan(cells).1)
}

/// The squares of line `l` (0 for rank 1), a to h.
pub open spec fn line_cells(squares: Seq<Option<Piece>>, l: int) -> Seq<Option<Piece>> {
    squares.subrange(8 * l, 8 * l + 8)
}

/// The ranks 8 down to `8 - n + 1`, separated by `/`.
pub open spec fn rows_text(squares: Seq<Option<Piece>>, n: int) -> Seq<char>
    decreases n,
{
    if n <= 0 {
        Seq::empty()
    } else if n == 1 {
        row_text(line_cells(squares, 7))
    } else {
        rows_text(squares, n - 1) + seq!['/'] + row_text(line_cells(squares, 8 - n))
    }
}

/// The decimal digits of `n`, without leading zeros.
pub open spec fn decimal(n: nat) -> Seq<char>
    decreases n,
{
    if n < 10 {
        seq![('0' as int + n) as char]
    } else {
        decimal(n / 10).push(('0' as int + n % 10) as char)
    }
}

pub open spec fn en_passant_text(e: Option<Case>) -> Seq<char> {
    match e {
        None => seq!['-'],
        Some(c) => square_name(c),
    }
}

/// The fields of a FEN text after the placement, each after a space.
pub open spec fn fen_tail(v: BoardView) -> Seq<char> {
    seq![' ', color_letter(v.side), ' '] + castle_text(v.castle) + seq![' '] + en_passant_text(
        v.en_passant,
    ) + seq![' '] + decimal(v.halfmove) + seq![' '] + decimal(v.moves)
}

/// The FEN text of a position.
pub open spec fn fen_of(v: BoardView) -> Seq<char> {
    rows_text(v.squares, 8) + fen_tail(v)
}

impl std::str::FromStr for Castle {
    type Err = ParseCastleError;

    fn from_str(s: &str) -> Result<Castle, ParseCastleError> {
        Castle::parse_str(s)
    }
}

/// Appends the characters of `src`.
fn push_all(res: &mut Vec<char>, src: &Vec<char>)
    ensures
        final(res)@ == old(res)@ + src@,
{
    let ghost base = res@;
    let mut k: usize = 0;
    while k < src.len()
        invariant
            k <= src.len(),
            res@ == base + src@.take(k as int),
        decreases src.len() - k,
    {
        res.push(src[k]);
        k += 1;
        assert(res@ =~= base + src@.take(k as int));
    }
    assert(src@.take(k as int) =~= src@);
}

/// Appends the decimal digits of `n`.
fn push_decimal(out: &mut Vec<char>, n: u32)
    ensures
        final(out)@ == old(out)@ + decimal(n as nat),
    decreases n,
{
    if n >= 10 {
        push_decimal(out, n / 10);
    }
    out.push(((n % 10) as u8 + '0' as u8) as char);
    proof {
        if n >= 10 {
            assert(final(out)@ =~= old(out)@ + decimal(n as nat));
        } else {
            assert(final(out)@ =~= old(out)@ + decimal(n as nat));
        }
    }
}

impl Board {
    /// Appends the FEN text of line `line`.
    fn push_row(&self, res: &mut Vec<char>, line: usize)
        requires
            self.wf(),
            line < 8,
        ensures
            final(res)@ == old(res)@ + row_text(line_cells(self.board@, line as int)),
    {
        let ghost before = res@;
        let ghost cells = line_cells(self.board@, line as int);
        let mut n_empty: u8 = 0;
        let mut col: usize = 0;
        while col < 8
            invariant
                col <= 8,
                line < 8,
                self.wf(),
                cells == line_cells(self.board@, line as int),
                res@ == before + row_scan(cells.take(col as int)).0,
                n_empty == row_scan(cells.take(col as int)).1,
                n_empty <= col,
            decreases 8 - col,
        {
            assert(cells.take(col + 1).drop_last() =~= cells.take(col as int));
            assert(cells.take(col + 1).last() == self.board@[8 * line + col]);
            match self.board[8 * line + col] {
                Some(piece) => {
                    let ghost s = row_scan(cells.take(col as int));
                    if n_empty != 0 {
                        res.push(('0' as u8 + n_empty) as char);
                    }
                    res.push(piece.glyph());
                    n_empty = 0;
                    assert(res@ =~= before + (s.0 + run_text(s.1) + seq![glyph_of(piece)]));
                },
                None => {
                    n_empty += 1;
                },
            }
            col += 1;
        }
        assert(cells.take(8) =~= cells);
        if n_empty != 0 {
            res.push(('0' as u8 + n_empty) as char);
        }
        assert(res@ =~= before + row_text(cells));
    }

    /// Reads a position from FEN. Each failure names the first field that is wrong.
    pub fn from_fen(fen: &str) -> (r: Result<Board, BoardParseError>)
        ensures
            match parse_fen(fen@) {
                Ok(v) => r matches Ok(b) && b@ == v && b.wf(),
                Err(e) => r == Err::<Board, BoardParseError>(BoardParseError { field: e }),
            },
    {
        let chars = chars_of(fen);
        let fields = split_chars(&chars, ' ');
        if fields.len() != 6 {
            return Err(BoardParseError { field: FenField::Fields });
        }
        let rows = split_chars(&fields[0], '/');
        if rows.len() != 8 {
            return Err(BoardParseError { field: FenField::RankCount });
        }
        let ghost rs = split(fen@, ' ');
        let ghost rows_s = split(rs[0], '/');
        assert(fields@[0]@ == rs[0]);
        let mut board = Board::new_empty_board();
        let mut l: usize = 0;
        while l < 8
            invariant
                l <= 8,
                rows@.len() == 8,
                rows_s.len() == 8,
                forall|k: int| 0 <= k < 8 ==> (#[trigger] rows@[k])@ == rows_s[k],
                rows_error(rows_s, l as int) is None,
                rs == split(fen@, ' '),
                rs.len() == 6,
                rows_s == split(rs[0], '/'),
                board.board@.len() == 64,
                forall|i: int|
                    0 <= i < 64 && 7 - i / 8 < l ==> #[trigger] board.board@[i]
                        == placement_squares(rows_s)[i],
            decreases 8 - l,
        {
            let cells = match parse_row(&rows[l]) {
                Ok(c) => c,
                Err(e) => {
                    assert(rows_error(rows_s, l + 1) == Some(e));
                    proof {
                        lemma_rows_error_stays(rows_s, l as int + 1, 8);
                        assert(rows_error(rows_s, 8) == Some(e));
                    }
                    return Err(BoardParseError { field: e });
                },
            };
            let line = 7 - l;
            let mut c: usize = 0;
            while c < 8
                invariant
                    c <= 8,
                    l < 8,
                    line == 7 - l,
                    rows_s.len() == 8,
                    cells@ == row_cells(rows_s[l as int])->Some_0,
                    cells@.len() == 8,
                    board.board@.len() == 64,
                    forall|i: int|
                        0 <= i < 64 && (7 - i / 8 < l || (i / 8 == line && i % 8 < c))
                            ==> #[trigger] board.board@[i] == placement_squares(rows_s)[i],
                decreases 8 - c,
            {
                board.board[8 * line + c] = cells[c];
                c += 1;
            }
            l += 1;
        }
        let side = if fields[1].len() == 1 && fields[1][0] == 'w' {
            assert(fields@[1]@ =~= seq!['w']);
            Color::White
        } else if fields[1].len() == 1 && fields[1][0] == 'b' {
            assert(fields@[1]@ =~= seq!['b']);
            Color::Black
        } else {
            return Err(BoardParseError { field: FenField::Side });
        };
        let castle = match Castle::parse(&fields[2]) {
            Ok(c) => c,
            Err(_) => {
                return Err(BoardParseError { field: FenField::Castling });
            },
        };
        let f3 = &fields[3];
        let en_passant = if f3.len() == 1 && f3[0] == '-' {
            assert(f3@ =~= seq!['-']);
            None
        } else if f3.len() == 2 {
            assert(f3@ =~= seq![f3@[0], f3@[1]]);
            match Case::from_chars(f3[0], f3[1]) {
                Ok(c) => Some(c),
                Err(_) => {
                    return Err(BoardParseError { field: FenField::EnPassant });
                },
            }
        } else {
            return Err(BoardParseError { field: FenField::EnPassant });
        };
        let halfmove = match parse_number(&fields[4]) {
            Some(n) => n,
            None => {
                return Err(BoardParseError { field: FenField::Halfmove });
            },
        };
        let moves = match parse_number(&fields[5]) {
            Some(n) => n,
            None => {
                return Err(BoardParseError { field: FenField::Fullmove });
            },
        };
        board.side = side;
        board.castle = castle;
        board.en_passant = en_passant;
        board.halfmove = halfmove;
        board.moves = moves;
        assert(board.board@ =~= placement_squares(rows_s));
        Ok(board)
    }

    /// Reads a position from a FEN text that is known to be valid.
    pub fn new_from_fen(fen: &str) -> (r: Board)
        requires
            parse_fen(fen@) is Ok,
        ensures
            r@ == parse_fen(fen@)->Ok_0,
            r.wf(),
    {
        match Board::from_fen(fen) {
            Ok(b) => b,
            Err(_) => Board::new_empty_board(),
        }
    }

    /// The FEN text of the position.
    pub fn to_fen(&self) -> (r: String)
        requires
            self.wf(),
        ensures
            r@ == fen_of(self@),
    {
        let mut res: Vec<char> = Vec::new();
        let mut n: usize = 0;
        while n < 8
            invariant
                n <= 8,
                self.wf(),
                res@ == rows_text(self.board@, n as int),
            decreases 8 - n,
        {
            if n > 0 {
                res.push('/');
            }
            let ghost before = res@;
            self.push_row(&mut res, 7 - n);
            assert(res@ =~= rows_text(self.board@, n + 1)) by {
                if n > 0 {
                    assert(before == rows_text(self.board@, n as int) + seq!['/']);
                }
            }
            n += 1;
        }
        self.push_tail(&mut res);
        string_of(&res)
    }

    /// Appends the fields after the placement.
    #[verifier::rlimit(50)]
    fn push_tail(&self, res: &mut Vec<char>)
        requires
            self.wf(),
        ensures
            final(res)@ == old(res)@ + fen_tail(self@),
    {
        let ghost part0 = res@;
        let letter = self.side.letter();
        res.push(' ');
        res.push(letter);
        res.push(' ');
        assert(res@ =~= part0 + seq![' ', color_letter(self.side), ' ']);
        let ghost part1 = res@;
        let castle = self.castle.to_chars();
        push_all(res, &castle);
        res.push(' ');
        assert(res@ =~= part1 + castle_text(self.castle) + seq![' ']);
        let ghost part2 = res@;
        match self.en_passant {
            Some(c) => {
                let (a, b) = c.name();
                res.push(a);
                res.push(b);
                assert(res@ =~= part2 + en_passant_text(self.en_passant));
            },
            None => {
                res.push('-');
                assert(res@ =~= part2 + en_passant_text(self.en_passant));
            },
        }
        res.push(' ');
        let ghost part3 = res@;
        push_decimal(res, self.halfmove);
        res.push(' ');
        let ghost part4 = res@;
        assert(part4 =~= part3 + decimal(self.halfmove as nat) + seq![' ']);
        push_decimal(res, self.moves);
        assert(res@ =~= part0 + fen_tail(self@));
    }

    /// A diagram of the board: ranks 8 down to 1, each prefixed by its number,
    /// `.` for an empty square, and the file letters underneath.
    pub fn to_string(&self) -> (r: String)
        requires
            self.wf(),
        ensures
            r@ == diagram(self.board@),
    {
        let mut res: Vec<char> = Vec::new();
        let mut n: usize = 0;
        while n < 8
            invariant
                n <= 8,
                self.wf(),
                res@ == diagram_rows(self.board@, n as int),
            decreases 8 - n,
        {
            let line = 7 - n;
            let ghost before = res@;
            res.push(('1' as u8 + line as u8) as char);
            res.push(' ');
            let mut col: usize = 0;
            while col < 8
                invariant
                    col <= 8,
                    n < 8,
                    line == 7 - n,
                    self.wf(),
                    res@ == before + seq![('1' as int + line) as char, ' '] + Seq::new(
                        col as nat,
                        |c: int| cell_char(self.board@[8 * line + c]),
                    ),
                decreases 8 - col,
            {
                let ch = match self.board[8 * line + col] {
                    Some(piece) => piece.glyph(),
                    None => '.',
                };
                res.push(ch);
                col += 1;
                assert(res@ =~= before + seq![('1' as int + line) as char, ' '] + Seq::new(
                    col as nat,
                    |c: int| cell_char(self.board@[8 * line + c]),
                ));
            }
            res.push('\n');
            n += 1;
            assert(res@ =~= diagram_rows(self.board@, n as int));
        }
        let footer = ['a', 'b', 'c', 'd', 'e', 'f', 'g', 'h'];
        res.push(' ');
        res.push(' ');
        let mut k: usize = 0;
        let ghost base = res@;
        while k < 8
            invariant
                k <= 8,
                res@ == base + footer@.take(k as int),
            decreases 8 - k,
        {
            res.push(footer[k]);
            k += 1;
            assert(res@ =~= base + footer@.take(k as int));
        }
        assert(res@ =~= diagram(self.board@));
        string_of(&res)
    }
}

/// How a diagram shows a square.
pub open spec fn cell_char(c: Option<Piece>) -> char {
    match c {
        Some(p) => glyph_of(p),
        None => '.',
    }
}

/// The first `n` lines of a diagram, from rank 8 down.
pub open spec fn diagram_rows(squares: Seq<Option<Piece>>, n: int) -> Seq<char>
    decreases n,
{
    if n <= 0 {
        Seq::empty()
    } else {
        let line = 8 - n;
        diagram_rows(squares, n - 1) + seq![('1' as int + line) as char, ' '] + Seq::new(
            8,
            |c: int| cell_char(squares[8 * line + c]),
        ) + seq!['\n']
    }
}

pub open spec fn diagram(squares: Seq<Option<Piece>>) -> Seq<char> {
    diagram_rows(squares, 8) + seq![' ', ' ', 'a', 'b', 'c', 'd', 'e', 'f', 'g', 'h']
}

/// Once one of the first `n` ranks is wrong, the first error among more ranks is the same.
proof fn lemma_rows_error_stays(rows: Seq<Seq<char>>, n: int, m: int)
    requires
        0 <= n <= m,
        rows_error(rows, n) is Some,
    ensures
        rows_error(rows, m) == rows_error(rows, n),
    decreases m - n,
{
    if n < m {
        lemma_rows_error_stays(rows, n, m - 1);
    }
}

} // verus!

verus! {

/// Splitting at a separator placed between two texts splits each of them.
proof fn lemma_split_append(a: Seq<char>, b: Seq<char>, sep: char)
    ensures
        split(a + seq![sep] + b, sep) == split(a, sep) + split(b, sep),
    decreases b.len(),
{
    let x = a + seq![sep] + b;
    if b.len() == 0 {
        assert(x.drop_last() =~= a);
        assert(split(a, sep).push(Seq::<char>::empty()) =~= split(a, sep) + split(b, sep));
    } else {
        let b0 = b.drop_last();
        assert(x.drop_last() =~= a + seq![sep] + b0);
        lemma_split_append(a, b0, sep);
        lemma_split_nonempty(b0, sep);
        if b.last() == sep {
            assert(split(x, sep) =~= split(a, sep) + split(b, sep));
        } else {
            let init = split(a, sep) + split(b0, sep);
            assert(init.update(init.len() - 1, init.last().push(b.last())) =~= split(a, sep)
                + split(b, sep));
        }
    }
}

/// A text without the separator is a single piece.
proof fn lemma_split_whole(a: Seq<char>, sep: char)
    requires
        forall|i: int| 0 <= i < a.len() ==> a[i] != sep,
    ensures
        split(a, sep) == seq![a],
    decreases a.len(),
{
    if a.len() > 0 {
        lemma_split_whole(a.drop_last(), sep);
        assert(a[a.len() - 1] != sep);
        assert(a.drop_last().push(a.last()) =~= a);
        assert(seq![a.drop_last()].update(0, a.drop_last().push(a.last())) =~= seq![a]);
    } else {
        assert(a =~= Seq::<char>::empty());
    }
}

/// Characters a rank's text is made of.
pub open spec fn is_row_char(c: char) -> bool {
    is_run_digit(c) || piece_of_glyph(c) is Some
}

proof fn lemma_row_scan(cells: Seq<Option<Piece>>)
    requires
        cells.len() <= 8,
    ensures
        row_scan(cells).1 <= cells.len(),
        row_cells(row_scan(cells).0) == Some(cells.take(cells.len() - row_scan(cells).1)),
        forall|i: int|
            cells.len() - row_scan(cells).1 <= i < cells.len() ==> #[trigger] cells[i] is None,
        forall|i: int| 0 <= i < row_scan(cells).0.len() ==> is_row_char(#[trigger] row_scan(cells).0[i]),
    decreases cells.len(),
{
    if cells.len() > 0 {
        let init = cells.drop_last();
        lemma_row_scan(init);
        let (t, run) = row_scan(init);
        match cells.last() {
            None => {
                assert(cells.take(cells.len() - (run + 1)) =~= init.take(init.len() - run));
                assert forall|i: int| cells.len() - (run + 1) <= i < cells.len() implies #[trigger] cells[i] is None by {
                    if i < cells.len() - 1 {
                        assert(cells[i] == init[i]);
                    }
                }
            },
            Some(p) => {
                crate::piece::lemma_glyph_round_trip(p);
                lemma_run_text(t, run, init);
                let u = t + run_text(run);
                let w = u + seq![glyph_of(p)];
                assert(w.drop_last() =~= u);
                assert(!is_run_digit(glyph_of(p)));
                assert(cells.take(cells.len() as int) =~= init.push(Some(p)));
                assert forall|i: int| 0 <= i < w.len() implies is_row_char(#[trigger] w[i]) by {
                    if i < t.len() {
                        assert(w[i] == t[i]);
                    }
                }
            },
        }
    }
}

/// Writing the pending run after a rank's text reads back all of its squares.
proof fn lemma_run_text(t: Seq<char>, run: nat, cells: Seq<Option<Piece>>)
    requires
        run <= cells.len() <= 8,
        row_cells(t) == Some(cells.take(cells.len() - run)),
        forall|i: int| cells.len() - run <= i < cells.len() ==> #[trigger] cells[i] is None,
        forall|i: int| 0 <= i < t.len() ==> is_row_char(#[trigger] t[i]),
    ensures
        row_cells(t + run_text(run)) == Some(cells),
        forall|i: int| 0 <= i < (t + run_text(run)).len() ==> is_row_char(#[trigger] (t + run_text(run))[i]),
{
    if run == 0 {
        assert(t + run_text(run) =~= t);
        assert(cells.take(cells.len() as int) =~= cells);
    } else {
        let u = t + run_text(run);
        assert(u.drop_last() =~= t);
        assert(cells.take(cells.len() - run) + Seq::new(run, |i: int| None::<Piece>) =~= cells);
    }
}

proof fn lemma_row_text(cells: Seq<Option<Piece>>)
    requires
        cells.len() <= 8,
    ensures
        row_cells(row_text(cells)) == Some(cells),
        forall|i: int| 0 <= i < row_text(cells).len() ==> is_row_char(#[trigger] row_text(cells)[i]),
{
    lemma_row_scan(cells);
    lemma_run_text(row_scan(cells).0, row_scan(cells).1, cells);
}

/// The ranks of a placement text, read back one by one.
proof fn lemma_rows_text(squares: Seq<Option<Piece>>, n: int)
    requires
        squares.len() == 64,
        1 <= n <= 8,
    ensures
        split(rows_text(squares, n), '/') == Seq::new(
            n as nat,
            |k: int| row_text(line_cells(squares, 7 - k)),
        ),
        forall|i: int|
            0 <= i < rows_text(squares, n).len() ==> #[trigger] rows_text(squares, n)[i] != ' ',
    decreases n,
{
    let last = row_text(line_cells(squares, 8 - n));
    lemma_row_text(line_cells(squares, 8 - n));
    assert forall|i: int| 0 <= i < last.len() implies last[i] != '/' && last[i] != ' ' by {
        assert(is_row_char(last[i]));
    }
    lemma_split_whole(last, '/');
    if n == 1 {
        assert(seq![last] =~= Seq::new(n as nat, |k: int| row_text(line_cells(squares, 7 - k))));
    } else {
        lemma_rows_text(squares, n - 1);
        lemma_split_append(rows_text(squares, n - 1), last, '/');
        assert(split(rows_text(squares, n - 1), '/') + seq![last] =~= Seq::new(
            n as nat,
            |k: int| row_text(line_cells(squares, 7 - k)),
        ));
        let r = rows_text(squares, n);
        assert forall|i: int| 0 <= i < r.len() implies #[trigger] r[i] != ' ' by {
            let p = rows_text(squares, n - 1);
            if i < p.len() {
                assert(r[i] == p[i]);
            } else if i > p.len() {
                assert(r[i] == last[i - p.len() - 1]);
            }
        }
    }
}

/// Ranks that each describe eight squares hold no error.
proof fn lemma_rows_no_error(rows: Seq<Seq<char>>, n: int)
    requires
        0 <= n <= rows.len(),
        forall|k: int| 0 <= k < n ==> #[trigger] row_error(rows[k]) is None,
    ensures
        rows_error(rows, n) is None,
    decreases n,
{
    if n > 0 {
        lemma_rows_no_error(rows, n - 1);
    }
}

proof fn lemma_decimal(n: nat)
    ensures
        decimal(n).len() > 0,
        forall|i: int| 0 <= i < decimal(n).len() ==> is_digit(#[trigger] decimal(n)[i]),
        digits_value(decimal(n)) == n,
    decreases n,
{
    if n >= 10 {
        lemma_decimal(n / 10);
        let d = decimal(n);
        assert(d.drop_last() =~= decimal(n / 10));
        assert(n == (n / 10) * 10 + n % 10);
        assert(d.last() as nat - '0' as nat == n % 10);
        assert forall|i: int| 0 <= i < d.len() implies is_digit(#[trigger] d[i]) by {
            if i < d.len() - 1 {
                assert(d[i] == decimal(n / 10)[i]);
            }
        }
    } else {
        assert(decimal(n).drop_last() =~= Seq::<char>::empty());
        assert(digits_value(Seq::<char>::empty()) == 0);
        assert(decimal(n).last() as nat - '0' as nat == n);
    }
}

proof fn lemma_castle_text(c: Castle)
    ensures
        castle_of(castle_text(c)) == Some(c),
        forall|i: int| 0 <= i < castle_text(c).len() ==> #[trigger] castle_text(c)[i] != ' ',
{
    let t = castle_text(c);
    if !(c.white_king || c.white_queen || c.black_king || c.black_queen) {
        assert(!has_char(t, 'K') && !has_char(t, 'Q') && !has_char(t, 'k') && !has_char(t, 'q'));
    } else {
        let a = flag(c.white_king, 'K');
        let b = flag(c.white_queen, 'Q');
        let d = flag(c.black_king, 'k');
        let e = flag(c.black_queen, 'q');
        assert(t == a + b + d + e);
        assert forall|i: int| 0 <= i < t.len() implies is_castle_letter(#[trigger] t[i]) && t[i] != ' ' by {
            if i < a.len() {
                assert(t[i] == a[i]);
            } else if i < a.len() + b.len() {
                assert(t[i] == b[i - a.len()]);
            } else if i < a.len() + b.len() + d.len() {
                assert(t[i] == d[i - a.len() - b.len()]);
            } else {
                assert(t[i] == e[i - a.len() - b.len() - d.len()]);
            }
        }
        assert(t != seq!['-']) by {
            if t == seq!['-'] {
                assert(is_castle_letter(t[0]));
            }
        }
        lemma_has_flag(a, b, d, e, c.white_king, 'K', 0);
        lemma_has_flag(a, b, d, e, c.white_queen, 'Q', 1);
        lemma_has_flag(a, b, d, e, c.black_king, 'k', 2);
        lemma_has_flag(a, b, d, e, c.black_queen, 'q', 3);
    }
}

/// A letter of the castling text is there exactly when its flag is set.
proof fn lemma_has_flag(
    a: Seq<char>,
    b: Seq<char>,
    d: Seq<char>,
    e: Seq<char>,
    set: bool,
    x: char,
    pos: int,
)
    requires
        0 <= pos < 4,
        a.len() <= 1 && b.len() <= 1 && d.len() <= 1 && e.len() <= 1,
        forall|i: int| 0 <= i < a.len() ==> a[i] == 'K',
        forall|i: int| 0 <= i < b.len() ==> b[i] == 'Q',
        forall|i: int| 0 <= i < d.len() ==> d[i] == 'k',
        forall|i: int| 0 <= i < e.len() ==> e[i] == 'q',
        x == (if pos == 0 {
            'K'
        } else if pos == 1 {
            'Q'
        } else if pos == 2 {
            'k'
        } else {
            'q'
        }),
        set == (if pos == 0 {
            a.len() == 1
        } else if pos == 1 {
            b.len() == 1
        } else if pos == 2 {
            d.len() == 1
        } else {
            e.len() == 1
        }),
    ensures
        has_char(a + b + d + e, x) == set,
{
    let t = a + b + d + e;
    if set {
        if pos == 0 {
            assert(t[0] == x);
        } else if pos == 1 {
            assert(t[a.len() as int] == x);
        } else if pos == 2 {
            assert(t[(a.len() + b.len()) as int] == x);
        } else {
            assert(t[(a.len() + b.len() + d.len()) as int] == x);
        }
    } else {
        assert forall|i: int| 0 <= i < t.len() implies t[i] != x by {
            if i < a.len() {
                assert(t[i] == a[i]);
            } else if i < a.len() + b.len() {
                assert(t[i] == b[i - a.len()]);
            } else if i < a.len() + b.len() + d.len() {
                assert(t[i] == d[i - a.len() - b.len()]);
            } else {
                assert(t[i] == e[i - a.len() - b.len() - d.len()]);
            }
        }
    }
}

pub open spec fn free_of(t: Seq<char>, sep: char) -> bool {
    forall|i: int| 0 <= i < t.len() ==> t[i] != sep
}

/// Six texts without the separator, joined by it, split back into the six.
proof fn lemma_split_six(
    part0: Seq<char>,
    part1: Seq<char>,
    part2: Seq<char>,
    part3: Seq<char>,
    part4: Seq<char>,
    part5: Seq<char>,
    sep: char,
)
    requires
        free_of(part0, sep),
        free_of(part1, sep),
        free_of(part2, sep),
        free_of(part3, sep),
        free_of(part4, sep),
        free_of(part5, sep),
    ensures
        split(
            part0 + seq![sep] + (part1 + seq![sep] + (part2 + seq![sep] + (part3 + seq![sep] + (part4 + seq![sep]
                + part5)))),
            sep,
        ) == seq![part0, part1, part2, part3, part4, part5],
{
    let sp = seq![sep];
    lemma_split_whole(part0, sep);
    lemma_split_whole(part1, sep);
    lemma_split_whole(part2, sep);
    lemma_split_whole(part3, sep);
    lemma_split_whole(part4, sep);
    lemma_split_whole(part5, sep);
    lemma_split_append(part4, part5, sep);
    lemma_split_append(part3, part4 + sp + part5, sep);
    lemma_split_append(part2, part3 + sp + (part4 + sp + part5), sep);
    lemma_split_append(part1, part2 + sp + (part3 + sp + (part4 + sp + part5)), sep);
    lemma_split_append(part0, part1 + sp + (part2 + sp + (part3 + sp + (part4 + sp + part5))), sep);
    assert(seq![part0] + (seq![part1] + (seq![part2] + (seq![part3] + (seq![part4] + seq![part5]))))
        =~= seq![part0, part1, part2, part3, part4, part5]);
}

/// The six fields of a FEN text written from a position.
#[verifier::rlimit(50)]
proof fn lemma_fen_fields(v: BoardView)
    requires
        v.wf(),
    ensures
        split(fen_of(v), ' ') == seq![
            rows_text(v.squares, 8),
            seq![color_letter(v.side)],
            castle_text(v.castle),
            en_passant_text(v.en_passant),
            decimal(v.halfmove),
            decimal(v.moves),
        ],
{
    let part0 = rows_text(v.squares, 8);
    let part1 = seq![color_letter(v.side)];
    let part2 = castle_text(v.castle);
    let part3 = en_passant_text(v.en_passant);
    let part4 = decimal(v.halfmove);
    let part5 = decimal(v.moves);
    assert(free_of(part0, ' ')) by {
        lemma_rows_text(v.squares, 8);
    }
    assert(free_of(part2, ' ')) by {
        lemma_castle_text(v.castle);
    }
    assert(free_of(part4, ' ')) by {
        lemma_decimal(v.halfmove);
        assert forall|i: int| 0 <= i < part4.len() implies part4[i] != ' ' by {
            assert(is_digit(part4[i]));
        }
    }
    assert(free_of(part5, ' ')) by {
        lemma_decimal(v.moves);
        assert forall|i: int| 0 <= i < part5.len() implies part5[i] != ' ' by {
            assert(is_digit(part5[i]));
        }
    }
    assert(free_of(part1, ' '));
    assert(free_of(part3, ' '));
    lemma_split_six(part0, part1, part2, part3, part4, part5, ' ');
    lemma_fen_shape(part0, color_letter(v.side), part2, part3, part4, part5);
}

/// Regrouping the fields of a FEN text around their separators.
proof fn lemma_fen_shape(
    part0: Seq<char>,
    c: char,
    part2: Seq<char>,
    part3: Seq<char>,
    part4: Seq<char>,
    part5: Seq<char>,
)
    ensures
        part0 + (seq![' ', c, ' '] + part2 + seq![' '] + part3 + seq![' '] + part4 + seq![' '] + part5) == part0
            + seq![' '] + (seq![c] + seq![' '] + (part2 + seq![' '] + (part3 + seq![' '] + (part4 + seq![' ']
            + part5)))),
{
    let sp = seq![' '];
    assert(seq![' ', c, ' '] =~= sp + seq![c] + sp);
    assert(part0 + (seq![' ', c, ' '] + part2 + sp + part3 + sp + part4 + sp + part5) =~= part0 + sp + (seq![c] + sp
        + (part2 + sp + (part3 + sp + (part4 + sp + part5)))));
}

/// The placement text written from 64 squares reads back as the same squares.
proof fn lemma_placement(squares: Seq<Option<Piece>>)
    requires
        squares.len() == 64,
    ensures
        split(rows_text(squares, 8), '/').len() == 8,
        rows_error(split(rows_text(squares, 8), '/'), 8) is None,
        placement_squares(split(rows_text(squares, 8), '/')) == squares,
{
    lemma_rows_text(squares, 8);
    let rows = split(rows_text(squares, 8), '/');
    assert forall|k: int| 0 <= k < 8 implies #[trigger] row_error(rows[k]) is None && row_cells(
        rows[k],
    ) == Some(line_cells(squares, 7 - k)) by {
        assert(rows[k] == row_text(line_cells(squares, 7 - k)));
        lemma_row_text(line_cells(squares, 7 - k));
    }
    lemma_rows_no_error(rows, 8);
    assert forall|i: int| 0 <= i < 64 implies placement_squares(rows)[i] == squares[i] by {
        let k = 7 - i / 8;
        assert(row_error(rows[k]) is None);
        assert(row_cells(rows[k]) == Some(line_cells(squares, i / 8)));
        assert(line_cells(squares, i / 8)[i % 8] == squares[8 * (i / 8) + i % 8]);
    }
    assert(placement_squares(rows) =~= squares);
}

/// Writing a position as FEN and reading the text back gives the same
/// position; so reading a text written this way and writing it again gives
/// the same text.
pub proof fn law_fen_round_trip(v: BoardView)
    requires
        v.wf(),
        v.halfmove <= u32::MAX,
        v.moves <= u32::MAX,
    ensures
        parse_fen(fen_of(v)) == Ok::<BoardView, FenField>(v),
        fen_of(parse_fen(fen_of(v))->Ok_0) == fen_of(v),
{
    lemma_fen_fields(v);
    lemma_placement(v.squares);
    lemma_castle_text(v.castle);
    lemma_decimal(v.halfmove);
    lemma_decimal(v.moves);
    let part3 = en_passant_text(v.en_passant);
    match v.en_passant {
        Some(c) => {
            assert(square_of_text(square_name(c)) == Some(c));
            assert(part3 != seq!['-']) by {
                if part3 == seq!['-'] {
                    assert(part3.len() == 1);
                }
            }
        },
        None => {},
    }
    match v.side {
        Color::White => assert(seq![color_letter(v.side)] =~= seq!['w']),
        Color::Black => {
            assert(seq![color_letter(v.side)] =~= seq!['b']);
            assert(seq!['b'] != seq!['w']) by {
                assert(seq!['b'][0] != seq!['w'][0]);
            }
        },
    }
}

} // verus!
