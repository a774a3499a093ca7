use vstd::prelude::*;
use vstd::string::*;

verus! {

/// One of the sixteen directions a piece can move in: the eight unit steps
/// along ranks, files and diagonals, and the eight knight jumps (named by
/// their position on a clock face).
#[derive(Debug, Copy, Clone, PartialEq, Eq, Structural)]
pub enum Dir {
    Up,
    UpRight,
    Right,
    DownRight,
    Down,
    DownLeft,
    Left,
    UpLeft,
    Cav1,
    Cav2,
    Cav4,
    Cav5,
    Cav7,
    Cav8,
    Cav10,
    Cav11,
}

impl Dir {
    /// Change of rank for one step in this direction.
    pub open spec fn dline(self) -> int {
        match self {
            Dir::Up => 1,
            Dir::UpRight => 1,
            Dir::Right => 0,
            Dir::DownRight => -1,
            Dir::Down => -1,
            Dir::DownLeft => -1,
            Dir::Left => 0,
            Dir::UpLeft => 1,
            Dir::Cav1 => 2,
            Dir::Cav2 => 1,
            Dir::Cav4 => -1,
            Dir::Cav5 => -2,
            Dir::Cav7 => -2,
            Dir::Cav8 => -1,
            Dir::Cav10 => 1,
            Dir::Cav11 => 2,
        }
    }

    /// Change of file for one step in this direction.
    pub open spec fn dcolumn(self) -> int {
        match self {
            Dir::Up => 0,
            Dir::UpRight => 1,
            Dir::Right => 1,
            Dir::DownRight => 1,
            Dir::Down => 0,
            Dir::DownLeft => -1,
            Dir::Left => -1,
            Dir::UpLeft => -1,
            Dir::Cav1 => 1,
            Dir::Cav2 => 2,
            Dir::Cav4 => 2,
            Dir::Cav5 => 1,
            Dir::Cav7 => -1,
            Dir::Cav8 => -2,
            Dir::Cav10 => -2,
            Dir::Cav11 => -1,
        }
    }

    /// The direction pointing the opposite way.
    pub open spec fn reverse(self) -> Dir {
        match self {
            Dir::Up => Dir::Down,
            Dir::UpRight => Dir::DownLeft,
            Dir::Right => Dir::Left,
            Dir::DownRight => Dir::UpLeft,
            Dir::Down => Dir::Up,
            Dir::DownLeft => Dir::UpRight,
            Dir::Left => Dir::Right,
            Dir::UpLeft => Dir::DownRight,
            Dir::Cav1 => Dir::Cav7,
            Dir::Cav2 => Dir::Cav8,
            Dir::Cav4 => Dir::Cav10,
            Dir::Cav5 => Dir::Cav11,
            Dir::Cav7 => Dir::Cav1,
            Dir::Cav8 => Dir::Cav2,
            Dir::Cav10 => Dir::Cav4,
            Dir::Cav11 => Dir::Cav5,
        }
    }

    /// The eight unit steps (along ranks, files and diagonals).
    pub open spec fn is_step(self) -> bool {
        self.index() < 8
    }

    /// Along a rank or a file.
    pub open spec fn is_orthogonal(self) -> bool {
        self == Dir::Up || self == Dir::Right || self == Dir::Down || self == Dir::Left
    }

    /// Along a diagonal.
    pub open spec fn is_diagonal(self) -> bool {
        self == Dir::UpRight || self == Dir::DownRight || self == Dir::DownLeft || self
            == Dir::UpLeft
    }

    /// The position of the direction in the enumeration: unit steps first.
    pub open spec fn index(self) -> int {
        match self {
            Dir::Up => 0,
            Dir::UpRight => 1,
            Dir::Right => 2,
            Dir::DownRight => 3,
            Dir::Down => 4,
            Dir::DownLeft => 5,
            Dir::Left => 6,
            Dir::UpLeft => 7,
            Dir::Cav1 => 8,
            Dir::Cav2 => 9,
            Dir::Cav4 => 10,
            Dir::Cav5 => 11,
            Dir::Cav7 => 12,
            Dir::Cav8 => 13,
            Dir::Cav10 => 14,
            Dir::Cav11 => 15,
        }
    }

    /// The direction at position `i` of the enumeration.
    pub fn nth(i: usize) -> (r: Dir)
        requires
            i < 16,
        ensures
            r.index() == i,
    {
        match i {
            0 => Dir::Up,
            1 => Dir::UpRight,
            2 => Dir::Right,
            3 => Dir::DownRight,
            4 => Dir::Down,
            5 => Dir::DownLeft,
            6 => Dir::Left,
            7 => Dir::UpLeft,
            8 => Dir::Cav1,
            9 => Dir::Cav2,
            10 => Dir::Cav4,
            11 => Dir::Cav5,
            12 => Dir::Cav7,
            13 => Dir::Cav8,
            14 => Dir::Cav10,
            _ => Dir::Cav11,
        }
    }

    /// The position of the direction in the enumeration.
    pub fn index_exec(&self) -> (r: usize)
        ensures
            r == self.index(),
    {
        match self {
            Dir::Up => 0,
            Dir::UpRight => 1,
            Dir::Right => 2,
            Dir::DownRight => 3,
            Dir::Down => 4,
            Dir::DownLeft => 5,
            Dir::Left => 6,
            Dir::UpLeft => 7,
            Dir::Cav1 => 8,
            Dir::Cav2 => 9,
            Dir::Cav4 => 10,
            Dir::Cav5 => 11,
            Dir::Cav7 => 12,
            Dir::Cav8 => 13,
            Dir::Cav10 => 14,
            Dir::Cav11 => 15,
        }
    }

    /// Change of rank and of file for one step.
    pub fn deltas(&self) -> (r: (i64, i64))
        ensures
            r.0 == self.dline(),
            r.1 == self.dcolumn(),
    {
        match self {
            Dir::Up => (1, 0),
            Dir::UpRight => (1, 1),
            Dir::Right => (0, 1),
            Dir::DownRight => (-1, 1),
            Dir::Down => (-1, 0),
            Dir::DownLeft => (-1, -1),
            Dir::Left => (0, -1),
            Dir::UpLeft => (1, -1),
            Dir::Cav1 => (2, 1),
            Dir::Cav2 => (1, 2),
            Dir::Cav4 => (-1, 2),
            Dir::Cav5 => (-2, 1),
            Dir::Cav7 => (-2, -1),
            Dir::Cav8 => (-1, -2),
            Dir::Cav10 => (1, -2),
            Dir::Cav11 => (2, -1),
        }
    }
}

/// Two directions that are the same: the enumeration index is one to one.
pub proof fn lemma_dir_index_injective(a: Dir, b: Dir)
    ensures
        a.index() == b.index() <==> a == b,
{
}

/// Walking back from where `k` steps led retraces the same squares.
pub proof fn lemma_neighbour_reverse(c: Case, d: Dir, k: int, j: int)
    requires
        c.wf(),
        neighbour(c, d, k) is Some,
    ensures
        neighbour(neighbour(c, d, k)->Some_0, d.reverse(), j) == neighbour(c, d, k - j),
        d.reverse().reverse() == d,
        d.reverse().is_step() == d.is_step(),
        d.reverse().is_orthogonal() == d.is_orthogonal(),
        d.reverse().is_diagonal() == d.is_diagonal(),
{
    let q = neighbour(c, d, k)->Some_0;
    assert(d.reverse().dline() == -d.dline() && d.reverse().dcolumn() == -d.dcolumn());
    let l = c.line() + d.dline() * k;
    let col = c.column() + d.dcolumn() * k;
    assert(q.line() == l && q.column() == col);
    assert(l + (-d.dline()) * j == c.line() + d.dline() * (k - j)) by (nonlinear_arith)
        requires
            l == c.line() + d.dline() * k,
    ;
    assert(col + (-d.dcolumn()) * j == c.column() + d.dcolumn() * (k - j)) by (nonlinear_arith)
        requires
            col == c.column() + d.dcolumn() * k,
    ;
}

/// Error returned when a text is not an algebraic square `[a-h][1-8]`.
#[derive(Debug, Copy, Clone, PartialEq, Eq, Structural)]
pub struct ParseCaseError;

/// A square of the board: `column + 8 * line`, line 0 being White's back rank
/// and column 0 the a-file.
#[derive(Debug, Copy, Clone, PartialEq, Eq, Structural)]
pub struct Case(pub usize);

/// The square `steps` steps away from `c` in direction `d`, if it is on the board.
pub open spec fn neighbour(c: Case, d: Dir, steps: int) -> Option<Case> {
    let l = c.line() + d.dline() * steps;
    let col = c.column() + d.dcolumn() * steps;
    if 0 <= l < 8 && 0 <= col < 8 {
        Some(Case((8 * l + col) as usize))
    } else {
        None
    }
}

/// The square named by a text of the form `[a-h][1-8]`, if it is one.
pub open spec fn square_of_text(t: Seq<char>) -> Option<Case> {
    if t.len() == 2 && 'a' <= t[0] <= 'h' && '1' <= t[1] <= '8' {
        Some(Case(((t[0] as int - 'a' as int) + 8 * (t[1] as int - '1' as int)) as usize))
    } else {
        None
    }
}

/// The algebraic name of a square.
pub open spec fn square_name(c: Case) -> Seq<char> {
    seq![('a' as int + c.column()) as char, ('1' as int + c.line()) as char]
}

impl Case {
    /// The index lies on the board.
    pub open spec fn wf(self) -> bool {
        self.0 < 64
    }

    pub open spec fn line(self) -> int {
        self.0 as int / 8
    }

    pub open spec fn column(self) -> int {
        self.0 as int % 8
    }

    /// The square with the given index.
    pub fn new(place: usize) -> (r: Case)
        requires
            place < 64,
        ensures
            r.0 == place,
            r.wf(),
    {
        Case(place)
    }

    /// The square named by an algebraic text that is known to be valid.
    pub fn new_from_str(place: &str) -> (r: Case)
        requires
            square_of_text(place@) is Some,
        ensures
            Some(r) == square_of_text(place@),
            r.wf(),
    {
        match Case::parse(place) {
            Ok(c) => c,
            Err(_) => Case(0),
        }
    }

    /// Reads an algebraic square name such as `e4`.
    pub fn parse(s: &str) -> (r: Result<Case, ParseCaseError>)
        ensures
            match square_of_text(s@) {
                Some(c) => r == Ok::<Case, ParseCaseError>(c),
                None => r is Err,
            },
            r matches Ok(c) ==> c.wf(),
    {
        if s.unicode_len() != 2 {
            return Err(ParseCaseError);
        }
        Case::from_chars(s.get_char(0), s.get_char(1))
    }

    /// The square named by a file letter and a rank digit.
    pub fn from_chars(file: char, rank: char) -> (r: Result<Case, ParseCaseError>)
        ensures
            match square_of_text(seq![file, rank]) {
                Some(c) => r == Ok::<Case, ParseCaseError>(c),
                None => r is Err,
            },
            r matches Ok(c) ==> c.wf(),
    {
        if 'a' <= file && file <= 'h' && '1' <= rank && rank <= '8' {
            let col = (file as u32 - 'a' as u32) as usize;
            let line = (rank as u32 - '1' as u32) as usize;
            Ok(Case(col + 8 * line))
        } else {
            Err(ParseCaseError)
        }
    }

    /// The rank of the square, 0 for White's back rank.
    pub fn get_line(&self) -> (r: usize)
        requires
            self.wf(),
        ensures
            r == self.line(),
            r < 8,
    {
        self.0 / 8
    }

    /// The file of the square, 0 for the a-file.
    pub fn get_column(&self) -> (r: usize)
        requires
            self.wf(),
        ensures
            r == self.column(),
            r < 8,
    {
        self.0 % 8
    }

    /// The square `distance` steps away in direction `dir`, or `None` where
    /// that leaves the board.
    pub fn get_neighbour(&self, dir: Dir, distance: usize) -> (r: Option<Case>)
        requires
            self.wf(),
        ensures
            r == neighbour(*self, dir, distance as int),
            r matches Some(c) ==> c.wf(),
    {
        if distance >= 8 {
            assert(neighbour(*self, dir, distance as int) is None) by (nonlinear_arith)
                requires
                    distance >= 8,
                    -2 <= dir.dline() <= 2,
                    -2 <= dir.dcolumn() <= 2,
                    dir.dline() != 0 || dir.dcolumn() != 0,
                    0 <= self.line() < 8,
                    0 <= self.column() < 8,
                    neighbour(*self, dir, distance as int) == (if 0 <= self.line() + dir.dline()
                        * distance && self.line() + dir.dline() * distance < 8 && 0
                        <= self.column() + dir.dcolumn() * distance && self.column()
                        + dir.dcolumn() * distance < 8 {
                        Some(
                            Case(
                                (8 * (self.line() + dir.dline() * distance) + (self.column()
                                    + dir.dcolumn() * distance)) as usize,
                            ),
                        )
                    } else {
                        None::<Case>
                    }),
            ;
            return None;
        }
        let (dl, dc) = dir.deltas();
        let dist = distance as i64;
        assert(-14 <= dl * dist <= 14 && -14 <= dc * dist <= 14) by (nonlinear_arith)
            requires
                -2 <= dl <= 2,
                -2 <= dc <= 2,
                0 <= dist < 8,
        ;
        let l = (self.0 / 8) as i64 + dl * dist;
        let c = (self.0 % 8) as i64 + dc * dist;
        if 0 <= l && l < 8 && 0 <= c && c < 8 {
            Some(Case((8 * l + c) as usize))
        } else {
            None
        }
    }

    /// The algebraic name of the square, such as `e4`.
    pub fn name(&self) -> (r: (char, char))
        requires
            self.wf(),
        ensures
            seq![r.0, r.1] == square_name(*self),
    {
        let col = (self.0 % 8) as u8;
        let line = (self.0 / 8) as u8;
        (('a' as u8 + col) as char, ('1' as u8 + line) as char)
    }
}

impl std::str::FromStr for Case {
    type Err = ParseCaseError;

    fn from_str(s: &str) -> Result<Case, ParseCaseError> {
        Case::parse(s)
    }
}

} // verus!
