//! Squares, files (columns), ranks (rows) and offsets of the 8x8 board.
use vstd::prelude::*;

verus! {

/// A file of the board, `a` through `h`, numbered 1 through 8.
#[derive(Debug, Copy, Clone, PartialEq, Eq, Hash, Structural)]
pub enum Col {
    _1,
    _2,
    _3,
    _4,
    _5,
    _6,
    _7,
    _8,
}

/// A rank of the board, 1 through 8.
#[derive(Debug, Copy, Clone, PartialEq, Eq, Hash, Structural)]
pub enum Row {
    _1,
    _2,
    _3,
    _4,
    _5,
    _6,
    _7,
    _8,
}

/// The reason a file number lies outside 1..=8.
#[derive(Debug, Copy, Clone, PartialEq, Eq, Structural)]
pub enum ColIndexOutOfRange {
    TooLow,
    TooHigh,
}

/// The reason a rank number lies outside 1..=8.
#[derive(Debug, Copy, Clone, PartialEq, Eq, Structural)]
pub enum RowIndexOutOfRange {
    TooLow,
    TooHigh,
}

/// The reason a square's coordinates lie outside the board.
#[derive(Debug, Copy, Clone, PartialEq, Eq, Structural)]
pub enum SquareOutOfRange {
    Col(ColIndexOutOfRange),
    Row(RowIndexOutOfRange),
}

impl Col {
    /// The file's number, 1 (file a) through 8 (file h).
    pub open spec fn as_int(self) -> int {
        match self {
            Col::_1 => 1,
            Col::_2 => 2,
            Col::_3 => 3,
            Col::_4 => 4,
            Col::_5 => 5,
            Col::_6 => 6,
            Col::_7 => 7,
            Col::_8 => 8,
        }
    }

    pub fn index(self) -> (r: u8)
        ensures
            r == self.as_int(),
    {
        match self {
            Col::_1 => 1,
            Col::_2 => 2,
            Col::_3 => 3,
            Col::_4 => 4,
            Col::_5 => 5,
            Col::_6 => 6,
            Col::_7 => 7,
            Col::_8 => 8,
        }
    }

    pub fn from_index(i: u8) -> (r: Col)
        requires
            1 <= i <= 8,
        ensures
            r.as_int() == i,
    {
        match i {
            1 => Col::_1,
            2 => Col::_2,
            3 => Col::_3,
            4 => Col::_4,
            5 => Col::_5,
            6 => Col::_6,
            7 => Col::_7,
            _ => Col::_8,
        }
    }

    /// The file with the given number, or the reason there is none.
    pub fn try_from_int(v: i32) -> (r: Result<Col, ColIndexOutOfRange>)
        ensures
            match r {
                Ok(c) => 1 <= v <= 8 && c.as_int() == v,
                Err(ColIndexOutOfRange::TooLow) => v < 1,
                Err(ColIndexOutOfRange::TooHigh) => v > 8,
            },
    {
        if v < 1 {
            Err(ColIndexOutOfRange::TooLow)
        } else if v > 8 {
            Err(ColIndexOutOfRange::TooHigh)
        } else {
            Ok(Col::from_index(v as u8))
        }
    }
}

impl Row {
    /// The rank's number, 1 through 8.
    pub open spec fn as_int(self) -> int {
        match self {
            Row::_1 => 1,
            Row::_2 => 2,
            Row::_3 => 3,
            Row::_4 => 4,
            Row::_5 => 5,
            Row::_6 => 6,
            Row::_7 => 7,
            Row::_8 => 8,
        }
    }

    pub fn index(self) -> (r: u8)
        ensures
            r == self.as_int(),
    {
        match self {
            Row::_1 => 1,
            Row::_2 => 2,
            Row::_3 => 3,
            Row::_4 => 4,
            Row::_5 => 5,
            Row::_6 => 6,
            Row::_7 => 7,
            Row::_8 => 8,
        }
    }

    pub fn from_index(i: u8) -> (r: Row)
        requires
            1 <= i <= 8,
        ensures
            r.as_int() == i,
    {
        match i {
            1 => Row::_1,
            2 => Row::_2,
            3 => Row::_3,
            4 => Row::_4,
            5 => Row::_5,
            6 => Row::_6,
            7 => Row::_7,
            _ => Row::_8,
        }
    }

    /// The rank with the given number, or the reason there is none.
    pub fn try_from_int(v: i32) -> (r: Result<Row, RowIndexOutOfRange>)
        ensures
            match r {
                Ok(c) => 1 <= v <= 8 && c.as_int() == v,
                Err(RowIndexOutOfRange::TooLow) => v < 1,
                Err(RowIndexOutOfRange::TooHigh) => v > 8,
            },
    {
        if v < 1 {
            Err(RowIndexOutOfRange::TooLow)
        } else if v > 8 {
            Err(RowIndexOutOfRange::TooHigh)
        } else {
            Ok(Row::from_index(v as u8))
        }
    }
}

/// True when the pair (file, rank) names a square of the 8x8 board.
pub open spec fn on_board(c: int, r: int) -> bool {
    1 <= c <= 8 && 1 <= r <= 8
}

/// A square of the board: a file and a rank.
#[derive(Debug, Copy, Clone, PartialEq, Eq, Hash, Structural)]
pub struct Square {
    pub col: Col,
    pub row: Row,
}

/// A signed displacement of (files, ranks), used for rays and knight jumps.
#[derive(Debug, Copy, Clone, PartialEq, Eq, Structural)]
pub struct Offset {
    pub col: i8,
    pub row: i8,
}

impl Offset {
    /// Scale the displacement; the factors stay far below the `i8` limits.
    pub fn times(self, k: u8) -> (r: Offset)
        requires
            -2 <= self.col <= 2,
            -2 <= self.row <= 2,
            k <= 8,
        ensures
            r.col == self.col * k,
            r.row == self.row * k,
    {
        let ki: i8 = k as i8;
        proof {
            assert(-16 <= self.col * ki <= 16) by (nonlinear_arith)
                requires
                    -2 <= self.col <= 2,
                    0 <= ki <= 8,
            ;
            assert(-16 <= self.row * ki <= 16) by (nonlinear_arith)
                requires
                    -2 <= self.row <= 2,
                    0 <= ki <= 8,
            ;
        }
        Offset { col: self.col * ki, row: self.row * ki }
    }
}

impl Square {
    pub open spec fn c(self) -> int {
        self.col.as_int()
    }

    pub open spec fn r(self) -> int {
        self.row.as_int()
    }

    pub fn new(col: Col, row: Row) -> (r: Square)
        ensures
            r == (Square { col, row }),
    {
        Square { col, row }
    }

    /// Dark squares are those whose file and rank sum to an even number.
    pub fn is_black(self) -> (r: bool)
        ensures
            r == ((self.c() + self.r()) % 2 == 0),
    {
        (self.col.index() + self.row.index()) % 2 == 0
    }

    pub fn is_white(self) -> (r: bool)
        ensures
            r == ((self.c() + self.r()) % 2 != 0),
    {
        !self.is_black()
    }

    /// The square displaced by the offset, or the reason it left the board.
    /// A bad file is reported before a bad rank.
    pub fn plus(self, o: Offset) -> (r: Result<Square, SquareOutOfRange>)
        ensures
            match r {
                Ok(s) => on_board(self.c() + o.col, self.r() + o.row) && s.c() == self.c()
                    + o.col && s.r() == self.r() + o.row,
                Err(SquareOutOfRange::Col(_)) => !(1 <= self.c() + o.col <= 8),
                Err(SquareOutOfRange::Row(_)) => 1 <= self.c() + o.col <= 8 && !(1 <= self.r()
                    + o.row <= 8),
            },
    {
        let c: i32 = self.col.index() as i32 + o.col as i32;
        let r: i32 = self.row.index() as i32 + o.row as i32;
        match Col::try_from_int(c) {
            Err(e) => Err(SquareOutOfRange::Col(e)),
            Ok(col) => match Row::try_from_int(r) {
                Err(e) => Err(SquareOutOfRange::Row(e)),
                Ok(row) => Ok(Square { col, row }),
            },
        }
    }
}

} // verus!
