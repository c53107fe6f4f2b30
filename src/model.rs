use vstd::prelude::*;

verus! {

/// One of the two sides.
#[allow(non_camel_case_types)]
#[derive(Clone, Copy, PartialEq, Eq, Structural, Debug, Hash)]
pub enum ChessColor {
    WHITE,
    BLACK,
}

impl ChessColor {
    pub open spec fn other(self) -> ChessColor {
        match self {
            ChessColor::WHITE => ChessColor::BLACK,
            ChessColor::BLACK => ChessColor::WHITE,
        }
    }

    /// The other side.
    pub fn opposite(&self) -> (r: ChessColor)
        ensures
            r == self.other(),
            r != *self,
    {
        match self {
            ChessColor::WHITE => ChessColor::BLACK,
            ChessColor::BLACK => ChessColor::WHITE,
        }
    }
}

/// The kind of a piece.
#[allow(non_camel_case_types)]
#[derive(Clone, Copy, PartialEq, Eq, Structural, Debug, Hash)]
pub enum PieceType {
    PAWN,
    BISHOP,
    KNIGHT,
    ROOK,
    QUEEN,
    KING,
}

/// A cell of the board: file `i`, rank `j`.
#[derive(Clone, Copy, PartialEq, Eq, Structural, Debug, Hash)]
pub struct CellPosition {
    pub i: i8,
    pub j: i8,
}

/// The cell at file `i` and rank `j`; exact whenever both fit in an `i8`.
pub open spec fn cell_at(i: int, j: int) -> CellPosition {
    CellPosition { i: i as i8, j: j as i8 }
}

/// The coordinate range of the board: cells run from `first_element` to
/// `last_element` inclusive on both axes.
#[derive(Clone, Copy, PartialEq, Eq, Structural, Debug)]
pub struct Board {
    pub first_element: i8,
    pub last_element: i8,
}

impl Board {
    pub open spec fn in_range(self, i: int, j: int) -> bool {
        &&& self.first_element <= i <= self.last_element
        &&& self.first_element <= j <= self.last_element
    }

    pub open spec fn holds(self, c: CellPosition) -> bool {
        self.in_range(c.i as int, c.j as int)
    }

    /// The number of cells along one side.
    pub open spec fn width(self) -> int {
        self.last_element - self.first_element + 1
    }

    /// The standard 8 by 8 board, coordinates 0 to 7.
    pub fn new() -> (r: Board)
        ensures
            r.first_element == 0,
            r.last_element == 7,
    {
        Board { first_element: 0, last_element: 7 }
    }

    /// The coordinates of one axis, as a half-open range.
    pub fn cell_range(&self) -> (r: std::ops::Range<i8>)
        requires
            self.last_element < i8::MAX,
        ensures
            r.start == self.first_element,
            r.end == self.last_element + 1,
    {
        self.first_element..self.last_element + 1
    }

    /// Whether either coordinate of `cell` lies outside the board.
    pub fn is_cell_out_of_range(&self, cell: &CellPosition) -> (r: bool)
        ensures
            r == !self.holds(*cell),
    {
        self.is_out_of_range(cell.i) || self.is_out_of_range(cell.j)
    }

    fn is_out_of_range(&self, pos: i8) -> (r: bool)
        ensures
            r == !(self.first_element <= pos <= self.last_element),
    {
        pos < self.first_element || pos > self.last_element
    }
}

/// A piece on a cell.
#[derive(Clone, Copy, PartialEq, Eq, Structural, Debug)]
pub struct ChessPiece {
    pub pos: CellPosition,
    pub color: ChessColor,
    pub piece_type: PieceType,
}

impl ChessPiece {
    pub fn new(i: i8, j: i8, color: ChessColor, piece_type: PieceType) -> (r: ChessPiece)
        ensures
            r.pos == (CellPosition { i, j }),
            r.color == color,
            r.piece_type == piece_type,
    {
        let pos = CellPosition { i, j };
        ChessPiece { pos, color, piece_type }
    }
}

} // verus!
