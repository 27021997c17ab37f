//! Coordinates on the board.

use vstd::prelude::*;
use vstd::std_specs::convert::TryFromSpecImpl;
use crate::error::MoveError;

verus! {

/// Number of rows, and of columns, of the board.
pub const SIZE: usize = 3;

/// A position on the board: `x` is the column, `y` the row.
#[derive(Clone, Copy, Debug, PartialEq, Eq, Structural)]
pub struct Point {
    pub x: usize,
    pub y: usize,
}

/// The cell that the players call `index`: the cells are numbered row by row,
/// left to right, from one. No other number names a cell.
pub open spec fn from_linear(index: int) -> Result<Point, MoveError> {
    if 1 <= index <= SIZE * SIZE {
        Ok(Point { x: ((index - 1) % SIZE as int) as usize, y: ((index - 1) / SIZE as int) as usize })
    } else {
        Err(MoveError::InvalidIndex)
    }
}

impl Point {
    /// Whether the point lies on the board.
    pub open spec fn in_bounds(self) -> bool {
        self.x < SIZE && self.y < SIZE
    }

    /// Position of the point when the cells are counted row by row, left to
    /// right, from zero.
    pub open spec fn offset(self) -> int {
        self.y * SIZE + self.x
    }

    /// The number under which the players know the cell: one more than its
    /// offset.
    pub open spec fn linear(self) -> int {
        self.offset() + 1
    }

    /// The number under which the players know the cell.
    pub fn linear_index(self) -> (index: usize)
        requires
            self.in_bounds(),
        ensures
            index == self.linear(),
            1 <= index <= SIZE * SIZE,
    {
        self.x + self.y * SIZE + 1
    }

    /// The cell that the players call `index`.
    pub fn from_linear_index(index: usize) -> (cell: Result<Point, MoveError>)
        ensures
            cell == from_linear(index as int),
            cell is Ok <==> 1 <= index <= SIZE * SIZE,
            cell matches Ok(p) ==> p.in_bounds() && p.linear() == index,
    {
        if index == 0 {
            Err(MoveError::InvalidIndex)
        } else {
            Point::try_from(index - 1)
        }
    }

    /// The point in column `x` of row `y`.
    pub fn new(x: usize, y: usize) -> (p: Point)
        ensures
            p.x == x,
            p.y == y,
    {
        Point { x, y }
    }
}

impl TryFrom<usize> for Point {
    type Error = MoveError;

    /// The cell at offset `i`; `MoveError::InvalidIndex` where the board has
    /// no such cell.
    fn try_from(i: usize) -> (cell: Result<Point, MoveError>) {
        if i >= SIZE * SIZE {
            Err(MoveError::InvalidIndex)
        } else {
            Ok(Point::new(i % SIZE, i / SIZE))
        }
    }
}

impl TryFromSpecImpl<usize> for Point {
    open spec fn obeys_try_from_spec() -> bool {
        true
    }

    open spec fn try_from_spec(i: usize) -> Result<Point, MoveError> {
        from_linear(i + 1)
    }
}

/// Numbering the cells loses nothing: each number from one to `SIZE * SIZE`
/// names a cell that has this number, each cell of the board is named by
/// its number, and no other number names a cell.
pub proof fn lemma_index_round_trip(index: int, p: Point)
    ensures
        1 <= index <= SIZE * SIZE ==> from_linear(index) is Ok && from_linear(
            index,
        ).unwrap().in_bounds() && from_linear(index).unwrap().linear() == index,
        !(1 <= index <= SIZE * SIZE) ==> from_linear(index) == Err::<Point, MoveError>(
            MoveError::InvalidIndex,
        ),
        p.in_bounds() ==> from_linear(p.linear()) == Ok::<Point, MoveError>(p),
{
}

} // verus!
