//! The grid, its cells, and the detection of a finished game.

use vstd::prelude::*;
use vstd::std_specs::iter::IteratorSpec;
use crate::geomath::{Point, SIZE};

verus! {

/// What a cell holds: nothing, or the mark of one of the two players.
pub type Square = Option<bool>;

/// One row of the grid, from left to right.
pub type Row = [Square; SIZE];

/// The rows of the grid, from top to bottom.
pub type Grid = [Row; SIZE];

/// The cell in column `x` of row `y`, in a grid listed row by row.
pub open spec fn at(cells: Seq<Square>, x: int, y: int) -> Square {
    cells[y * SIZE + x]
}

/// Whether every cell of row `y` holds `mark`.
pub open spec fn row_filled(cells: Seq<Square>, y: int, mark: Square) -> bool {
    forall|x: int| 0 <= x < SIZE ==> #[trigger] at(cells, x, y) == mark
}

/// Whether every cell of column `x` holds `mark`.
pub open spec fn col_filled(cells: Seq<Square>, x: int, mark: Square) -> bool {
    forall|y: int| 0 <= y < SIZE ==> #[trigger] at(cells, x, y) == mark
}

/// Whether every cell of the diagonal from the top left to the bottom right
/// holds `mark`.
pub open spec fn main_diagonal_filled(cells: Seq<Square>, mark: Square) -> bool {
    forall|x: int, y: int|
        0 <= x < SIZE && 0 <= y < SIZE && x == y ==> #[trigger] at(cells, x, y) == mark
}

/// Whether every cell of the diagonal from the top right to the bottom left
/// holds `mark`.
pub open spec fn anti_diagonal_filled(cells: Seq<Square>, mark: Square) -> bool {
    forall|x: int, y: int|
        0 <= x < SIZE && 0 <= y < SIZE && x + y == SIZE - 1 ==> #[trigger] at(cells, x, y) == mark
}

/// Whether a diagonal that passes through `p` holds the mark of `p` in each
/// of its cells.
pub open spec fn diagonal_won(cells: Seq<Square>, p: Point) -> bool {
    let mark = cells[p.offset()];
    ||| p.x == p.y && main_diagonal_filled(cells, mark)
    ||| p.x + p.y == SIZE - 1 && anti_diagonal_filled(cells, mark)
}

/// Whether the player whose mark is at `p` holds a whole row, column or
/// diagonal that passes through `p`.
pub open spec fn wins(cells: Seq<Square>, p: Point) -> bool {
    let mark = cells[p.offset()];
    &&& mark is Some
    &&& (row_filled(cells, p.y as int, mark) || col_filled(cells, p.x as int, mark)
        || diagonal_won(cells, p))
}

/// Whether no cell is empty.
pub open spec fn full(cells: Seq<Square>) -> bool {
    forall|i: int| 0 <= i < cells.len() ==> (#[trigger] cells[i]) is Some
}

/// Whether `p` is a cell of the board that nobody has marked yet.
pub open spec fn vacant(cells: Seq<Square>, p: Point) -> bool {
    p.in_bounds() && cells[p.offset()] is None
}

/// The point whose offset is `i`.
pub open spec fn point_at(i: int) -> Point {
    Point { x: (i % SIZE as int) as usize, y: (i / SIZE as int) as usize }
}

/// The empty cells among the first `k`, in the order of their offsets.
pub open spec fn free_upto(cells: Seq<Square>, k: int) -> Seq<Point>
    decreases k,
{
    if k <= 0 {
        Seq::empty()
    } else if cells[k - 1] is None {
        free_upto(cells, k - 1).push(point_at(k - 1))
    } else {
        free_upto(cells, k - 1)
    }
}

/// The empty cells of the grid, row by row from the top, each row from the
/// left.
pub open spec fn free_points(cells: Seq<Square>) -> Seq<Point> {
    free_upto(cells, cells.len() as int)
}

/// How many of the first `k` cells are occupied.
pub open spec fn occupied_upto(cells: Seq<Square>, k: int) -> nat
    decreases k,
{
    if k <= 0 {
        0
    } else if cells[k - 1] is Some {
        occupied_upto(cells, k - 1) + 1
    } else {
        occupied_upto(cells, k - 1)
    }
}

/// How many cells are occupied.
pub open spec fn occupied(cells: Seq<Square>) -> nat {
    occupied_upto(cells, cells.len() as int)
}

/// What `free_upto` lists: each empty cell before `k` once, by rising offset,
/// and as many of them as there are cells before `k` that are not occupied.
pub proof fn lemma_free_upto(cells: Seq<Square>, k: int)
    requires
        0 <= k <= cells.len() <= SIZE * SIZE,
    ensures
        free_upto(cells, k).len() + occupied_upto(cells, k) == k,
        forall|j: int|
            0 <= j < free_upto(cells, k).len() ==> {
                let p = #[trigger] free_upto(cells, k)[j];
                vacant(cells, p) && p.offset() < k
            },
        forall|p: Point|
            vacant(cells, p) && p.offset() < k ==> #[trigger] free_upto(cells, k).contains(p),
        forall|i: int, j: int|
            0 <= i < j < free_upto(cells, k).len() ==> (#[trigger] free_upto(cells, k)[i]).offset()
                < (#[trigger] free_upto(cells, k)[j]).offset(),
    decreases k,
{
    if k > 0 {
        lemma_free_upto(cells, k - 1);
        let before = free_upto(cells, k - 1);
        let now = free_upto(cells, k);
        let last = point_at(k - 1);
        assert(last.in_bounds() && last.offset() == k - 1);
        assert forall|p: Point| vacant(cells, p) && p.offset() < k implies #[trigger] now.contains(
            p,
        ) by {
            if p.offset() == k - 1 {
                assert(p == last);
                assert(now[now.len() - 1] == p);
            } else {
                assert(before.contains(p));
                let j = choose|j: int| 0 <= j < before.len() && before[j] == p;
                assert(now[j] == p);
            }
        }
    }
}

/// How many cells are empty.
pub open spec fn vacancies(cells: Seq<Square>) -> nat {
    free_points(cells).len()
}

/// How marking the cell at offset `i` changes the count of the occupied cells
/// among the first `k`.
pub proof fn lemma_occupied_update(cells: Seq<Square>, i: int, turn: bool, k: int)
    requires
        0 <= i < cells.len(),
        0 <= k <= cells.len(),
        cells[i] is None,
    ensures
        occupied_upto(cells.update(i, Some(turn)), k) == occupied_upto(cells, k) + if i < k {
            1nat
        } else {
            0nat
        },
    decreases k,
{
    if k > 0 {
        lemma_occupied_update(cells, i, turn, k - 1);
    }
}

/// A move onto an empty cell leaves one empty cell fewer.
pub proof fn lemma_place(cells: Seq<Square>, p: Point, turn: bool)
    requires
        cells.len() == SIZE * SIZE,
        vacant(cells, p),
    ensures
        vacancies(cells.update(p.offset(), Some(turn))) + 1 == vacancies(cells),
        occupied(cells.update(p.offset(), Some(turn))) == occupied(cells) + 1,
{
    let next = cells.update(p.offset(), Some(turn));
    lemma_occupied_update(cells, p.offset(), turn, cells.len() as int);
    lemma_free_upto(cells, cells.len() as int);
    lemma_free_upto(next, next.len() as int);
}

/// A board is full when it has no empty cell to move to, and only then.
pub proof fn lemma_room(cells: Seq<Square>)
    requires
        cells.len() == SIZE * SIZE,
    ensures
        full(cells) <==> vacancies(cells) == 0,
        full(cells) <==> occupied(cells) == SIZE * SIZE,
        !full(cells) ==> vacant(cells, free_points(cells)[0]),
{
    lemma_free_upto(cells, cells.len() as int);
    if full(cells) {
        if vacancies(cells) > 0 {
            assert(vacant(cells, free_points(cells)[0]));
        }
    } else {
        let i = choose|i: int| 0 <= i < cells.len() && cells[i] is None;
        assert(vacant(cells, point_at(i)));
        assert(free_points(cells).contains(point_at(i)));
    }
}

/// Whether some row, column or diagonal holds `mark` in each of its cells.
pub open spec fn has_line(cells: Seq<Square>, mark: Square) -> bool {
    ||| exists|y: int| 0 <= y < SIZE && #[trigger] row_filled(cells, y, mark)
    ||| exists|x: int| 0 <= x < SIZE && #[trigger] col_filled(cells, x, mark)
    ||| main_diagonal_filled(cells, mark)
    ||| anti_diagonal_filled(cells, mark)
}

/// To look at the lines through the last move is enough. Where a player who
/// holds no line yet marks an empty cell, that player holds a line on the
/// whole board afterwards if and only if `wins` finds one through the cell.
pub proof fn lemma_win_is_local(cells: Seq<Square>, p: Point, turn: bool)
    requires
        cells.len() == SIZE * SIZE,
        vacant(cells, p),
        !has_line(cells, Some(turn)),
    ensures
        has_line(cells.update(p.offset(), Some(turn)), Some(turn)) <==> wins(
            cells.update(p.offset(), Some(turn)),
            p,
        ),
{
    let mark = Some(turn);
    let next = cells.update(p.offset(), mark);
    assert forall|x: int, y: int|
        0 <= x < SIZE && 0 <= y < SIZE && !(x == p.x && y == p.y) implies #[trigger] at(
        next,
        x,
        y,
    ) == at(cells, x, y) by {
        assert(y * SIZE + x != p.offset());
    }
    if has_line(next, mark) && !wins(next, p) {
        if exists|y: int| 0 <= y < SIZE && #[trigger] row_filled(next, y, mark) {
            let y = choose|y: int| 0 <= y < SIZE && #[trigger] row_filled(next, y, mark);
            assert forall|x: int| 0 <= x < SIZE implies #[trigger] at(cells, x, y) == mark by {
                assert(at(next, x, y) == mark);
            }
            assert(row_filled(cells, y, mark));
        } else if exists|x: int| 0 <= x < SIZE && #[trigger] col_filled(next, x, mark) {
            let x = choose|x: int| 0 <= x < SIZE && #[trigger] col_filled(next, x, mark);
            assert forall|y: int| 0 <= y < SIZE implies #[trigger] at(cells, x, y) == mark by {
                assert(at(next, x, y) == mark);
            }
            assert(col_filled(cells, x, mark));
        } else if main_diagonal_filled(next, mark) {
            assert forall|x: int, y: int|
                0 <= x < SIZE && 0 <= y < SIZE && x == y implies #[trigger] at(cells, x, y)
                == mark by {
                assert(at(next, x, y) == mark);
            }
        } else {
            assert forall|x: int, y: int|
                0 <= x < SIZE && 0 <= y < SIZE && x + y == SIZE - 1 implies #[trigger] at(
                cells,
                x,
                y,
            ) == mark by {
                assert(at(next, x, y) == mark);
            }
        }
    }
    if wins(next, p) {
        if row_filled(next, p.y as int, mark) {
        } else if col_filled(next, p.x as int, mark) {
        }
    }
}

/// The 3×3 grid of a game.
#[derive(Clone, Copy, Debug)]
pub struct Board(Grid);

impl View for Board {
    type V = Seq<Square>;

    /// The nine cells, row by row from the top, each row from the left.
    closed spec fn view(&self) -> Seq<Square> {
        Seq::new((SIZE * SIZE) as nat, |i: int| self.0[i / SIZE as int][i % SIZE as int])
    }
}

impl Board {
    /// A board has `SIZE * SIZE` cells.
    pub proof fn lemma_len(self)
        ensures
            self@.len() == SIZE * SIZE,
    {
    }

    /// The board on which no cell is occupied.
    pub fn new() -> (board: Board)
        ensures
            board@ == Seq::new((SIZE * SIZE) as nat, |i: int| None::<bool>),
    {
        let board = Board([[None; SIZE]; SIZE]);
        assert(board@ =~= Seq::new((SIZE * SIZE) as nat, |i: int| None::<bool>));
        board
    }

    /// What the cell at `coord` holds.
    pub fn get(&self, coord: Point) -> (square: Square)
        requires
            coord.in_bounds(),
        ensures
            square == self@[coord.offset()],
    {
        self.0[coord.y][coord.x]
    }

    /// Marks the cell at `coord`, which has to be empty, for the player `turn`.
    pub fn set(&mut self, coord: Point, turn: bool)
        requires
            coord.in_bounds(),
            old(self)@[coord.offset()] is None,
        ensures
            final(self)@ == old(self)@.update(coord.offset(), Some(turn)),
    {
        self.0[coord.y][coord.x] = Some(turn);
        assert(self@ =~= old(self)@.update(coord.offset(), Some(turn)));
    }

    /// The rows of the board, from the top.
    pub fn iter(&self) -> (rows: std::slice::Iter<'_, Row>)
        ensures
            rows.remaining().len() == SIZE,
            forall|x: int, y: int|
                0 <= x < SIZE && 0 <= y < SIZE ==> #[trigger] at(self@, x, y)
                    == rows.remaining()[y]@[x],
    {
        self.0.iter()
    }

    /// What the cell in the middle of the board holds.
    pub fn center(&self) -> (square: Square)
        ensures
            square == at(self@, 1, 1),
    {
        self.get(Point::new(1, 1))
    }

    /// Whether the row of `last_coord` is filled with the mark found there.
    pub fn check_rows(&self, last_coord: Point) -> (won: bool)
        requires
            last_coord.in_bounds(),
            self@[last_coord.offset()] is Some,
        ensures
            won == row_filled(self@, last_coord.y as int, self@[last_coord.offset()]),
    {
        let mark = self.get(last_coord);
        let mut x: usize = 0;
        while x < SIZE
            invariant
                x <= SIZE,
                last_coord.in_bounds(),
                mark == self@[last_coord.offset()],
                forall|k: int| 0 <= k < x ==> #[trigger] at(self@, k, last_coord.y as int) == mark,
            decreases SIZE - x,
        {
            let square = self.get(Point::new(x, last_coord.y));
            if square != mark {
                assert(at(self@, x as int, last_coord.y as int) != mark);
                return false;
            }
            x += 1;
        }
        true
    }

    /// Whether the column of `last_coord` is filled with the mark found there.
    pub fn check_cols(&self, last_coord: Point) -> (won: bool)
        requires
            last_coord.in_bounds(),
            self@[last_coord.offset()] is Some,
        ensures
            won == col_filled(self@, last_coord.x as int, self@[last_coord.offset()]),
    {
        let mark = self.get(last_coord);
        let mut y: usize = 0;
        while y < SIZE
            invariant
                y <= SIZE,
                last_coord.in_bounds(),
                mark == self@[last_coord.offset()],
                forall|k: int| 0 <= k < y ==> #[trigger] at(self@, last_coord.x as int, k) == mark,
            decreases SIZE - y,
        {
            let square = self.get(Point::new(last_coord.x, y));
            if square != mark {
                assert(at(self@, last_coord.x as int, y as int) != mark);
                return false;
            }
            y += 1;
        }
        true
    }

    /// Whether a diagonal through `last_coord` is filled with the mark found
    /// there. A cell off both diagonals wins none.
    pub fn check_diagonals(&self, last_coord: Point) -> (won: bool)
        requires
            last_coord.in_bounds(),
            self@[last_coord.offset()] is Some,
        ensures
            won == diagonal_won(self@, last_coord),
    {
        let mark = self.get(last_coord);
        let mut main = last_coord.x == last_coord.y;
        let mut anti = last_coord.x + last_coord.y + 1 == SIZE;
        let mut i: usize = 0;
        while i < SIZE
            invariant
                i <= SIZE,
                last_coord.in_bounds(),
                mark == self@[last_coord.offset()],
                main == (last_coord.x == last_coord.y && forall|x: int, y: int|
                    0 <= x < i && 0 <= y < SIZE && x == y ==> #[trigger] at(self@, x, y) == mark),
                anti == (last_coord.x + last_coord.y == SIZE - 1 && forall|x: int, y: int|
                    0 <= x < SIZE && 0 <= y < i && x + y == SIZE - 1 ==> #[trigger] at(self@, x, y)
                        == mark),
            decreases SIZE - i,
        {
            if main && self.get(Point::new(i, i)) != mark {
                assert(at(self@, i as int, i as int) != mark);
                main = false;
            }
            if anti && self.get(Point::new(SIZE - 1 - i, i)) != mark {
                assert(at(self@, SIZE - 1 - i, i as int) != mark);
                anti = false;
            }
            i += 1;
        }
        main || anti
    }

    /// Whether the move just made at `last_coord` has won the game for the
    /// player who made it.
    pub fn check_win(&self, last_coord: Point) -> (won: bool)
        requires
            last_coord.in_bounds(),
            self@[last_coord.offset()] is Some,
        ensures
            won == wins(self@, last_coord),
    {
        let in_diagonal = last_coord.x == last_coord.y || last_coord.x + last_coord.y + 1 == SIZE;
        self.check_rows(last_coord) || self.check_cols(last_coord) || if in_diagonal {
            self.check_diagonals(last_coord)
        } else {
            false
        }
    }

    /// Whether every cell is occupied.
    pub fn is_full(&self) -> (all: bool)
        ensures
            all == full(self@),
    {
        let mut y: usize = 0;
        while y < SIZE
            invariant
                y <= SIZE,
                forall|i: int| 0 <= i < y * SIZE ==> (#[trigger] self@[i]) is Some,
            decreases SIZE - y,
        {
            let mut x: usize = 0;
            while x < SIZE
                invariant
                    y < SIZE,
                    x <= SIZE,
                    forall|i: int| 0 <= i < y * SIZE + x ==> (#[trigger] self@[i]) is Some,
                decreases SIZE - x,
            {
                if self.get(Point::new(x, y)).is_none() {
                    assert(self@[y * SIZE + x] is None);
                    return false;
                }
                x += 1;
            }
            y += 1;
        }
        true
    }

    /// The empty cells, row by row from the top, each row from the left.
    pub fn possible_moves(&self) -> (moves: Vec<Point>)
        ensures
            moves@ == free_points(self@),
            moves.len() == SIZE * SIZE - occupied(self@),
            forall|j: int| 0 <= j < moves.len() ==> vacant(self@, #[trigger] moves[j]),
            forall|p: Point| vacant(self@, p) ==> #[trigger] moves@.contains(p),
            forall|i: int, j: int|
                0 <= i < j < moves.len() ==> (#[trigger] moves[i]).offset() < (
                #[trigger] moves[j]).offset(),
    {
        let mut moves: Vec<Point> = Vec::new();
        let mut y: usize = 0;
        while y < SIZE
            invariant
                y <= SIZE,
                moves@ == free_upto(self@, y * SIZE),
            decreases SIZE - y,
        {
            let mut x: usize = 0;
            while x < SIZE
                invariant
                    y < SIZE,
                    x <= SIZE,
                    moves@ == free_upto(self@, y * SIZE + x),
                decreases SIZE - x,
            {
                let p = Point::new(x, y);
                if self.get(p).is_none() {
                    assert(p == point_at(y * SIZE + x));
                    moves.push(p);
                }
                x += 1;
            }
            y += 1;
        }
        proof {
            lemma_free_upto(self@, (SIZE * SIZE) as int);
        }
        moves
    }
}

impl Default for Board {
    /// The board on which no cell is occupied.
    fn default() -> (board: Board)
        ensures
            board@ == Seq::new((SIZE * SIZE) as nat, |i: int| None::<bool>),
    {
        Board::new()
    }
}

} // verus!
