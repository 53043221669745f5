//! A guard patrolling a grid: it walks straight ahead, turns right in front
//! of an obstacle, and marks every cell it stands on.
use vstd::prelude::*;

verus! {

#[derive(Clone, Copy, Debug, PartialEq, Eq, Structural)]
pub enum Piece {
    Empty,
    Obstacle,
    Visited,
    OutOfBounds,
}

#[derive(Clone, Copy, Debug, PartialEq, Eq, Structural)]
pub enum Direction {
    Up,
    Down,
    Left,
    Right,
}

pub struct Guard {
    pub position: (usize, usize),
    pub direction: Direction,
}

/// The direction after a quarter turn clockwise.
pub open spec fn turned_right(d: Direction) -> Direction {
    match d {
        Direction::Up => Direction::Right,
        Direction::Right => Direction::Down,
        Direction::Down => Direction::Left,
        Direction::Left => Direction::Up,
    }
}

impl Guard {
    /// Turns the guard a quarter turn clockwise.
    pub fn rotate_direction(&mut self)
        ensures
            final(self).direction == turned_right(old(self).direction),
            final(self).position == old(self).position,
    {
        self.direction = match self.direction {
            Direction::Up => Direction::Right,
            Direction::Right => Direction::Down,
            Direction::Down => Direction::Left,
            Direction::Left => Direction::Up,
        };
    }
}

/// A grid of `rows` by `cols` cells, stored row after row.
pub struct Board {
    pub rows: usize,
    pub cols: usize,
    pub data: Vec<Piece>,
}

/// How many cells of `s` are marked visited.
pub open spec fn visited_in(s: Seq<Piece>) -> nat
    decreases s.len(),
{
    if s.len() == 0 {
        0
    } else {
        visited_in(s.drop_last()) + if s.last() == Piece::Visited {
            1nat
        } else {
            0nat
        }
    }
}

impl Board {
    /// The grid holds exactly one piece per cell.
    pub open spec fn wf(&self) -> bool {
        self.data@.len() == self.rows * self.cols
    }

    pub open spec fn index_of(&self, row: int, col: int) -> int {
        row * self.cols + col
    }

    pub open spec fn in_bounds(&self, row: int, col: int) -> bool {
        0 <= row < self.rows && 0 <= col < self.cols
    }

    /// The piece at a cell; anything off the grid is out of bounds.
    pub open spec fn cell(&self, row: int, col: int) -> Piece {
        if self.in_bounds(row, col) {
            self.data@[self.index_of(row, col)]
        } else {
            Piece::OutOfBounds
        }
    }

    /// A board of `rows` by `cols` cells from its pieces, row after row, or
    /// `None` when their number is not `rows * cols`.
    pub fn from_cells(rows: usize, cols: usize, data: Vec<Piece>) -> (r: Option<Board>)
        ensures
            r is Some <==> data@.len() == rows * cols,
            r matches Some(b) ==> b.wf() && b.rows == rows && b.cols == cols && b.data@ == data@,
    {
        match rows.checked_mul(cols) {
            Some(n) => if n == data.len() {
                Some(Board { rows, cols, data })
            } else {
                None
            },
            None => {
                let _ = data.len();
                None
            },
        }
    }

    proof fn lemma_index_in_range(&self, row: int, col: int)
        requires
            self.in_bounds(row, col),
        ensures
            0 <= row * self.cols <= self.index_of(row, col) < self.rows * self.cols,
    {
        let (r, c, n) = (row, col, self.cols as int);
        assert(0 <= r * n <= r * n + c < (self.rows as int) * n) by (nonlinear_arith)
            requires
                0 <= r < self.rows,
                0 <= c < n,
        ;
    }

    /// The piece at (`row`, `col`).
    pub fn piece_at(&self, row: usize, col: usize) -> (p: Piece)
        requires
            self.wf(),
        ensures
            p == self.cell(row as int, col as int),
    {
        if row >= self.rows || col >= self.cols {
            return Piece::OutOfBounds;
        }
        let _ = self.data.len();
        proof {
            self.lemma_index_in_range(row as int, col as int);
        }
        self.data[row * self.cols + col]
    }

    /// Marks the cell (`row`, `col`) visited; a cell off the grid is left
    /// alone.
    pub fn visit(&mut self, row: usize, col: usize)
        requires
            old(self).wf(),
        ensures
            final(self).wf(),
            final(self).rows == old(self).rows,
            final(self).cols == old(self).cols,
            final(self).data@ == if old(self).in_bounds(row as int, col as int) {
                old(self).data@.update(old(self).index_of(row as int, col as int), Piece::Visited)
            } else {
                old(self).data@
            },
    {
        if row < self.rows && col < self.cols {
            let _ = self.data.len();
            proof {
                self.lemma_index_in_range(row as int, col as int);
            }
            let i = row * self.cols + col;
            self.data.set(i, Piece::Visited);
        }
    }

    /// How many cells are marked visited.
    pub fn visited_count(&self) -> (n: usize)
        ensures
            n == visited_in(self.data@),
    {
        let mut n: usize = 0;
        let mut i: usize = 0;
        while i < self.data.len()
            invariant
                i <= self.data@.len(),
                n <= i,
                n == visited_in(self.data@.take(i as int)),
            decreases self.data@.len() - i,
        {
            assert(self.data@.take(i + 1).drop_last() =~= self.data@.take(i as int));
            if self.data[i] == Piece::Visited {
                n = n + 1;
            }
            i = i + 1;
        }
        assert(self.data@.take(i as int) =~= self.data@);
        n
    }
}

/// The cell one step ahead of `position` in direction `d`.
pub open spec fn ahead(position: (usize, usize), d: Direction) -> (int, int) {
    let (row, col) = (position.0 as int, position.1 as int);
    match d {
        Direction::Up => (row - 1, col),
        Direction::Down => (row + 1, col),
        Direction::Left => (row, col - 1),
        Direction::Right => (row, col + 1),
    }
}

/// One move of the guard. Ahead of it an empty or visited cell: it steps
/// there and marks it. An obstacle: it turns right where it stands. The edge
/// of the grid: nothing changes and the patrol is over (`false`).
pub fn move_one(board: &mut Board, guard: &mut Guard) -> (moved: bool)
    requires
        old(board).wf(),
    ensures
        final(board).wf(),
        final(board).rows == old(board).rows,
        final(board).cols == old(board).cols,
        ({
            let (r, c) = ahead(old(guard).position, old(guard).direction);
            match old(board).cell(r, c) {
                Piece::Empty | Piece::Visited => {
                    &&& moved
                    &&& final(guard).position == (r as usize, c as usize)
                    &&& final(guard).direction == old(guard).direction
                    &&& final(board).data@ == old(board).data@.update(
                        old(board).index_of(r, c),
                        Piece::Visited,
                    )
                },
                Piece::Obstacle => {
                    &&& moved
                    &&& final(guard).position == old(guard).position
                    &&& final(guard).direction == turned_right(old(guard).direction)
                    &&& final(board).data@ == old(board).data@
                },
                Piece::OutOfBounds => {
                    &&& !moved
                    &&& *final(guard) == *old(guard)
                    &&& final(board).data@ == old(board).data@
                },
            }
        }),
{
    let (row, col) = guard.position;
    let next = match guard.direction {
        Direction::Up => if row == 0 {
            None
        } else {
            Some((row - 1, col))
        },
        Direction::Down => if row >= board.rows {
            None
        } else {
            Some((row + 1, col))
        },
        Direction::Left => if col == 0 {
            None
        } else {
            Some((row, col - 1))
        },
        Direction::Right => if col >= board.cols {
            None
        } else {
            Some((row, col + 1))
        },
    };
    let (next_row, next_col) = match next {
        Some(p) => p,
        None => {
            return false;
        },
    };
    match board.piece_at(next_row, next_col) {
        Piece::Empty | Piece::Visited => {
            board.visit(next_row, next_col);
            guard.position = (next_row, next_col);
            true
        },
        Piece::Obstacle => {
            guard.rotate_direction();
            true
        },
        Piece::OutOfBounds => false,
    }
}

} // verus!
