//! Grid coordinates, directions, and bounds-checked movement.

use vstd::prelude::*;

verus! {

/// Side of the square grid, in cells.
pub const GRID_SIZE: u8 = 10;

/// A position on the grid, zero-based.
#[derive(Clone, Copy, Debug, PartialEq, Eq, Structural)]
pub struct Cell {
    pub x: u8,
    pub y: u8,
}

/// One of the four unit steps on the grid; `y` grows downwards.
#[derive(Clone, Copy, Debug, PartialEq, Eq, Structural)]
pub enum Direction {
    Up,
    Down,
    Left,
    Right,
}

/// Whether the point `(x, y)` lies on the grid.
pub open spec fn in_grid(x: int, y: int) -> bool {
    0 <= x < GRID_SIZE && 0 <= y < GRID_SIZE
}

/// The point reached from `c` after `n` steps towards `d`.
pub open spec fn reach(c: Cell, d: Direction, n: int) -> (int, int) {
    match d {
        Direction::Up => (c.x as int, c.y - n),
        Direction::Down => (c.x as int, c.y + n),
        Direction::Left => (c.x - n, c.y as int),
        Direction::Right => (c.x + n, c.y as int),
    }
}

/// Whether `n` steps from `c` towards `d` stay on the grid.
pub open spec fn fits(c: Cell, d: Direction, n: int) -> bool {
    in_grid(reach(c, d, n).0, reach(c, d, n).1)
}

/// The cell at `n` steps from `c` towards `d` (meaningful when it `fits`).
pub open spec fn cell_at(c: Cell, d: Direction, n: int) -> Cell {
    Cell { x: reach(c, d, n).0 as u8, y: reach(c, d, n).1 as u8 }
}

/// The `len` cells of a straight line that starts at `anchor` and heads towards `d`.
pub open spec fn line(anchor: Cell, d: Direction, len: nat) -> Seq<Cell> {
    Seq::new(len, |i: int| cell_at(anchor, d, i))
}

/// Whether every cell of a straight line of `len` cells from `anchor` towards `d` is on the grid.
pub open spec fn line_fits(anchor: Cell, d: Direction, len: nat) -> bool {
    forall|i: int| 0 <= i < len ==> #[trigger] fits(anchor, d, i)
}

impl Cell {
    pub open spec fn in_bounds(self) -> bool {
        in_grid(self.x as int, self.y as int)
    }

    /// Moves one step towards `direction` when the step stays on the grid and
    /// reports whether it moved; otherwise the cell is left as it was.
    pub fn shift(&mut self, direction: &Direction) -> (ok: bool)
        ensures
            ok == fits(*old(self), *direction, 1),
            ok ==> *final(self) == cell_at(*old(self), *direction, 1),
            !ok ==> *final(self) == *old(self),
    {
        let (x_shift, y_shift) = direction.xy();
        let x: i16 = x_shift as i16 + self.x as i16;
        let y: i16 = y_shift as i16 + self.y as i16;
        let valid_shift = x >= 0 && x < GRID_SIZE as i16 && y >= 0 && y < GRID_SIZE as i16;
        if valid_shift {
            self.x = x as u8;
            self.y = y as u8;
        }
        valid_shift
    }

    /// The straight line of `len` cells that starts at this cell and heads
    /// towards `direction`, or `None` when any of its cells would leave the grid.
    pub fn extend(&self, direction: &Direction, len: u8) -> (r: Option<Vec<Cell>>)
        ensures
            match r {
                Some(cells) => line_fits(*self, *direction, len as nat) && cells@ == line(
                    *self,
                    *direction,
                    len as nat,
                ),
                None => !line_fits(*self, *direction, len as nat),
            },
    {
        if len > 0 && !(self.x < GRID_SIZE && self.y < GRID_SIZE) {
            assert(!fits(*self, *direction, 0));
            return None;
        }
        let mut cell = *self;
        let mut res: Vec<Cell> = Vec::new();
        let mut i: u8 = 0;
        while i < len
            invariant
                i <= len,
                res@ == line(*self, *direction, i as nat),
                forall|j: int| 0 <= j < i ==> #[trigger] fits(*self, *direction, j),
                i < len ==> cell == cell_at(*self, *direction, i as int) && fits(
                    *self,
                    *direction,
                    i as int,
                ),
            decreases len - i,
        {
            res.push(cell);
            assert(res@ =~= line(*self, *direction, (i + 1) as nat));
            i = i + 1;
            if i < len {
                let ok = cell.shift(direction);
                if !ok {
                    assert(!fits(*self, *direction, i as int));
                    return None;
                }
            }
        }
        Some(res)
    }
}

/// Stepping towards a direction and then towards the opposite one comes back
/// to the starting cell whenever the first step stays on the grid (the second
/// one then does too).
pub proof fn lemma_shift_round_trip(c: Cell, d: Direction)
    requires
        c.in_bounds(),
        fits(c, d, 1),
    ensures
        fits(cell_at(c, d, 1), d.opposite(), 1),
        cell_at(cell_at(c, d, 1), d.opposite(), 1) == c,
{
}

impl Direction {
    /// The unit vector `(dx, dy)` of the direction.
    pub open spec fn vector(self) -> (int, int) {
        match self {
            Direction::Up => (0, -1),
            Direction::Down => (0, 1),
            Direction::Left => (-1, 0),
            Direction::Right => (1, 0),
        }
    }

    /// The direction pointing the other way.
    pub open spec fn opposite(self) -> Direction {
        match self {
            Direction::Up => Direction::Down,
            Direction::Down => Direction::Up,
            Direction::Left => Direction::Right,
            Direction::Right => Direction::Left,
        }
    }

    /// The direction a quarter turn clockwise from this one.
    pub open spec fn clockwise(self) -> Direction {
        match self {
            Direction::Up => Direction::Right,
            Direction::Right => Direction::Down,
            Direction::Down => Direction::Left,
            Direction::Left => Direction::Up,
        }
    }

    /// The direction numbered `index` in the order up, down, left, right.
    pub open spec fn from_index_spec(index: int) -> Direction {
        if index == 0 {
            Direction::Up
        } else if index == 1 {
            Direction::Down
        } else if index == 2 {
            Direction::Left
        } else {
            Direction::Right
        }
    }

    pub fn from_index(index: u8) -> (r: Direction)
        requires
            index < 4,
        ensures
            r == Self::from_index_spec(index as int),
    {
        match index {
            0 => Direction::Up,
            1 => Direction::Down,
            2 => Direction::Left,
            _ => Direction::Right,
        }
    }

    pub fn xy(&self) -> (r: (i8, i8))
        ensures
            r.0 == self.vector().0,
            r.1 == self.vector().1,
    {
        match self {
            Direction::Up => (0, -1),
            Direction::Down => (0, 1),
            Direction::Left => (-1, 0),
            Direction::Right => (1, 0),
        }
    }
}

} // verus!
