use vstd::prelude::*;

verus! {

/// The state of one cell.
#[derive(Clone, Copy, Debug, PartialEq, Eq, Structural)]
pub enum Cell {
    Dead,
    Alive,
}

impl Cell {
    /// The cell state that a stored bit stands for.
    pub open spec fn of_bit(bit: bool) -> Cell {
        if bit {
            Cell::Alive
        } else {
            Cell::Dead
        }
    }

    /// Whether the cell is alive.
    pub fn is_alive(self) -> (alive: bool)
        ensures
            alive == (self == Cell::Alive),
            Cell::of_bit(alive) == self,
    {
        match self {
            Cell::Alive => true,
            Cell::Dead => false,
        }
    }

    /// Builds a cell from a stored bit.
    pub fn from_bit(bit: bool) -> (cell: Cell)
        ensures
            cell == Cell::of_bit(bit),
    {
        if bit {
            Cell::Alive
        } else {
            Cell::Dead
        }
    }
}

} // verus!
