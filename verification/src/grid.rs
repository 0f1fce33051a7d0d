//! The mathematical picture of a universe, and the transition rule on it.

use vstd::prelude::*;

verus! {

/// A grid of cells: `cells[row * width + col]` says whether the cell in
/// that row and column is alive.
pub struct Grid {
    pub width: nat,
    pub height: nat,
    pub cells: Seq<bool>,
}

/// The life/death rule: what a cell becomes, given whether it is alive and
/// how many of its neighbours are.
pub open spec fn next_state(alive: bool, live_neighbors: int) -> bool {
    if alive {
        live_neighbors == 2 || live_neighbors == 3
    } else {
        live_neighbors == 3
    }
}

impl Grid {
    /// There is one cell per coordinate, and the cell count fits in 32 bits.
    pub open spec fn wf(self) -> bool {
        &&& self.cells.len() == self.width * self.height
        &&& self.width * self.height <= u32::MAX
    }

    /// The grid of the given dimensions with every cell dead.
    pub open spec fn dead(width: nat, height: nat) -> Grid {
        Grid { width, height, cells: Seq::new(width * height, |i: int| false) }
    }

    /// The grid of the given dimensions in which cell `i` is alive where
    /// `draws[i]` is there and true.
    pub open spec fn seeded(width: nat, height: nat, draws: Seq<bool>) -> Grid {
        Grid {
            width,
            height,
            cells: Seq::new(width * height, |i: int| i < draws.len() && draws[i]),
        }
    }

    /// Whether `(row, col)` names a cell of the grid.
    pub open spec fn in_bounds(self, row: int, col: int) -> bool {
        0 <= row < self.height && 0 <= col < self.width
    }

    /// The place of a cell in row-major order.
    pub open spec fn index(self, row: int, col: int) -> int {
        row * self.width + col
    }

    pub open spec fn alive(self, row: int, col: int) -> bool {
        self.cells[self.index(row, col)]
    }

    /// 1 if the cell at `(row, col)`, taken modulo the dimensions, is
    /// alive, else 0.
    pub open spec fn wrapped(self, row: int, col: int) -> int {
        if self.alive(row % (self.height as int), col % (self.width as int)) {
            1
        } else {
            0
        }
    }

    /// The number of live cells among the eight neighbours of `(row, col)`
    /// on the torus. Each of the eight offsets counts on its own, so on a
    /// grid with a single row or column one cell may be counted more than
    /// once.
    pub open spec fn live_neighbors(self, row: int, col: int) -> int {
        self.wrapped(row - 1, col - 1) + self.wrapped(row - 1, col) + self.wrapped(row - 1, col + 1)
            + self.wrapped(row, col - 1) + self.wrapped(row, col + 1) + self.wrapped(
            row + 1,
            col - 1,
        ) + self.wrapped(row + 1, col) + self.wrapped(row + 1, col + 1)
    }

    /// The state of the cell at index `i` one generation later.
    pub open spec fn next_cell(self, i: int) -> bool {
        next_state(
            self.cells[i],
            self.live_neighbors(i / (self.width as int), i % (self.width as int)),
        )
    }

    /// The grid one generation later.
    pub open spec fn step(self) -> Grid {
        Grid {
            width: self.width,
            height: self.height,
            cells: Seq::new(self.cells.len(), |i: int| self.next_cell(i)),
        }
    }

    /// The grid with the cell at index `i` set to `alive`.
    pub open spec fn with_cell(self, i: int, alive: bool) -> Grid {
        Grid { width: self.width, height: self.height, cells: self.cells.update(i, alive) }
    }

    /// The grid with the cell at `(row, col)` flipped.
    pub open spec fn toggled(self, row: int, col: int) -> Grid {
        self.with_cell(self.index(row, col), !self.alive(row, col))
    }

    /// Whether `coords` names the cell at `(row, col)`.
    pub open spec fn names(coords: Seq<(u32, u32)>, row: int, col: int) -> bool {
        exists|k: int| 0 <= k < coords.len() && (#[trigger] coords[k]).0 == row && coords[k].1 == col
    }

    /// The grid with every cell that `coords` names alive and the others
    /// as they are.
    pub open spec fn with_alive(self, coords: Seq<(u32, u32)>) -> Grid {
        Grid {
            width: self.width,
            height: self.height,
            cells: Seq::new(
                self.cells.len(),
                |i: int|
                    self.cells[i] || Self::names(
                        coords,
                        i / (self.width as int),
                        i % (self.width as int),
                    ),
            ),
        }
    }

    /// Whether a pattern with a bounding box of `width` by `height` cells
    /// may be stamped at the anchor `(row, col)`: the anchor keeps a margin
    /// of `height / 2 + 1` rows and `width / 2 + 1` columns from the edges,
    /// and does not even touch them.
    pub open spec fn fits(self, row: int, col: int, width: int, height: int) -> bool {
        let w2 = width / 2 + 1;
        let h2 = height / 2 + 1;
        row - h2 > 0 && row + h2 < self.height && col - w2 > 0 && col + w2 < self.width
    }

    /// The grid with a pattern stamped at the anchor `(row, col)`: a cell
    /// is alive if it was, or if the pattern has a live cell at its offset
    /// from the anchor. Offsets are plain differences: nothing wraps.
    pub open spec fn stamped(self, row: int, col: int, pattern: spec_fn(int, int) -> bool) -> Grid {
        Grid {
            width: self.width,
            height: self.height,
            cells: Seq::new(
                self.cells.len(),
                |i: int|
                    self.cells[i] || pattern(
                        i / (self.width as int) - row,
                        i % (self.width as int) - col,
                    ),
            ),
        }
    }

    /// A cell inside the grid has an index inside the cell sequence, and
    /// the index gives the row and the column back.
    pub proof fn lemma_index(self, row: int, col: int)
        requires
            self.wf(),
            self.in_bounds(row, col),
        ensures
            0 <= self.index(row, col) < self.cells.len(),
            self.index(row, col) / (self.width as int) == row,
            self.index(row, col) % (self.width as int) == col,
    {
        let w = self.width as int;
        let h = self.height as int;
        assert(row * w + col < w * h) by (nonlinear_arith)
            requires
                0 <= row < h,
                0 <= col < w,
        ;
        assert(0 <= row * w + col) by (nonlinear_arith)
            requires
                0 <= row,
                0 <= col,
                0 < w,
        ;
        vstd::arithmetic::div_mod::lemma_fundamental_div_mod_converse(row * w + col, w, row, col);
    }

    /// An index inside the cell sequence is the index of the cell at its
    /// quotient and remainder by the width.
    pub proof fn lemma_coordinates(self, i: int)
        requires
            self.wf(),
            0 <= i < self.cells.len(),
        ensures
            self.in_bounds(i / (self.width as int), i % (self.width as int)),
            self.index(i / (self.width as int), i % (self.width as int)) == i,
    {
        let w = self.width as int;
        let h = self.height as int;
        assert(w > 0) by (nonlinear_arith)
            requires
                0 <= i < w * h,
                0 <= w,
        ;
        vstd::arithmetic::div_mod::lemma_fundamental_div_mod(i, w);
        vstd::arithmetic::div_mod::lemma_div_pos_is_pos(i, w);
        assert(i / w < h) by (nonlinear_arith)
            requires
                0 <= i < w * h,
                0 < w,
                i == w * (i / w) + i % w,
                0 <= i % w < w,
        ;
        assert((i / w) * w == w * (i / w)) by (nonlinear_arith);
    }
}

} // verus!
