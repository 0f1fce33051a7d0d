//! The simulation object.

use crate::bitset::{bit_at, bit_seq, duplicate, packed_in};
use crate::cell::Cell;
use crate::grid::{next_state, Grid};
use crate::pattern::{in_glider, in_pulsar, pulsar_has, GLIDER_SPAN, PULSAR_SPAN};
use fixedbitset::FixedBitSet;
use vstd::prelude::*;

verus! {

/// A Game of Life universe: a toroidal grid of cells, one bit each.
pub struct Universe {
    width: u32,
    height: u32,
    cells: FixedBitSet,
}

impl View for Universe {
    type V = Grid;

    closed spec fn view(&self) -> Grid {
        Grid { width: self.width as nat, height: self.height as nat, cells: bit_seq(self.cells) }
    }
}

impl Universe {
    /// The invariant of every universe: the storage holds exactly
    /// `width * height` cells.
    pub open spec fn wf(&self) -> bool {
        self@.wf()
    }

    /// The number of columns.
    pub fn width(&self) -> (w: u32)
        ensures
            w == self@.width,
    {
        self.width
    }

    /// The number of rows.
    pub fn height(&self) -> (h: u32)
        ensures
            h == self@.height,
    {
        self.height
    }

    /// The number of cells.
    pub fn size(&self) -> (n: usize)
        requires
            self.wf(),
        ensures
            n == self@.width * self@.height,
            n == self@.cells.len(),
    {
        (self.width * self.height) as usize
    }

    /// The packed storage: 32 cells to a word, in index order, the first
    /// cell of a word in its least significant bit.
    pub fn cells(&self) -> (words: &[u32])
        ensures
            packed_in(self@.cells, words@),
    {
        self.cells.as_slice()
    }

    /// A universe of the given dimensions. Cell `i` is alive if `draws[i]`
    /// is there and true; `draws` holds, for each cell in index order, the
    /// outcome of one draw from a random source.
    pub fn new(w: u32, h: u32, draws: &[bool]) -> (u: Universe)
        requires
            w * h <= u32::MAX,
        ensures
            u.wf(),
            u@ == Grid::seeded(w as nat, h as nat, draws@),
    {
        let width = w;
        let height = h;
        let size = (width * height) as usize;
        let cells = seed(size, draws);
        Universe { width, height, cells }
    }

    /// Repopulates the grid from `draws`, as `new` does, keeping the
    /// dimensions.
    pub fn random(&mut self, draws: &[bool])
        requires
            old(self)@.width * old(self)@.height <= u32::MAX,
        ensures
            final(self).wf(),
            final(self)@ == Grid::seeded(old(self)@.width, old(self)@.height, draws@),
    {
        let size = (self.width * self.height) as usize;
        self.cells = seed(size, draws);
    }

    /// Makes every cell dead, keeping the dimensions.
    pub fn reset(&mut self)
        requires
            old(self)@.width * old(self)@.height <= u32::MAX,
        ensures
            final(self).wf(),
            final(self)@ == Grid::dead(old(self)@.width, old(self)@.height),
    {
        self.cells = FixedBitSet::with_capacity((self.width * self.height) as usize);
    }

    /// The place of the cell at `(row, column)` in the storage.
    pub fn get_index(&self, row: u32, column: u32) -> (idx: usize)
        requires
            self.wf(),
            self@.in_bounds(row as int, column as int),
        ensures
            idx == self@.index(row as int, column as int),
            idx < self@.cells.len(),
    {
        proof {
            self@.lemma_index(row as int, column as int);
            assert(row * self.width <= row * self.width + column);
        }
        (row * self.width + column) as usize
    }

    /// The state of the cell at `(row, column)`.
    pub fn get_cell(&self, row: u32, column: u32) -> (cell: Cell)
        requires
            self.wf(),
            self@.in_bounds(row as int, column as int),
        ensures
            cell == Cell::of_bit(self@.alive(row as int, column as int)),
    {
        let idx = self.get_index(row, column);
        Cell::from_bit(bit_at(&self.cells, idx))
    }

    /// Flips the cell at `(row, column)`.
    pub fn toggle_cell(&mut self, row: u32, column: u32)
        requires
            old(self).wf(),
            old(self)@.in_bounds(row as int, column as int),
        ensures
            final(self).wf(),
            final(self)@ == old(self)@.toggled(row as int, column as int),
    {
        let idx = self.get_index(row, column);
        let cell = bit_at(&self.cells, idx);
        self.cells.set(idx, !cell);
    }

    /// Changes the width and makes every cell dead.
    pub fn set_width(&mut self, width: u32)
        requires
            width * old(self)@.height <= u32::MAX,
        ensures
            final(self).wf(),
            final(self)@ == Grid::dead(width as nat, old(self)@.height),
    {
        self.width = width;
        let size = (width * self.height) as usize;
        self.cells = FixedBitSet::with_capacity(size);
    }

    /// Changes the height and makes every cell dead.
    pub fn set_height(&mut self, height: u32)
        requires
            old(self)@.width * height <= u32::MAX,
        ensures
            final(self).wf(),
            final(self)@ == Grid::dead(old(self)@.width, height as nat),
    {
        self.height = height;
        let size = (self.width * height) as usize;
        self.cells = FixedBitSet::with_capacity(size);
    }

    /// Makes the cell at `(row, column)` alive.
    fn mark(&mut self, row: u32, column: u32)
        requires
            old(self).wf(),
            old(self)@.in_bounds(row as int, column as int),
        ensures
            final(self).wf(),
            final(self)@ == old(self)@.with_cell(
                old(self)@.index(row as int, column as int),
                true,
            ),
    {
        let idx = self.get_index(row, column);
        self.cells.set(idx, true);
    }

    /// Makes each cell that `cells` names, as `(row, column)`, alive.
    pub fn set_cells(&mut self, cells: &[(u32, u32)])
        requires
            old(self).wf(),
            forall|k: int|
                0 <= k < cells@.len() ==> old(self)@.in_bounds(
                    (#[trigger] cells@[k]).0 as int,
                    cells@[k].1 as int,
                ),
        ensures
            final(self).wf(),
            final(self)@ == old(self)@.with_alive(cells@),
    {
        let ghost before = self@;
        let ghost w = self@.width as int;
        let mut j: usize = 0;
        while j < cells.len()
            invariant
                j <= cells@.len(),
                self.wf(),
                self@.width == before.width,
                self@.height == before.height,
                before.wf(),
                w == before.width,
                self@.cells.len() == before.cells.len(),
                forall|k: int|
                    0 <= k < cells@.len() ==> before.in_bounds(
                        (#[trigger] cells@[k]).0 as int,
                        cells@[k].1 as int,
                    ),
                forall|i: int|
                    0 <= i < before.cells.len() ==> #[trigger] self@.cells[i] == (before.cells[i]
                        || Grid::names(cells@.take(j as int), i / w, i % w)),
            decreases cells@.len() - j,
        {
            let (row, col) = cells[j];
            let ghost prev = self@;
            self.mark(row, col);
            proof {
                let idx = before.index(row as int, col as int);
                before.lemma_index(row as int, col as int);
                let shorter = cells@.take(j as int);
                let longer = cells@.take(j as int + 1);
                assert(longer[j as int] == cells@[j as int]);
                assert forall|i: int| 0 <= i < before.cells.len() implies #[trigger] self@.cells[i]
                    == (before.cells[i] || Grid::names(longer, i / w, i % w)) by {
                    before.lemma_coordinates(i);
                    assert(prev.cells[i] == (before.cells[i] || Grid::names(shorter, i / w, i % w)));
                    assert(self@.cells == prev.cells.update(idx, true));
                    if i == idx {
                        assert(longer[j as int].0 == i / w && longer[j as int].1 == i % w);
                    }
                    if Grid::names(shorter, i / w, i % w) {
                        let k = choose|k: int|
                            0 <= k < shorter.len() && (#[trigger] shorter[k]).0 == i / w
                                && shorter[k].1 == i % w;
                        assert(longer[k] == shorter[k]);
                    }
                    if Grid::names(longer, i / w, i % w) && i != idx {
                        let k = choose|k: int|
                            0 <= k < longer.len() && (#[trigger] longer[k]).0 == i / w
                                && longer[k].1 == i % w;
                        assert(shorter[k] == longer[k]);
                    }
                }
            }
            j += 1;
        }
        proof {
            assert(cells@.take(j as int) =~= cells@);
            assert(self@.cells =~= before.with_alive(cells@).cells);
        }
    }

    /// 1 if the cell at `(row, column)` is alive, else 0.
    fn live(&self, row: u32, column: u32) -> (n: u8)
        requires
            self.wf(),
            self@.in_bounds(row as int, column as int),
        ensures
            n == self@.wrapped(row as int, column as int),
            n <= 1,
    {
        proof {
            vstd::arithmetic::div_mod::lemma_small_mod(row as nat, self.height as nat);
            vstd::arithmetic::div_mod::lemma_small_mod(column as nat, self.width as nat);
        }
        let idx = self.get_index(row, column);
        if bit_at(&self.cells, idx) {
            1
        } else {
            0
        }
    }

    /// The number of live cells among the eight neighbours of
    /// `(row, column)`, with rows and columns wrapping at the edges.
    pub fn live_neighbor_count(&self, row: u32, column: u32) -> (count: u8)
        requires
            self.wf(),
            self@.in_bounds(row as int, column as int),
        ensures
            count == self@.live_neighbors(row as int, column as int),
            count <= 8,
    {
        let north = step_back(row, self.height);
        let south = step_forth(row, self.height);
        let west = step_back(column, self.width);
        let east = step_forth(column, self.width);
        proof {
            let g = self@;
            let (r, c) = (row as int, column as int);
            vstd::arithmetic::div_mod::lemma_small_mod(row as nat, self.height as nat);
            vstd::arithmetic::div_mod::lemma_small_mod(column as nat, self.width as nat);
            lemma_same_cell(g, r - 1, c - 1, north as int, west as int);
            lemma_same_cell(g, r - 1, c, north as int, c);
            lemma_same_cell(g, r - 1, c + 1, north as int, east as int);
            lemma_same_cell(g, r, c - 1, r, west as int);
            lemma_same_cell(g, r, c + 1, r, east as int);
            lemma_same_cell(g, r + 1, c - 1, south as int, west as int);
            lemma_same_cell(g, r + 1, c, south as int, c);
            lemma_same_cell(g, r + 1, c + 1, south as int, east as int);
        }
        let mut count: u8 = 0;
        count += self.live(north, west);
        count += self.live(north, column);
        count += self.live(north, east);
        count += self.live(row, west);
        count += self.live(row, east);
        count += self.live(south, west);
        count += self.live(south, column);
        count += self.live(south, east);
        count
    }

    /// Advances the universe by one generation. Every cell's new state is
    /// computed from the grid as it was before the call.
    pub fn tick(&mut self)
        requires
            old(self).wf(),
        ensures
            final(self).wf(),
            final(self)@ == old(self)@.step(),
    {
        let ghost before = self@;
        let ghost w = self.width as int;
        let mut next = duplicate(&self.cells);
        let mut row: u32 = 0;
        while row < self.height
            invariant
                self@ == before,
                before.wf(),
                w == before.width,
                row <= self.height,
                bit_seq(next).len() == before.cells.len(),
                forall|i: int| 0 <= i < row * w ==> #[trigger] bit_seq(next)[i] == before.next_cell(i),
            decreases self.height - row,
        {
            let mut col: u32 = 0;
            while col < self.width
                invariant
                    self@ == before,
                    before.wf(),
                    w == before.width,
                    row < self.height,
                    col <= self.width,
                    bit_seq(next).len() == before.cells.len(),
                    forall|i: int|
                        0 <= i < row * w + col ==> #[trigger] bit_seq(next)[i] == before.next_cell(
                            i,
                        ),
                decreases self.width - col,
            {
                let idx = self.get_index(row, col);
                let cell = bit_at(&self.cells, idx);
                let live_neighbors = self.live_neighbor_count(row, col);
                proof {
                    before.lemma_index(row as int, col as int);
                }
                next.set(idx, rule(cell, live_neighbors));
                col += 1;
            }
            proof {
                assert(row * w + w == (row + 1) * w) by (nonlinear_arith);
            }
            row += 1;
        }
        proof {
            assert(self.height * w == before.cells.len()) by (nonlinear_arith)
                requires
                    before.cells.len() == w * self.height,
            ;
            assert(bit_seq(next) =~= before.step().cells);
        }
        self.cells = next;
    }

    /// Whether a pattern with a bounding box of `width` by `height` cells
    /// may be stamped at the anchor `(row, column)`.
    pub fn will_fit(&self, row: u32, column: u32, width: u32, height: u32) -> (fits: bool)
        ensures
            fits == self@.fits(row as int, column as int, width as int, height as int),
    {
        let w2: u64 = (width / 2) as u64 + 1;
        let h2: u64 = (height / 2) as u64 + 1;
        row as u64 > h2 && row as u64 + h2 < self.height as u64 && column as u64 > w2
            && column as u64 + w2 < self.width as u64
    }

    /// Stamps a glider at the anchor `(row, column)` if it fits there, and
    /// does nothing if it does not.
    pub fn glider(&mut self, row: u32, column: u32)
        requires
            old(self).wf(),
        ensures
            final(self).wf(),
            final(self)@ == (if old(self)@.fits(
                row as int,
                column as int,
                GLIDER_SPAN as int,
                GLIDER_SPAN as int,
            ) {
                old(self)@.stamped(row as int, column as int, |dr: int, dc: int| in_glider(dr, dc))
            } else {
                old(self)@
            }),
    {
        if self.will_fit(row, column, GLIDER_SPAN, GLIDER_SPAN) {
            let ghost before = self@;
            let ghost w = self.width as int;
            self.mark(row + 1, column);
            self.mark(row, column - 1);
            self.mark(row - 1, column - 1);
            self.mark(row - 1, column);
            self.mark(row - 1, column + 1);
            proof {
                let (r, c) = (row as int, column as int);
                before.lemma_index(r + 1, c);
                before.lemma_index(r, c - 1);
                before.lemma_index(r - 1, c - 1);
                before.lemma_index(r - 1, c);
                before.lemma_index(r - 1, c + 1);
                let target = before.stamped(r, c, |dr: int, dc: int| in_glider(dr, dc));
                assert forall|i: int| 0 <= i < before.cells.len() implies self@.cells[i]
                    == target.cells[i] by {
                    before.lemma_coordinates(i);
                }
                assert(self@.cells =~= target.cells);
            }
        }
    }

    /// Stamps a pulsar at the anchor `(row, column)` if it fits there, and
    /// does nothing if it does not.
    pub fn pulsar(&mut self, row: u32, column: u32)
        requires
            old(self).wf(),
        ensures
            final(self).wf(),
            final(self)@ == (if old(self)@.fits(
                row as int,
                column as int,
                PULSAR_SPAN as int,
                PULSAR_SPAN as int,
            ) {
                old(self)@.stamped(row as int, column as int, |dr: int, dc: int| in_pulsar(dr, dc))
            } else {
                old(self)@
            }),
    {
        if self.will_fit(row, column, PULSAR_SPAN, PULSAR_SPAN) {
            let ghost before = self@;
            let ghost w = self.width as int;
            let ghost r = row as int;
            let ghost c = column as int;
            let mut dr: i32 = -6;
            while dr <= 6
                invariant
                    -6 <= dr <= 7,
                    self.wf(),
                    before.wf(),
                    before.fits(r, c, PULSAR_SPAN as int, PULSAR_SPAN as int),
                    r == row,
                    c == column,
                    w == before.width,
                    self@.width == before.width,
                    self@.height == before.height,
                    self@.cells.len() == before.cells.len(),
                    forall|i: int|
                        0 <= i < before.cells.len() ==> #[trigger] self@.cells[i] == (
                        before.cells[i] || (in_pulsar(i / w - r, i % w - c) && i / w - r < dr)),
                decreases 7 - dr,
            {
                let mut dc: i32 = -6;
                while dc <= 6
                    invariant
                        -6 <= dr <= 6,
                        -6 <= dc <= 7,
                        self.wf(),
                        before.wf(),
                        before.fits(r, c, PULSAR_SPAN as int, PULSAR_SPAN as int),
                        r == row,
                        c == column,
                        w == before.width,
                        self@.width == before.width,
                        self@.height == before.height,
                        self@.cells.len() == before.cells.len(),
                        forall|i: int|
                            0 <= i < before.cells.len() ==> #[trigger] self@.cells[i] == (
                            before.cells[i] || (in_pulsar(i / w - r, i % w - c) && (i / w - r < dr
                                || (i / w - r == dr && i % w - c < dc)))),
                    decreases 7 - dc,
                {
                    if pulsar_has(dr, dc) {
                        let ghost prev = self@;
                        let target_row = (row as i64 + dr as i64) as u32;
                        let target_col = (column as i64 + dc as i64) as u32;
                        self.mark(target_row, target_col);
                        proof {
                            before.lemma_index(r + dr, c + dc);
                            let idx = before.index(r + dr, c + dc);
                            assert(self@.cells == prev.cells.update(idx, true));
                            assert forall|i: int| 0 <= i < before.cells.len() implies #[trigger] self@.cells[i]
                                == (before.cells[i] || (in_pulsar(i / w - r, i % w - c) && (i / w
                                - r < dr || (i / w - r == dr && i % w - c < dc + 1)))) by {
                                before.lemma_coordinates(i);
                                assert(prev.cells[i] == (before.cells[i] || (in_pulsar(
                                    i / w - r,
                                    i % w - c,
                                ) && (i / w - r < dr || (i / w - r == dr && i % w - c < dc)))));
                            }
                        }
                    }
                    dc += 1;
                }
                dr += 1;
            }
            proof {
                let target = before.stamped(r, c, |dr: int, dc: int| in_pulsar(dr, dc));
                assert(self@.cells =~= target.cells);
            }
        }
    }
}

/// A bit set of `size` bits in which bit `i` is set if `draws[i]` is there
/// and true.
fn seed(size: usize, draws: &[bool]) -> (cells: FixedBitSet)
    ensures
        bit_seq(cells) == Seq::new(size as nat, |i: int| i < draws@.len() && draws@[i]),
{
    let mut cells = FixedBitSet::with_capacity(size);
    let mut i: usize = 0;
    while i < size
        invariant
            i <= size,
            bit_seq(cells).len() == size,
            forall|k: int| 0 <= k < i ==> bit_seq(cells)[k] == (k < draws@.len() && draws@[k]),
        decreases size - i,
    {
        let alive = i < draws.len() && draws[i];
        cells.set(i, alive);
        i += 1;
    }
    assert(bit_seq(cells) =~= Seq::new(size as nat, |i: int| i < draws@.len() && draws@[i]));
    cells
}

/// The life/death rule on stored values.
pub fn rule(cell: bool, live_neighbors: u8) -> (alive: bool)
    ensures
        alive == next_state(cell, live_neighbors as int),
{
    match (cell, live_neighbors) {
        (true, x) if x < 2 => false,
        (true, 2) | (true, 3) => true,
        (true, x) if x > 3 => false,
        (false, 3) => true,
        (otherwise, _) => otherwise,
    }
}

/// The coordinate one step before `x` on a ring of `n`.
fn step_back(x: u32, n: u32) -> (y: u32)
    requires
        x < n,
    ensures
        y == (x - 1) % (n as int),
        y < n,
{
    proof {
        vstd::arithmetic::div_mod::lemma_mod_add_multiples_vanish(x - 1, n as int);
    }
    ((x as u64 + (n - 1) as u64) % (n as u64)) as u32
}

/// The coordinate one step after `x` on a ring of `n`.
fn step_forth(x: u32, n: u32) -> (y: u32)
    requires
        x < n,
    ensures
        y == (x + 1) % (n as int),
        y < n,
{
    ((x as u64 + 1) % (n as u64)) as u32
}

/// A neighbour's coordinates may be reduced modulo the dimensions before
/// the cell is looked up.
proof fn lemma_same_cell(g: Grid, row: int, col: int, wrapped_row: int, wrapped_col: int)
    requires
        g.width > 0,
        g.height > 0,
        wrapped_row == row % (g.height as int),
        wrapped_col == col % (g.width as int),
    ensures
        g.wrapped(row, col) == g.wrapped(wrapped_row, wrapped_col),
        g.in_bounds(wrapped_row, wrapped_col),
{
    vstd::arithmetic::div_mod::lemma_mod_twice(row, g.height as int);
    vstd::arithmetic::div_mod::lemma_mod_twice(col, g.width as int);
    vstd::arithmetic::div_mod::lemma_mod_bound(row, g.height as int);
    vstd::arithmetic::div_mod::lemma_mod_bound(col, g.width as int);
}

} // verus!
