//! Facts that hold of every grid, stated over the same functions as the
//! contracts of `Universe`.

use crate::grid::Grid;
use crate::pattern::PULSAR_SPAN;
use vstd::prelude::*;

verus! {

/// Toggling the same cell twice gives the grid back.
pub proof fn law_toggle_twice(g: Grid, row: int, col: int)
    requires
        g.wf(),
        g.in_bounds(row, col),
    ensures
        g.toggled(row, col).toggled(row, col) == g,
{
    g.lemma_index(row, col);
    assert(g.toggled(row, col).toggled(row, col).cells =~= g.cells);
}

/// A grid that was just cleared, as by a reset or a change of a
/// dimension, has the size that its dimensions ask for and no live cell.
pub proof fn law_cleared_grid_is_dead(width: nat, height: nat)
    requires
        width * height <= u32::MAX,
    ensures
        Grid::dead(width, height).wf(),
        forall|i: int| 0 <= i < width * height ==> !(#[trigger] Grid::dead(width, height).cells[i]),
        forall|row: int, col: int|
            Grid::dead(width, height).in_bounds(row, col) ==> !(#[trigger] Grid::dead(
                width,
                height,
            ).alive(row, col)),
{
    let g = Grid::dead(width, height);
    assert forall|row: int, col: int| g.in_bounds(row, col) implies !(#[trigger] g.alive(
        row,
        col,
    )) by {
        g.lemma_index(row, col);
    }
}

/// Every operation on a universe keeps one cell per coordinate: a
/// generation step, a toggle, a list of cells set alive and a stamped
/// pattern keep the dimensions and the number of cells.
pub proof fn law_size_is_kept(
    g: Grid,
    row: int,
    col: int,
    coords: Seq<(u32, u32)>,
    pattern: spec_fn(int, int) -> bool,
)
    requires
        g.wf(),
    ensures
        g.step().wf(),
        g.in_bounds(row, col) ==> g.toggled(row, col).wf(),
        g.with_alive(coords).wf(),
        g.stamped(row, col, pattern).wf(),
{
    if g.in_bounds(row, col) {
        g.lemma_index(row, col);
    }
}

/// A pulsar does not fit at an anchor that lies within half its span plus
/// one of an edge of the grid, so stamping there changes nothing.
pub proof fn law_pulsar_needs_margin(g: Grid, row: int, col: int)
    requires
        row <= PULSAR_SPAN / 2 + 1 || row + PULSAR_SPAN / 2 + 1 >= g.height || col <= PULSAR_SPAN
            / 2 + 1 || col + PULSAR_SPAN / 2 + 1 >= g.width,
    ensures
        !g.fits(row, col, PULSAR_SPAN as int, PULSAR_SPAN as int),
{
}

/// One step off either end of a ring of `n` comes back in at the other
/// end, and a coordinate on the ring stays where it is.
proof fn lemma_wrap_near(x: int, n: int)
    requires
        n >= 1,
        -1 <= x <= n,
    ensures
        x % n == (if x == -1 {
            n - 1
        } else if x == n {
            0
        } else {
            x
        }),
{
    if x == -1 {
        vstd::arithmetic::div_mod::lemma_mod_add_multiples_vanish(x, n);
        vstd::arithmetic::div_mod::lemma_small_mod((n - 1) as nat, n as nat);
    } else if x == n {
        vstd::arithmetic::div_mod::lemma_mod_self_0(n);
    } else {
        vstd::arithmetic::div_mod::lemma_small_mod(x as nat, n as nat);
    }
}

/// With the cell at `(0, 0)` as the only live one, a wrapped lookup finds
/// a live cell exactly where both coordinates land on 0.
proof fn lemma_lone_corner(g: Grid, n: int, row: int, col: int)
    requires
        g.wf(),
        g.width == n,
        g.height == n,
        n >= 3,
        g.alive(0, 0),
        forall|r: int, c: int|
            g.in_bounds(r, c) && !(r == 0 && c == 0) ==> !(#[trigger] g.alive(r, c)),
        -1 <= row <= n,
        -1 <= col <= n,
    ensures
        g.wrapped(row, col) == (if (row == 0 || row == n) && (col == 0 || col == n) {
            1int
        } else {
            0int
        }),
{
    lemma_wrap_near(row, n);
    lemma_wrap_near(col, n);
}

/// The grid wraps at its edges: on a square grid of side `n`, at least 3,
/// whose only live cell is `(0, 0)`, that cell is a neighbour of the cells
/// across the edges and the corners, `(n-1, n-1)`, `(n-1, 0)`, `(0, n-1)`,
/// `(n-1, 1)` and `(1, n-1)`, as it is of `(0, 1)`, `(1, 0)` and `(1, 1)`.
/// Each of them counts one live neighbour.
pub proof fn law_corner_wraps(g: Grid, n: int)
    requires
        g.wf(),
        g.width == n,
        g.height == n,
        n >= 3,
        g.alive(0, 0),
        forall|r: int, c: int|
            g.in_bounds(r, c) && !(r == 0 && c == 0) ==> !(#[trigger] g.alive(r, c)),
    ensures
        g.live_neighbors(n - 1, n - 1) == 1,
        g.live_neighbors(n - 1, 0) == 1,
        g.live_neighbors(0, n - 1) == 1,
        g.live_neighbors(n - 1, 1) == 1,
        g.live_neighbors(1, n - 1) == 1,
        g.live_neighbors(0, 1) == 1,
        g.live_neighbors(1, 0) == 1,
        g.live_neighbors(1, 1) == 1,
{
    assert forall|row: int, col: int| -1 <= row <= n && -1 <= col <= n implies #[trigger] g.wrapped(
        row,
        col,
    ) == (if (row == 0 || row == n) && (col == 0 || col == n) {
        1int
    } else {
        0int
    }) by {
        lemma_lone_corner(g, n, row, col);
    }
}

/// Whether `(row, col)` is one of the four cells of the two by two block
/// whose upper left cell is `(top, left)`.
pub open spec fn in_block(top: int, left: int, row: int, col: int) -> bool {
    top <= row <= top + 1 && left <= col <= left + 1
}

/// A two by two block of live cells that keeps one dead row or column
/// between itself and every edge, on a grid with no other live cell, is a
/// still life: a generation step gives the same grid.
pub proof fn law_block_is_still(g: Grid, top: int, left: int)
    requires
        g.wf(),
        1 <= top,
        top + 2 < g.height,
        1 <= left,
        left + 2 < g.width,
        forall|row: int, col: int|
            g.in_bounds(row, col) ==> #[trigger] g.alive(row, col) == in_block(top, left, row, col),
    ensures
        g.step() == g,
{
    let w = g.width as int;
    let h = g.height as int;
    assert forall|row: int, col: int| -1 <= row <= h && -1 <= col <= w implies #[trigger] g.wrapped(
        row,
        col,
    ) == (if in_block(top, left, row, col) {
        1int
    } else {
        0int
    }) by {
        lemma_wrap_near(row, h);
        lemma_wrap_near(col, w);
    }
    assert forall|i: int| 0 <= i < g.cells.len() implies g.next_cell(i) == g.cells[i] by {
        g.lemma_coordinates(i);
        let (row, col) = (i / w, i % w);
        assert(g.cells[i] == g.alive(row, col));
    }
    assert(g.step().cells =~= g.cells);
}

} // verus!
