//! The patterns that can be stamped into a universe, each as the set of
//! offsets `(dr, dc)` from the anchor cell at which it has a live cell.

use vstd::prelude::*;

verus! {

/// Side of the glider's bounding box.
pub const GLIDER_SPAN: u32 = 3;

/// Side of the pulsar's bounding box.
pub const PULSAR_SPAN: u32 = 14;

/// The glider: `(1, 0)`, `(0, -1)`, `(-1, -1)`, `(-1, 0)`, `(-1, 1)`.
pub open spec fn in_glider(dr: int, dc: int) -> bool {
    ||| (dr == 1 && dc == 0)
    ||| (dr == 0 && dc == -1)
    ||| (dr == -1 && dc == -1)
    ||| (dr == -1 && dc == 0)
    ||| (dr == -1 && dc == 1)
}

/// Whether `d` is 2, 3 or 4 steps from the anchor, on either side: the
/// extent of one bar of the pulsar.
pub open spec fn on_bar(d: int) -> bool {
    (2 <= d <= 4) || (-4 <= d <= -2)
}

/// Whether `d` is 1 or 6 steps from the anchor, on either side: the lines
/// on which the bars of the pulsar lie.
pub open spec fn on_line(d: int) -> bool {
    d == 1 || d == -1 || d == 6 || d == -6
}

/// The pulsar: 48 cells in bars of three. The horizontal bars lie in the
/// rows 1 and 6 steps above and below the anchor and span the columns 2 to
/// 4 steps to its left and right; the vertical bars are their mirror
/// images in the diagonal.
pub open spec fn in_pulsar(dr: int, dc: int) -> bool {
    (on_line(dr) && on_bar(dc)) || (on_bar(dr) && on_line(dc))
}

/// Whether the pulsar has a live cell at the offset `(dr, dc)`.
pub fn pulsar_has(dr: i32, dc: i32) -> (has: bool)
    ensures
        has == in_pulsar(dr as int, dc as int),
{
    let row_line = dr == 1 || dr == -1 || dr == 6 || dr == -6;
    let col_line = dc == 1 || dc == -1 || dc == 6 || dc == -6;
    let row_bar = (2 <= dr && dr <= 4) || (-4 <= dr && dr <= -2);
    let col_bar = (2 <= dc && dc <= 4) || (-4 <= dc && dc <= -2);
    (row_line && col_bar) || (row_bar && col_line)
}

} // verus!
