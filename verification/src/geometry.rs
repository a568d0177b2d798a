//! Board geometry: squares, the jump tables of knights and kings, and the
//! eight line directions of sliding pieces.

use vstd::prelude::*;
use crate::pieces::Piece;

verus! {

/// An 8x8 grid of squares, indexed `[rank][file]`.
pub type Grid = Seq<Seq<Option<Piece>>>;

/// A coordinate pair lies on the board.
pub open spec fn in_bounds(r: int, f: int) -> bool {
    0 <= r < 8 && 0 <= f < 8
}

/// The coordinate `k` steps from `x` in direction `d` (`d` is -1, 0 or 1).
pub open spec fn along(x: int, d: int, k: int) -> int {
    if d > 0 {
        x + k
    } else if d < 0 {
        x - k
    } else {
        x
    }
}

/// The content of square `(r, f)` of a grid.
pub open spec fn cell(g: Grid, r: int, f: int) -> Option<Piece> {
    g[r][f]
}

/// The grid with square `(r, f)` replaced by `v`.
pub open spec fn set_cell(g: Grid, r: int, f: int, v: Option<Piece>) -> Grid {
    g.update(r, g[r].update(f, v))
}

/// The grid is 8 by 8.
pub open spec fn grid_shaped(g: Grid) -> bool {
    g.len() == 8 && forall|r: int| 0 <= r < 8 ==> (#[trigger] g[r]).len() == 8
}

/// Rank offset of the `i`-th knight jump.
pub open spec fn knight_dr(i: int) -> int {
    if i == 0 || i == 1 {
        -2
    } else if i == 2 || i == 3 {
        -1
    } else if i == 4 || i == 5 {
        1
    } else {
        2
    }
}

/// File offset of the `i`-th knight jump.
pub open spec fn knight_df(i: int) -> int {
    if i == 0 || i == 6 {
        -1
    } else if i == 1 || i == 7 {
        1
    } else if i == 2 || i == 4 {
        -2
    } else {
        2
    }
}

/// Rank offset of the `i`-th king step.
pub open spec fn king_dr(i: int) -> int {
    if i < 3 {
        -1
    } else if i < 5 {
        0
    } else {
        1
    }
}

/// File offset of the `i`-th king step.
pub open spec fn king_df(i: int) -> int {
    if i == 0 || i == 3 || i == 5 {
        -1
    } else if i == 1 || i == 6 {
        0
    } else {
        1
    }
}

/// Rank step of the `i`-th line direction: 0..4 are the rook lines,
/// 4..8 the diagonals.
pub open spec fn dir_dr(i: int) -> int {
    if i == 0 || i == 1 {
        0
    } else if i == 2 || i == 4 || i == 5 {
        1
    } else {
        -1
    }
}

/// File step of the `i`-th line direction.
pub open spec fn dir_df(i: int) -> int {
    if i == 0 || i == 4 || i == 6 {
        1
    } else if i == 1 || i == 5 || i == 7 {
        -1
    } else {
        0
    }
}

/// The `i`-th knight jump.
pub fn knight_offset(i: usize) -> (d: (i32, i32))
    requires
        i < 8,
    ensures
        d.0 == knight_dr(i as int),
        d.1 == knight_df(i as int),
{
    match i {
        0 => (-2, -1),
        1 => (-2, 1),
        2 => (-1, -2),
        3 => (-1, 2),
        4 => (1, -2),
        5 => (1, 2),
        6 => (2, -1),
        _ => (2, 1),
    }
}

/// The `i`-th king step.
pub fn king_offset(i: usize) -> (d: (i32, i32))
    requires
        i < 8,
    ensures
        d.0 == king_dr(i as int),
        d.1 == king_df(i as int),
{
    match i {
        0 => (-1, -1),
        1 => (-1, 0),
        2 => (-1, 1),
        3 => (0, -1),
        4 => (0, 1),
        5 => (1, -1),
        6 => (1, 0),
        _ => (1, 1),
    }
}

/// The `i`-th line direction.
pub fn line_direction(i: usize) -> (d: (i32, i32))
    requires
        i < 8,
    ensures
        d.0 == dir_dr(i as int),
        d.1 == dir_df(i as int),
        d.0 != 0 || d.1 != 0,
{
    match i {
        0 => (0, 1),
        1 => (0, -1),
        2 => (1, 0),
        3 => (-1, 0),
        4 => (1, 1),
        5 => (1, -1),
        6 => (-1, 1),
        _ => (-1, -1),
    }
}

} // verus!
