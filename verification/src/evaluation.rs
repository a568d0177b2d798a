//! Static evaluation: material, piece-square tables and mobility.

use vstd::prelude::*;
use crate::board::{Board, Position, color_slot, kings_on_board};
use crate::geometry::{in_bounds, along, knight_dr, knight_df, dir_dr, dir_df, knight_offset, line_direction};
use crate::pieces::{Color, Piece, PieceType};

verus! {

/// Piece-square tables for positional evaluation
/// Values are from White's perspective, flipped for Black
pub const PAWN_TABLE: [[i32; 8]; 8] = [
    [0, 0, 0, 0, 0, 0, 0, 0],
    [50, 50, 50, 50, 50, 50, 50, 50],
    [10, 10, 20, 30, 30, 20, 10, 10],
    [5, 5, 10, 25, 25, 10, 5, 5],
    [0, 0, 0, 20, 20, 0, 0, 0],
    [5, -5, -10, 0, 0, -10, -5, 5],
    [5, 10, 10, -20, -20, 10, 10, 5],
    [0, 0, 0, 0, 0, 0, 0, 0],
];

pub const KNIGHT_TABLE: [[i32; 8]; 8] = [
    [-50, -40, -30, -30, -30, -30, -40, -50],
    [-40, -20, 0, 0, 0, 0, -20, -40],
    [-30, 0, 10, 15, 15, 10, 0, -30],
    [-30, 5, 15, 20, 20, 15, 5, -30],
    [-30, 0, 15, 20, 20, 15, 0, -30],
    [-30, 5, 10, 15, 15, 10, 5, -30],
    [-40, -20, 0, 5, 5, 0, -20, -40],
    [-50, -40, -30, -30, -30, -30, -40, -50],
];

pub const BISHOP_TABLE: [[i32; 8]; 8] = [
    [-20, -10, -10, -10, -10, -10, -10, -20],
    [-10, 0, 0, 0, 0, 0, 0, -10],
    [-10, 0, 5, 10, 10, 5, 0, -10],
    [-10, 5, 5, 10, 10, 5, 5, -10],
    [-10, 0, 10, 10, 10, 10, 0, -10],
    [-10, 10, 10, 10, 10, 10, 10, -10],
    [-10, 5, 0, 0, 0, 0, 5, -10],
    [-20, -10, -10, -10, -10, -10, -10, -20],
];

pub const ROOK_TABLE: [[i32; 8]; 8] = [
    [0, 0, 0, 0, 0, 0, 0, 0],
    [5, 10, 10, 10, 10, 10, 10, 5],
    [-5, 0, 0, 0, 0, 0, 0, -5],
    [-5, 0, 0, 0, 0, 0, 0, -5],
    [-5, 0, 0, 0, 0, 0, 0, -5],
    [-5, 0, 0, 0, 0, 0, 0, -5],
    [-5, 0, 0, 0, 0, 0, 0, -5],
    [0, 0, 0, 5, 5, 0, 0, 0],
];

pub const QUEEN_TABLE: [[i32; 8]; 8] = [
    [-20, -10, -10, -5, -5, -10, -10, -20],
    [-10, 0, 0, 0, 0, 0, 0, -10],
    [-10, 0, 5, 5, 5, 5, 0, -10],
    [-5, 0, 5, 5, 5, 5, 0, -5],
    [0, 0, 5, 5, 5, 5, 0, -5],
    [-10, 5, 5, 5, 5, 5, 0, -10],
    [-10, 0, 5, 0, 0, 0, 0, -10],
    [-20, -10, -10, -5, -5, -10, -10, -20],
];

pub const KING_MIDDLE_TABLE: [[i32; 8]; 8] = [
    [-30, -40, -40, -50, -50, -40, -40, -30],
    [-30, -40, -40, -50, -50, -40, -40, -30],
    [-30, -40, -40, -50, -50, -40, -40, -30],
    [-30, -40, -40, -50, -50, -40, -40, -30],
    [-20, -30, -30, -40, -40, -30, -30, -20],
    [-10, -20, -20, -20, -20, -20, -20, -10],
    [20, 20, 0, 0, 0, 0, 20, 20],
    [20, 30, 10, 0, 0, 10, 30, 20],
];

pub const KING_END_TABLE: [[i32; 8]; 8] = [
    [-50, -40, -30, -20, -20, -30, -40, -50],
    [-30, -20, -10, 0, 0, -10, -20, -30],
    [-30, -10, 20, 30, 30, 20, -10, -30],
    [-30, -10, 30, 40, 40, 30, -10, -30],
    [-30, -10, 30, 40, 40, 30, -10, -30],
    [-30, -10, 20, 30, 30, 20, -10, -30],
    [-30, -30, 0, 0, 0, 0, -30, -30],
    [-50, -30, -30, -30, -30, -30, -30, -50],
];

/// The table of piece kind `t` (kings: the endgame or middlegame table).
pub open spec fn table_of(t: PieceType, endgame: bool) -> [[i32; 8]; 8] {
    match t {
        PieceType::Pawn => PAWN_TABLE,
        PieceType::Knight => KNIGHT_TABLE,
        PieceType::Bishop => BISHOP_TABLE,
        PieceType::Rook => ROOK_TABLE,
        PieceType::Queen => QUEEN_TABLE,
        PieceType::King => if endgame {
            KING_END_TABLE
        } else {
            KING_MIDDLE_TABLE
        },
    }
}

/// Positional bonus of a piece of kind `t` and color `c` on `(r, f)`: the
/// table row is `7 - r` for White and `r` for Black.
pub open spec fn positional(t: PieceType, c: Color, r: int, f: int, endgame: bool) -> i32 {
    let tr = match c {
        Color::White => 7 - r,
        Color::Black => r,
    };
    table_of(t, endgame)@[tr]@[f]
}

/// Material of the pieces of color `c` other than king and pawns on files
/// `0 .. n` of rank `r`.
pub open spec fn material_in_rank(p: Position, c: Color, r: int, n: int) -> int
    decreases n,
{
    if n <= 0 {
        0
    } else {
        material_in_rank(p, c, r, n - 1) + match p.at(r, n - 1) {
            Some(pc) => if pc.color == c && pc.piece_type != PieceType::King && pc.piece_type
                != PieceType::Pawn {
                pc.piece_type.value() as int
            } else {
                0
            },
            None => 0,
        }
    }
}

pub open spec fn material_in_ranks(p: Position, c: Color, n: int) -> int
    decreases n,
{
    if n <= 0 {
        0
    } else {
        material_in_ranks(p, c, n - 1) + material_in_rank(p, c, n - 1, 8)
    }
}

/// Endgame: both sides have less than 1300 of material besides king and pawns.
pub open spec fn endgame(p: Position) -> bool {
    material_in_ranks(p, Color::White, 8) < 1300 && material_in_ranks(p, Color::Black, 8) < 1300
}

/// Contribution of square `(r, f)` to the score: value plus positional bonus,
/// counted for White and against Black.
pub open spec fn square_score(p: Position, r: int, f: int, eg: bool) -> int {
    match p.at(r, f) {
        Some(pc) => {
            let total = pc.piece_type.value() + positional(pc.piece_type, pc.color, r, f, eg);
            match pc.color {
                Color::White => total,
                Color::Black => -total,
            }
        },
        None => 0,
    }
}

pub open spec fn placement_in_rank(p: Position, r: int, n: int, eg: bool) -> int
    decreases n,
{
    if n <= 0 {
        0
    } else {
        placement_in_rank(p, r, n - 1, eg) + square_score(p, r, n - 1, eg)
    }
}

pub open spec fn placement_in_ranks(p: Position, n: int, eg: bool) -> int
    decreases n,
{
    if n <= 0 {
        0
    } else {
        placement_in_ranks(p, n - 1, eg) + placement_in_rank(p, n - 1, 8, eg)
    }
}

/// Knight jumps from `(r, f)` among the first `n` that land on the board.
pub open spec fn knight_reach(r: int, f: int, n: int) -> int
    decreases n,
{
    if n <= 0 {
        0
    } else {
        knight_reach(r, f, n - 1) + if in_bounds(r + knight_dr(n - 1), f + knight_df(n - 1)) {
            1int
        } else {
            0int
        }
    }
}

/// Squares seen from `(r, f)` along direction `i` from `k` steps on: each
/// square up to and including the first occupied one.
pub open spec fn ray_reach(p: Position, r: int, f: int, i: int, k: int) -> int
    decreases 8 - k,
{
    let tr = along(r, dir_dr(i), k);
    let tf = along(f, dir_df(i), k);
    if k < 1 || k >= 8 || !in_bounds(tr, tf) {
        0
    } else if p.at(tr, tf) is Some {
        1
    } else {
        1 + ray_reach(p, r, f, i, k + 1)
    }
}

pub open spec fn lines_reach(p: Position, r: int, f: int, lo: int, n: int) -> int
    decreases n - lo,
{
    if n <= lo {
        0
    } else {
        lines_reach(p, r, f, lo, n - 1) + ray_reach(p, r, f, n - 1, 1)
    }
}

/// Mobility of a piece of kind `t` on `(r, f)`: knights count jumps onto
/// the board, sliders the squares they see; kings and pawns count nothing.
pub open spec fn reach(p: Position, r: int, f: int, t: PieceType) -> int {
    match t {
        PieceType::Knight => knight_reach(r, f, 8),
        PieceType::Bishop => lines_reach(p, r, f, 4, 8),
        PieceType::Rook => lines_reach(p, r, f, 0, 4),
        PieceType::Queen => lines_reach(p, r, f, 0, 8),
        _ => 0,
    }
}

pub open spec fn mobility_in_rank(p: Position, c: Color, r: int, n: int) -> int
    decreases n,
{
    if n <= 0 {
        0
    } else {
        mobility_in_rank(p, c, r, n - 1) + match p.at(r, n - 1) {
            Some(pc) => if pc.color == c {
                reach(p, r, n - 1, pc.piece_type)
            } else {
                0
            },
            None => 0,
        }
    }
}

pub open spec fn mobility_in_ranks(p: Position, c: Color, n: int) -> int
    decreases n,
{
    if n <= 0 {
        0
    } else {
        mobility_in_ranks(p, c, n - 1) + mobility_in_rank(p, c, n - 1, 8)
    }
}

/// The evaluation from White's side: material and placement of every
/// piece, plus 2 per square of mobility difference.
pub open spec fn evaluation(p: Position) -> int {
    placement_in_ranks(p, 8, endgame(p)) + 2 * (mobility_in_ranks(p, Color::White, 8)
        - mobility_in_ranks(p, Color::Black, 8))
}

/// The evaluation from the side of `c`.
pub open spec fn evaluation_for(p: Position, c: Color) -> int {
    match c {
        Color::White => evaluation(p),
        Color::Black => -evaluation(p),
    }
}

/// Every table entry lies between -50 and 50.
proof fn lemma_table_bounds(t: PieceType, eg: bool, r: int, f: int)
    requires
        0 <= r < 8,
        0 <= f < 8,
    ensures
        -50 <= table_of(t, eg)@[r]@[f] <= 50,
{
    assert(r == 0 || r == 1 || r == 2 || r == 3 || r == 4 || r == 5 || r == 6 || r == 7);
    assert(f == 0 || f == 1 || f == 2 || f == 3 || f == 4 || f == 5 || f == 6 || f == 7);
}

/// A square scores at most a king's value plus the largest table entry.
proof fn lemma_square_score_bounds(p: Position, r: int, f: int, eg: bool)
    requires
        0 <= r < 8,
        0 <= f < 8,
    ensures
        -20050 <= square_score(p, r, f, eg) <= 20050,
{
    match p.at(r, f) {
        Some(pc) => {
            let tr = match pc.color {
                Color::White => 7 - r,
                Color::Black => r,
            };
            lemma_table_bounds(pc.piece_type, eg, tr, f);
        },
        None => {},
    }
}

proof fn lemma_placement_rank_bounds(p: Position, r: int, n: int, eg: bool)
    requires
        0 <= r < 8,
        0 <= n <= 8,
    ensures
        -20050 * n <= placement_in_rank(p, r, n, eg) <= 20050 * n,
    decreases n,
{
    if n > 0 {
        lemma_placement_rank_bounds(p, r, n - 1, eg);
        lemma_square_score_bounds(p, r, n - 1, eg);
    }
}

proof fn lemma_placement_bounds(p: Position, n: int, eg: bool)
    requires
        0 <= n <= 8,
    ensures
        -160400 * n <= placement_in_ranks(p, n, eg) <= 160400 * n,
    decreases n,
{
    if n > 0 {
        lemma_placement_bounds(p, n - 1, eg);
        lemma_placement_rank_bounds(p, n - 1, 8, eg);
    }
}

proof fn lemma_knight_reach_bounds(r: int, f: int, n: int)
    requires
        0 <= n <= 8,
    ensures
        0 <= knight_reach(r, f, n) <= n,
    decreases n,
{
    if n > 0 {
        lemma_knight_reach_bounds(r, f, n - 1);
    }
}

proof fn lemma_ray_reach_bounds(p: Position, r: int, f: int, i: int, k: int)
    requires
        1 <= k <= 8,
    ensures
        0 <= ray_reach(p, r, f, i, k) <= 8 - k,
    decreases 8 - k,
{
    if k < 8 {
        lemma_ray_reach_bounds(p, r, f, i, k + 1);
    }
}

proof fn lemma_lines_reach_bounds(p: Position, r: int, f: int, lo: int, n: int)
    requires
        0 <= lo <= n <= 8,
    ensures
        0 <= lines_reach(p, r, f, lo, n) <= 7 * (n - lo),
    decreases n - lo,
{
    if n > lo {
        lemma_lines_reach_bounds(p, r, f, lo, n - 1);
        lemma_ray_reach_bounds(p, r, f, n - 1, 1);
    }
}

proof fn lemma_reach_bounds(p: Position, r: int, f: int, t: PieceType)
    ensures
        0 <= reach(p, r, f, t) <= 56,
{
    lemma_knight_reach_bounds(r, f, 8);
    lemma_lines_reach_bounds(p, r, f, 4, 8);
    lemma_lines_reach_bounds(p, r, f, 0, 4);
    lemma_lines_reach_bounds(p, r, f, 0, 8);
}

proof fn lemma_mobility_rank_bounds(p: Position, c: Color, r: int, n: int)
    requires
        0 <= n <= 8,
    ensures
        0 <= mobility_in_rank(p, c, r, n) <= 56 * n,
    decreases n,
{
    if n > 0 {
        lemma_mobility_rank_bounds(p, c, r, n - 1);
        match p.at(r, n - 1) {
            Some(pc) => lemma_reach_bounds(p, r, n - 1, pc.piece_type),
            None => {},
        }
    }
}

proof fn lemma_mobility_bounds(p: Position, c: Color, n: int)
    requires
        0 <= n <= 8,
    ensures
        0 <= mobility_in_ranks(p, c, n) <= 448 * n,
    decreases n,
{
    if n > 0 {
        lemma_mobility_bounds(p, c, n - 1);
        lemma_mobility_rank_bounds(p, c, n - 1, 8);
    }
}

/// Every evaluation lies within 1,300,000 centipawns of zero.
pub proof fn lemma_evaluation_bounds(p: Position, c: Color)
    ensures
        -1300000 <= evaluation_for(p, c) <= 1300000,
{
    lemma_placement_bounds(p, 8, endgame(p));
    lemma_mobility_bounds(p, Color::White, 8);
    lemma_mobility_bounds(p, Color::Black, 8);
}

/// The evaluation for one side is the negation of that for the other.
pub proof fn lemma_perspectives_opposite(p: Position)
    ensures
        evaluation_for(p, Color::White) == -evaluation_for(p, Color::Black),
        evaluation_for(p, Color::White) == evaluation(p),
{
}

/// The content of a square with the piece's color swapped.
pub open spec fn recolored(sq: Option<Piece>) -> Option<Piece> {
    match sq {
        Some(pc) => Some(Piece { color: pc.color.opposite(), piece_type: pc.piece_type }),
        None => None,
    }
}

/// `p` with its pieces seen in a mirror: rank `r` holds what rank `7 - r`
/// held, with the colors swapped.
pub open spec fn mirrored(p: Position) -> Position {
    Position { grid: Seq::new(8, |r: int| Seq::new(8, |f: int| recolored(p.at(7 - r, f)))), ..p }
}

/// The line direction with the rank step reversed.
pub open spec fn mirror_dir(i: int) -> int {
    if i == 2 {
        3
    } else if i == 3 {
        2
    } else if i == 4 || i == 5 {
        i + 2
    } else if i == 6 || i == 7 {
        i - 2
    } else {
        i
    }
}

proof fn lemma_mirrored_at(p: Position, r: int, f: int)
    requires
        in_bounds(r, f),
    ensures
        mirrored(p).at(r, f) == recolored(p.at(7 - r, f)),
{
}

proof fn lemma_material_rank_mirror(p: Position, c: Color, r: int, n: int)
    requires
        0 <= r < 8,
        n <= 8,
    ensures
        material_in_rank(mirrored(p), c.opposite(), r, n) == material_in_rank(p, c, 7 - r, n),
    decreases n,
{
    if n > 0 {
        lemma_material_rank_mirror(p, c, r, n - 1);
        lemma_mirrored_at(p, r, n - 1);
    }
}

proof fn lemma_material_mirror(p: Position, c: Color)
    ensures
        material_in_ranks(mirrored(p), c.opposite(), 8) == material_in_ranks(p, c, 8),
{
    reveal_with_fuel(material_in_ranks, 9);
    lemma_material_rank_mirror(p, c, 0, 8);
    lemma_material_rank_mirror(p, c, 1, 8);
    lemma_material_rank_mirror(p, c, 2, 8);
    lemma_material_rank_mirror(p, c, 3, 8);
    lemma_material_rank_mirror(p, c, 4, 8);
    lemma_material_rank_mirror(p, c, 5, 8);
    lemma_material_rank_mirror(p, c, 6, 8);
    lemma_material_rank_mirror(p, c, 7, 8);
}

proof fn lemma_placement_rank_mirror(p: Position, r: int, n: int, eg: bool)
    requires
        0 <= r < 8,
        n <= 8,
    ensures
        placement_in_rank(mirrored(p), r, n, eg) == -placement_in_rank(p, 7 - r, n, eg),
    decreases n,
{
    if n > 0 {
        lemma_placement_rank_mirror(p, r, n - 1, eg);
        lemma_mirrored_at(p, r, n - 1);
    }
}

proof fn lemma_placement_mirror(p: Position, eg: bool)
    ensures
        placement_in_ranks(mirrored(p), 8, eg) == -placement_in_ranks(p, 8, eg),
{
    reveal_with_fuel(placement_in_ranks, 9);
    lemma_placement_rank_mirror(p, 0, 8, eg);
    lemma_placement_rank_mirror(p, 1, 8, eg);
    lemma_placement_rank_mirror(p, 2, 8, eg);
    lemma_placement_rank_mirror(p, 3, 8, eg);
    lemma_placement_rank_mirror(p, 4, 8, eg);
    lemma_placement_rank_mirror(p, 5, 8, eg);
    lemma_placement_rank_mirror(p, 6, 8, eg);
    lemma_placement_rank_mirror(p, 7, 8, eg);
}

proof fn lemma_ray_reach_mirror(p: Position, r: int, f: int, i: int, k: int)
    requires
        0 <= r < 8,
        0 <= i < 8,
    ensures
        ray_reach(mirrored(p), r, f, i, k) == ray_reach(p, 7 - r, f, mirror_dir(i), k),
    decreases 8 - k,
{
    let tr = along(r, dir_dr(i), k);
    let tf = along(f, dir_df(i), k);
    assert(along(7 - r, dir_dr(mirror_dir(i)), k) == 7 - tr);
    assert(along(f, dir_df(mirror_dir(i)), k) == tf);
    if 1 <= k < 8 && in_bounds(tr, tf) {
        lemma_mirrored_at(p, tr, tf);
        lemma_ray_reach_mirror(p, r, f, i, k + 1);
    }
}

proof fn lemma_reach_mirror(p: Position, r: int, f: int, t: PieceType)
    requires
        0 <= r < 8,
    ensures
        reach(mirrored(p), r, f, t) == reach(p, 7 - r, f, t),
{
    reveal_with_fuel(knight_reach, 9);
    reveal_with_fuel(lines_reach, 9);
    lemma_ray_reach_mirror(p, r, f, 0, 1);
    lemma_ray_reach_mirror(p, r, f, 1, 1);
    lemma_ray_reach_mirror(p, r, f, 2, 1);
    lemma_ray_reach_mirror(p, r, f, 3, 1);
    lemma_ray_reach_mirror(p, r, f, 4, 1);
    lemma_ray_reach_mirror(p, r, f, 5, 1);
    lemma_ray_reach_mirror(p, r, f, 6, 1);
    lemma_ray_reach_mirror(p, r, f, 7, 1);
}

proof fn lemma_mobility_rank_mirror(p: Position, c: Color, r: int, n: int)
    requires
        0 <= r < 8,
        n <= 8,
    ensures
        mobility_in_rank(mirrored(p), c.opposite(), r, n) == mobility_in_rank(p, c, 7 - r, n),
    decreases n,
{
    if n > 0 {
        lemma_mobility_rank_mirror(p, c, r, n - 1);
        lemma_mirrored_at(p, r, n - 1);
        match p.at(7 - r, n - 1) {
            Some(pc) => lemma_reach_mirror(p, r, n - 1, pc.piece_type),
            None => {},
        }
    }
}

proof fn lemma_mobility_mirror(p: Position, c: Color)
    ensures
        mobility_in_ranks(mirrored(p), c.opposite(), 8) == mobility_in_ranks(p, c, 8),
{
    reveal_with_fuel(mobility_in_ranks, 9);
    lemma_mobility_rank_mirror(p, c, 0, 8);
    lemma_mobility_rank_mirror(p, c, 1, 8);
    lemma_mobility_rank_mirror(p, c, 2, 8);
    lemma_mobility_rank_mirror(p, c, 3, 8);
    lemma_mobility_rank_mirror(p, c, 4, 8);
    lemma_mobility_rank_mirror(p, c, 5, 8);
    lemma_mobility_rank_mirror(p, c, 6, 8);
    lemma_mobility_rank_mirror(p, c, 7, 8);
}

/// The evaluation favours no color: mirroring the pieces top to bottom and
/// swapping their colors negates the score, so each side's piece-square
/// bonus is the other's seen from the far end of the board.
pub proof fn lemma_evaluation_mirror(p: Position)
    ensures
        evaluation(mirrored(p)) == -evaluation(p),
        evaluation_for(mirrored(p), Color::Black) == evaluation_for(p, Color::White),
{
    lemma_material_mirror(p, Color::White);
    lemma_material_mirror(p, Color::Black);
    assert(endgame(mirrored(p)) == endgame(p));
    lemma_placement_mirror(p, endgame(p));
    lemma_mobility_mirror(p, Color::White);
    lemma_mobility_mirror(p, Color::Black);
}

proof fn lemma_lines_split(p: Position, r: int, f: int, n: int)
    requires
        4 <= n <= 8,
    ensures
        lines_reach(p, r, f, 0, n) == lines_reach(p, r, f, 0, 4) + lines_reach(p, r, f, 4, n),
    decreases n,
{
    if n > 4 {
        lemma_lines_split(p, r, f, n - 1);
    }
}

/// A queen sees exactly what a rook and a bishop on its square see together.
pub proof fn lemma_queen_reach(p: Position, r: int, f: int)
    ensures
        reach(p, r, f, PieceType::Queen) == reach(p, r, f, PieceType::Rook) + reach(p, r, f, PieceType::Bishop),
{
    lemma_lines_split(p, r, f, 8);
}

proof fn lemma_ray_reach_grid(p: Position, q: Position, r: int, f: int, i: int, k: int)
    requires
        p.grid == q.grid,
    ensures
        ray_reach(p, r, f, i, k) == ray_reach(q, r, f, i, k),
    decreases 8 - k,
{
    if 1 <= k < 8 {
        lemma_ray_reach_grid(p, q, r, f, i, k + 1);
    }
}

proof fn lemma_lines_reach_grid(p: Position, q: Position, r: int, f: int, lo: int, n: int)
    requires
        p.grid == q.grid,
    ensures
        lines_reach(p, r, f, lo, n) == lines_reach(q, r, f, lo, n),
    decreases n - lo,
{
    if n > lo {
        lemma_lines_reach_grid(p, q, r, f, lo, n - 1);
        lemma_ray_reach_grid(p, q, r, f, n - 1, 1);
    }
}

proof fn lemma_rank_sums_grid(p: Position, q: Position, r: int, n: int, eg: bool)
    requires
        p.grid == q.grid,
    ensures
        material_in_rank(p, Color::White, r, n) == material_in_rank(q, Color::White, r, n),
        material_in_rank(p, Color::Black, r, n) == material_in_rank(q, Color::Black, r, n),
        placement_in_rank(p, r, n, eg) == placement_in_rank(q, r, n, eg),
        mobility_in_rank(p, Color::White, r, n) == mobility_in_rank(q, Color::White, r, n),
        mobility_in_rank(p, Color::Black, r, n) == mobility_in_rank(q, Color::Black, r, n),
    decreases n,
{
    if n > 0 {
        lemma_rank_sums_grid(p, q, r, n - 1, eg);
        lemma_lines_reach_grid(p, q, r, n - 1, 0, 4);
        lemma_lines_reach_grid(p, q, r, n - 1, 4, 8);
        lemma_lines_reach_grid(p, q, r, n - 1, 0, 8);
    }
}

proof fn lemma_board_sums_grid(p: Position, q: Position, n: int, eg: bool)
    requires
        p.grid == q.grid,
    ensures
        material_in_ranks(p, Color::White, n) == material_in_ranks(q, Color::White, n),
        material_in_ranks(p, Color::Black, n) == material_in_ranks(q, Color::Black, n),
        placement_in_ranks(p, n, eg) == placement_in_ranks(q, n, eg),
        mobility_in_ranks(p, Color::White, n) == mobility_in_ranks(q, Color::White, n),
        mobility_in_ranks(p, Color::Black, n) == mobility_in_ranks(q, Color::Black, n),
    decreases n,
{
    if n > 0 {
        lemma_board_sums_grid(p, q, n - 1, eg);
        lemma_rank_sums_grid(p, q, n - 1, 8, eg);
    }
}

/// The evaluation depends on the placement of the pieces alone: not on whose
/// turn it is, the castling rights, the en passant square or the clocks.
pub proof fn lemma_evaluation_placement_only(p: Position, q: Position)
    requires
        p.grid == q.grid,
    ensures
        evaluation(p) == evaluation(q),
{
    lemma_board_sums_grid(p, q, 8, true);
    lemma_board_sums_grid(p, q, 8, false);
}

/// Every king on the board stands on the cached square of its color (so
/// each side has at most one king), and the cached squares are on the board.
pub open spec fn kings_unique(p: Position) -> bool {
    &&& kings_on_board(p.kings)
    &&& forall|r: int, f: int|
        #![trigger p.at(r, f)]
        in_bounds(r, f) && (p.at(r, f) matches Some(pc) && pc.piece_type == PieceType::King)
            ==> p.kings[color_slot(p.at(r, f).unwrap().color)] == Some((r as usize, f as usize))
}

/// The rank and file of the cached king of `c`, if on rank `r` before file `m`.
pub open spec fn king_before(p: Position, c: Color, r: int, m: int) -> bool {
    p.kings[color_slot(c)] matches Some(sq) && sq.0 == r && sq.1 < m
}

proof fn lemma_square_extremes(p: Position, r: int, f: int, eg: bool)
    requires
        kings_unique(p),
        in_bounds(r, f),
    ensures
        square_score(p, r, f, eg) <= if p.kings[0] == Some((r as usize, f as usize)) {
            20050int
        } else {
            950int
        },
        square_score(p, r, f, eg) >= if p.kings[1] == Some((r as usize, f as usize)) {
            -20050int
        } else {
            -950int
        },
{
    match p.at(r, f) {
        Some(pc) => {
            let tr = match pc.color {
                Color::White => 7 - r,
                Color::Black => r,
            };
            lemma_table_bounds(pc.piece_type, eg, tr, f);
        },
        None => {},
    }
}

proof fn lemma_rank_extremes(p: Position, r: int, m: int, eg: bool)
    requires
        kings_unique(p),
        0 <= r < 8,
        0 <= m <= 8,
    ensures
        placement_in_rank(p, r, m, eg) <= 950 * m + if king_before(p, Color::White, r, m) {
            19100int
        } else {
            0
        },
        placement_in_rank(p, r, m, eg) >= -950 * m - if king_before(p, Color::Black, r, m) {
            19100int
        } else {
            0
        },
    decreases m,
{
    if m > 0 {
        lemma_rank_extremes(p, r, m - 1, eg);
        lemma_square_extremes(p, r, m - 1, eg);
    }
}

proof fn lemma_board_extremes(p: Position, n: int, eg: bool)
    requires
        kings_unique(p),
        0 <= n <= 8,
    ensures
        placement_in_ranks(p, n, eg) <= 7600 * n + if p.kings[0] matches Some(sq) && sq.0 < n {
            19100int
        } else {
            0
        },
        placement_in_ranks(p, n, eg) >= -7600 * n - if p.kings[1] matches Some(sq) && sq.0 < n {
            19100int
        } else {
            0
        },
    decreases n,
{
    if n > 0 {
        lemma_board_extremes(p, n - 1, eg);
        lemma_rank_extremes(p, n - 1, 8, eg);
        assert(p.kings[0] matches Some(sq) ==> sq.1 < 8);
        assert(p.kings[1] matches Some(sq) ==> sq.1 < 8);
    }
}

/// A mate outranks every evaluation: with at most one king per side (each
/// on its cached square), the evaluation stays strictly between minus and
/// plus the checkmate score of 100000.
pub proof fn lemma_mate_outranks_evaluation(p: Position, c: Color)
    requires
        kings_unique(p),
    ensures
        -100000 < evaluation_for(p, c) < 100000,
{
    lemma_board_extremes(p, 8, endgame(p));
    lemma_mobility_bounds(p, Color::White, 8);
    lemma_mobility_bounds(p, Color::Black, 8);
}

pub struct Evaluator;


impl Evaluator {
    /// Get a large value representing checkmate
    pub const CHECKMATE_SCORE: i32 = 100000;

    /// Evaluate the board position from the perspective of the given color
    /// Returns score in centipawns (positive = good for the color)
    pub fn evaluate(board: &Board, perspective: Color) -> (v: i32)
        ensures
            v == evaluation_for(board@, perspective),
            -1400000 <= v <= 1400000,
    {
        let score = Self::evaluate_absolute(board);
        match perspective {
            Color::White => score,
            Color::Black => -score,
        }
    }

    /// Evaluate from absolute perspective, then flip for the given color
    /// More efficient than evaluate() when you already know whose turn it is
    pub fn evaluate_absolute_for(board: &Board, perspective: Color) -> (v: i32)
        ensures
            v == evaluation_for(board@, perspective),
            -1400000 <= v <= 1400000,
    {
        let score = Self::evaluate_absolute(board);
        match perspective {
            Color::White => score,
            Color::Black => -score,
        }
    }

    /// Evaluate the board position (positive = good for white)
    pub fn evaluate_absolute(board: &Board) -> (v: i32)
        ensures
            v == evaluation(board@),
            -1400000 <= v <= 1400000,
    {
        let ghost p = board@;
        let mut score: i32 = 0;
        // Check for endgame
        let is_endgame = Self::is_endgame(board);
        let mut rank: usize = 0;
        while rank < 8
            invariant
                rank <= 8,
                p == board@,
                is_endgame == endgame(p),
                score == placement_in_ranks(p, rank as int, is_endgame),
                -20050 * (8 * rank) <= score <= 20050 * (8 * rank),
            decreases 8 - rank,
        {
            let mut file: usize = 0;
            while file < 8
                invariant
                    rank < 8,
                    file <= 8,
                    p == board@,
                    is_endgame == endgame(p),
                    score == placement_in_ranks(p, rank as int, is_endgame) + placement_in_rank(p, rank as int, file as int, is_endgame),
                    -20050 * (8 * rank + file) <= score <= 20050 * (8 * rank + file),
                decreases 8 - file,
            {
                if let Some(piece) = board.get(rank, file) {
                    let piece_value = Self::piece_value(piece.piece_type);
                    let positional_value = Self::positional_value(
                        piece.piece_type,
                        piece.color,
                        rank,
                        file,
                        is_endgame,
                    );
                    let total = piece_value + positional_value;
                    match piece.color {
                        Color::White => score += total,
                        Color::Black => score -= total,
                    }
                }
                file += 1;
            }
            rank += 1;
        }
        // Mobility bonus
        let bonus = Self::mobility_bonus(board);
        score += bonus;
        score
    }

    fn piece_value(piece_type: PieceType) -> (v: i32)
        ensures
            v == piece_type.value(),
            100 <= v <= 20000,
    {
        piece_type.value()
    }

    fn positional_value(
        piece_type: PieceType,
        color: Color,
        rank: usize,
        file: usize,
        is_endgame: bool,
    ) -> (v: i32)
        requires
            rank < 8,
            file < 8,
        ensures
            v == positional(piece_type, color, rank as int, file as int, is_endgame),
            -50 <= v <= 50,
    {
        // For black, we need to flip the rank
        let table_rank = match color {
            Color::White => 7 - rank,
            Color::Black => rank,
        };
        proof {
            lemma_table_bounds(piece_type, is_endgame, table_rank as int, file as int);
        }
        let table = match piece_type {
            PieceType::Pawn => &PAWN_TABLE,
            PieceType::Knight => &KNIGHT_TABLE,
            PieceType::Bishop => &BISHOP_TABLE,
            PieceType::Rook => &ROOK_TABLE,
            PieceType::Queen => &QUEEN_TABLE,
            PieceType::King => {
                if is_endgame {
                    &KING_END_TABLE
                } else {
                    &KING_MIDDLE_TABLE
                }
            },
        };
        table[table_rank][file]
    }

    fn is_endgame(board: &Board) -> (b: bool)
        ensures
            b == endgame(board@),
    {
        let ghost p = board@;
        let mut white_material: i32 = 0;
        let mut black_material: i32 = 0;
        let mut rank: usize = 0;
        while rank < 8
            invariant
                rank <= 8,
                p == board@,
                white_material == material_in_ranks(p, Color::White, rank as int),
                black_material == material_in_ranks(p, Color::Black, rank as int),
                0 <= white_material <= 900 * (8 * rank),
                0 <= black_material <= 900 * (8 * rank),
            decreases 8 - rank,
        {
            let mut file: usize = 0;
            while file < 8
                invariant
                    rank < 8,
                    file <= 8,
                    p == board@,
                    white_material == material_in_ranks(p, Color::White, rank as int) + material_in_rank(p, Color::White, rank as int, file as int),
                    black_material == material_in_ranks(p, Color::Black, rank as int) + material_in_rank(p, Color::Black, rank as int, file as int),
                    0 <= white_material <= 900 * (8 * rank + file),
                    0 <= black_material <= 900 * (8 * rank + file),
                decreases 8 - file,
            {
                if let Some(piece) = board.get(rank, file) {
                    if piece.piece_type != PieceType::King && piece.piece_type != PieceType::Pawn {
                        match piece.color {
                            Color::White => white_material += piece.piece_type.value(),
                            Color::Black => black_material += piece.piece_type.value(),
                        }
                    }
                }
                file += 1;
            }
            rank += 1;
        }
        // Endgame if both sides have less than 1300 of material besides king and pawns
        white_material < 1300 && black_material < 1300
    }

    fn mobility_bonus(board: &Board) -> (v: i32)
        ensures
            v == 2 * (mobility_in_ranks(board@, Color::White, 8) - mobility_in_ranks(board@, Color::Black, 8)),
            -8000 <= v <= 8000,
    {
        let ghost p = board@;
        let mut white_mobility: i32 = 0;
        let mut black_mobility: i32 = 0;
        let mut rank: usize = 0;
        while rank < 8
            invariant
                rank <= 8,
                p == board@,
                white_mobility == mobility_in_ranks(p, Color::White, rank as int),
                black_mobility == mobility_in_ranks(p, Color::Black, rank as int),
                0 <= white_mobility <= 56 * (8 * rank),
                0 <= black_mobility <= 56 * (8 * rank),
            decreases 8 - rank,
        {
            let mut file: usize = 0;
            while file < 8
                invariant
                    rank < 8,
                    file <= 8,
                    p == board@,
                    white_mobility == mobility_in_ranks(p, Color::White, rank as int) + mobility_in_rank(p, Color::White, rank as int, file as int),
                    black_mobility == mobility_in_ranks(p, Color::Black, rank as int) + mobility_in_rank(p, Color::Black, rank as int, file as int),
                    0 <= white_mobility <= 56 * (8 * rank + file),
                    0 <= black_mobility <= 56 * (8 * rank + file),
                decreases 8 - file,
            {
                if let Some(piece) = board.get(rank, file) {
                    let mobility = Self::count_attacks(board, rank, file, piece.piece_type);
                    match piece.color {
                        Color::White => white_mobility += mobility,
                        Color::Black => black_mobility += mobility,
                    }
                }
                file += 1;
            }
            rank += 1;
        }
        // 2 centipawns per square of mobility difference
        2 * (white_mobility - black_mobility)
    }

    /// Squares seen from `(rank, file)` along direction `i`.
    fn count_ray(board: &Board, rank: usize, file: usize, i: usize) -> (n: i32)
        requires
            rank < 8,
            file < 8,
            i < 8,
        ensures
            n == ray_reach(board@, rank as int, file as int, i as int, 1),
            0 <= n <= 7,
    {
        let ghost p = board@;
        let (dr, df) = line_direction(i);
        let mut count: i32 = 0;
        let mut nr: i32 = rank as i32 + dr;
        let mut nf: i32 = file as i32 + df;
        let ghost mut k: int = 1;
        let mut done = false;
        while !done && 0 <= nr && nr < 8 && 0 <= nf && nf < 8
            invariant
                rank < 8,
                file < 8,
                i < 8,
                p == board@,
                dr == dir_dr(i as int),
                df == dir_df(i as int),
                dr != 0 || df != 0,
                1 <= k <= 8,
                nr == along(rank as int, dr as int, k),
                nf == along(file as int, df as int, k),
                done ==> count == ray_reach(p, rank as int, file as int, i as int, 1),
                !done ==> count + ray_reach(p, rank as int, file as int, i as int, k) == ray_reach(
                    p,
                    rank as int,
                    file as int,
                    i as int,
                    1,
                ),
                done ==> count == k && k <= 7,
                !done ==> count == k - 1,
            decreases (if done {
                0
            } else {
                9 - k
            }),
        {
            count += 1;
            if board.get(nr as usize, nf as usize).is_some() {
                done = true;
            } else {
                nr += dr;
                nf += df;
                proof {
                    k = k + 1;
                }
            }
        }
        proof {
            if !done {
                assert(ray_reach(p, rank as int, file as int, i as int, k) == 0);
            }
        }
        count
    }

    fn count_lines(board: &Board, rank: usize, file: usize, lo: usize, hi: usize) -> (n: i32)
        requires
            rank < 8,
            file < 8,
            lo <= hi <= 8,
        ensures
            n == lines_reach(board@, rank as int, file as int, lo as int, hi as int),
            0 <= n <= 7 * (hi - lo),
    {
        let mut count: i32 = 0;
        let mut i: usize = lo;
        while i < hi
            invariant
                lo <= i <= hi <= 8,
                rank < 8,
                file < 8,
                count == lines_reach(board@, rank as int, file as int, lo as int, i as int),
                0 <= count <= 7 * (i - lo),
            decreases hi - i,
        {
            count += Self::count_ray(board, rank, file, i);
            i += 1;
        }
        count
    }

    fn count_attacks(board: &Board, rank: usize, file: usize, piece_type: PieceType) -> (n: i32)
        requires
            rank < 8,
            file < 8,
        ensures
            n == reach(board@, rank as int, file as int, piece_type),
            0 <= n <= 56,
    {
        let mut count: i32 = 0;
        match piece_type {
            PieceType::Knight => {
                let mut i: usize = 0;
                while i < 8
                    invariant
                        i <= 8,
                        rank < 8,
                        file < 8,
                        count == knight_reach(rank as int, file as int, i as int),
                        0 <= count <= i,
                    decreases 8 - i,
                {
                    let (dr, df) = knight_offset(i);
                    let nr = rank as i32 + dr;
                    let nf = file as i32 + df;
                    if 0 <= nr && nr < 8 && 0 <= nf && nf < 8 {
                        count += 1;
                    }
                    i += 1;
                }
            },
            PieceType::Bishop => {
                count = Self::count_lines(board, rank, file, 4, 8);
            },
            PieceType::Rook => {
                count = Self::count_lines(board, rank, file, 0, 4);
            },
            PieceType::Queen => {
                count = Self::count_lines(board, rank, file, 0, 8);
            },
            _ => {},
        }
        count
    }
}

} // verus!
