//! The board: piece placement, side to move, castling rights, en passant
//! square, clocks, cached king squares and the history that undoes moves.

use vstd::prelude::*;
use crate::geometry::{
    Grid, in_bounds, along, cell, set_cell, grid_shaped, knight_dr, knight_df, king_dr, king_df,
    dir_dr, dir_df, knight_offset, king_offset, line_direction,
};
use crate::moves::Move;
use crate::pieces::{Color, Piece, PieceType};

verus! {

/// Castling rights for both sides
#[derive(Debug, Clone, Copy, PartialEq, Eq, Structural)]
pub struct CastlingRights {
    pub white_kingside: bool,
    pub white_queenside: bool,
    pub black_kingside: bool,
    pub black_queenside: bool,
}

impl CastlingRights {
    /// All four rights.
    pub open spec fn all() -> CastlingRights {
        CastlingRights {
            white_kingside: true,
            white_queenside: true,
            black_kingside: true,
            black_queenside: true,
        }
    }

    /// Whether `color` keeps a right to castle on either side.
    pub open spec fn any_for(self, color: Color) -> bool {
        match color {
            Color::White => self.white_kingside || self.white_queenside,
            Color::Black => self.black_kingside || self.black_queenside,
        }
    }

    /// The rights with both rights of `color` given up.
    pub open spec fn without_color(self, color: Color) -> CastlingRights {
        match color {
            Color::White => CastlingRights { white_kingside: false, white_queenside: false, ..self },
            Color::Black => CastlingRights { black_kingside: false, black_queenside: false, ..self },
        }
    }

    /// The rights after a move touches square `(r, f)`: touching a corner
    /// gives up the right that uses the rook of that corner.
    pub open spec fn without_corner(self, r: int, f: int) -> CastlingRights {
        if r == 0 && f == 0 {
            CastlingRights { white_queenside: false, ..self }
        } else if r == 0 && f == 7 {
            CastlingRights { white_kingside: false, ..self }
        } else if r == 7 && f == 0 {
            CastlingRights { black_queenside: false, ..self }
        } else if r == 7 && f == 7 {
            CastlingRights { black_kingside: false, ..self }
        } else {
            self
        }
    }
}

impl Default for CastlingRights {
    fn default() -> (r: Self)
        ensures
            r == CastlingRights::all(),
    {
        CastlingRights {
            white_kingside: true,
            white_queenside: true,
            black_kingside: true,
            black_queenside: true,
        }
    }
}

/// State saved before a move for undoing
#[derive(Debug, Clone)]
pub struct UndoInfo {
    pub captured_piece: Option<Piece>,
    pub castling_rights: CastlingRights,
    pub en_passant: Option<(usize, usize)>,
    pub halfmove_clock: u32,
    pub king_positions: [Option<(usize, usize)>; 2],
}

/// Index of a color in the king cache (0 = White, 1 = Black).
pub open spec fn color_slot(color: Color) -> int {
    match color {
        Color::White => 0,
        Color::Black => 1,
    }
}

/// `g` holds a piece of `color` and kind `t` at `(r, f)`, on the board.
pub open spec fn holds(g: Grid, r: int, f: int, color: Color, t: PieceType) -> bool {
    in_bounds(r, f) && g[r][f] == Some(Piece { color: color, piece_type: t })
}

/// The square `j` steps from `(r, f)` along line direction `i`.
pub open spec fn ray_cell(g: Grid, r: int, f: int, i: int, j: int) -> Option<Piece> {
    cell(g, along(r, dir_dr(i), j), along(f, dir_df(i), j))
}

/// The squares strictly between `(r, f)` and `k` steps along direction `i` are empty.
pub open spec fn path_clear(g: Grid, r: int, f: int, i: int, k: int) -> bool {
    forall|j: int| 1 <= j < k ==> (#[trigger] ray_cell(g, r, f, i, j)) is None
}

/// A piece of `color` that is of kind `t` or a queen stands `k` steps from
/// `(r, f)` along direction `i` with nothing in between.
pub open spec fn slider_at(g: Grid, r: int, f: int, i: int, k: int, color: Color, t: PieceType) -> bool {
    &&& k >= 1
    &&& in_bounds(along(r, dir_dr(i), k), along(f, dir_df(i), k))
    &&& path_clear(g, r, f, i, k)
    &&& (ray_cell(g, r, f, i, k) == Some(Piece { color: color, piece_type: t })
        || ray_cell(g, r, f, i, k) == Some(Piece { color: color, piece_type: PieceType::Queen }))
}

/// Direction `i` from `(r, f)` is covered by a slider of `color` of kind `t`
/// (or a queen).
pub open spec fn attacked_along(g: Grid, r: int, f: int, i: int, color: Color, t: PieceType) -> bool {
    exists|k: int| #[trigger] slider_at(g, r, f, i, k, color, t)
}

/// A knight of `color` stands a knight's jump away from `(r, f)`.
pub open spec fn knight_attacks(g: Grid, r: int, f: int, color: Color) -> bool {
    exists|i: int| 0 <= i < 8 && #[trigger] holds(g, r + knight_dr(i), f + knight_df(i), color, PieceType::Knight)
}

/// A king of `color` stands next to `(r, f)`.
pub open spec fn king_attacks(g: Grid, r: int, f: int, color: Color) -> bool {
    exists|i: int| 0 <= i < 8 && #[trigger] holds(g, r + king_dr(i), f + king_df(i), color, PieceType::King)
}

/// A pawn of `color` stands diagonally behind `(r, f)` (as seen from its side).
pub open spec fn pawn_attacks(g: Grid, r: int, f: int, color: Color) -> bool {
    let pr = r - color.pawn_direction();
    holds(g, pr, f - 1, color, PieceType::Pawn) || holds(g, pr, f + 1, color, PieceType::Pawn)
}

/// Square `(r, f)` is attacked by some piece of `color`: a knight jump, a king
/// step, a pawn capture, or a rook, bishop or queen along an open line.
pub open spec fn attacked(g: Grid, r: int, f: int, color: Color) -> bool {
    ||| knight_attacks(g, r, f, color)
    ||| king_attacks(g, r, f, color)
    ||| pawn_attacks(g, r, f, color)
    ||| exists|i: int| 0 <= i < 4 && #[trigger] attacked_along(g, r, f, i, color, PieceType::Rook)
    ||| exists|i: int| 4 <= i < 8 && #[trigger] attacked_along(g, r, f, i, color, PieceType::Bishop)
}

/// The mathematical state of a board (everything but its history).
#[verifier::ext_equal]
pub struct Position {
    pub grid: Grid,
    pub turn: Color,
    pub castling: CastlingRights,
    pub en_passant: Option<(usize, usize)>,
    pub halfmove: nat,
    pub fullmove: nat,
    pub kings: Seq<Option<(usize, usize)>>,
}

/// Rank of the pawn taken en passant by a pawn of `color` landing on `to_rank`.
pub open spec fn victim_rank(color: Color, to_rank: int) -> int {
    if color == Color::White {
        to_rank - 1
    } else {
        to_rank + 1
    }
}

/// Files (from, to) of the rook that moves with a castling king.
pub open spec fn rook_from_file(mv: Move) -> int {
    if mv.to_file > mv.from_file {
        7
    } else {
        0
    }
}

pub open spec fn rook_to_file(mv: Move) -> int {
    if mv.to_file > mv.from_file {
        5
    } else {
        3
    }
}

/// What stands on the target square after `piece` makes `mv`.
pub open spec fn landed(piece: Piece, mv: Move) -> Option<Piece> {
    match mv.promotion {
        Some(t) => Some(Piece { color: piece.color, piece_type: t }),
        None => Some(piece),
    }
}

/// Castling rights `c` after `piece` makes `mv`: a king move gives up both
/// rights of its side; a rook leaving a corner, or any move landing on a
/// corner, gives up the right of that corner.
pub open spec fn rights_after(c: CastlingRights, piece: Piece, mv: Move) -> CastlingRights {
    let c1 = if piece.piece_type == PieceType::King {
        c.without_color(piece.color)
    } else {
        c
    };
    let c2 = if piece.piece_type == PieceType::Rook {
        c1.without_corner(mv.from_rank as int, mv.from_file as int)
    } else {
        c1
    };
    c2.without_corner(mv.to_rank as int, mv.to_file as int)
}

/// The rank a color's king starts on.
pub open spec fn home_rank(c: Color) -> int {
    match c {
        Color::White => 0,
        Color::Black => 7,
    }
}

/// The two kings' cached squares are on the board.
pub open spec fn kings_on_board(kings: Seq<Option<(usize, usize)>>) -> bool {
    &&& kings.len() == 2
    &&& forall|i: int|
        0 <= i < 2 ==> (#[trigger] kings[i] matches Some(sq) ==> sq.0 < 8 && sq.1 < 8)
}

impl Position {
    pub open spec fn at(self, r: int, f: int) -> Option<Piece> {
        self.grid[r][f]
    }

    /// The piece that `mv` moves.
    pub open spec fn mover(self, mv: Move) -> Piece {
        self.at(mv.from_rank as int, mv.from_file as int).unwrap()
    }

    /// The piece placement after `mv`.
    pub open spec fn grid_after(self, mv: Move) -> Grid {
        let piece = self.mover(mv);
        let r0 = mv.from_rank as int;
        let g1 = if mv.is_en_passant {
            set_cell(self.grid, victim_rank(piece.color, mv.to_rank as int), mv.to_file as int, None)
        } else {
            self.grid
        };
        let g2 = if mv.is_castling {
            let rook = g1[r0][rook_from_file(mv)];
            set_cell(set_cell(g1, r0, rook_from_file(mv), None), r0, rook_to_file(mv), rook)
        } else {
            g1
        };
        let g3 = set_cell(g2, r0, mv.from_file as int, None);
        set_cell(g3, mv.to_rank as int, mv.to_file as int, landed(piece, mv))
    }

    /// Castling rights after `mv`: a king move gives up both rights of its
    /// side; a rook leaving a corner, or any move landing on a corner, gives
    /// up the right of that corner.
    pub open spec fn castling_after(self, mv: Move) -> CastlingRights {
        rights_after(self.castling, self.mover(mv), mv)
    }

    /// En passant square after `mv`: the square a pawn skipped in a two-rank advance.
    pub open spec fn en_passant_after(self, mv: Move) -> Option<(usize, usize)> {
        let piece = self.mover(mv);
        if piece.piece_type == PieceType::Pawn && (mv.to_rank - mv.from_rank == 2
            || mv.from_rank - mv.to_rank == 2) {
            Some((((mv.from_rank + mv.to_rank) / 2) as usize, mv.to_file))
        } else {
            None
        }
    }

    /// `mv` resets the fifty-move counter: a pawn move or a capture.
    pub open spec fn resets_clock(self, mv: Move) -> bool {
        self.mover(mv).piece_type == PieceType::Pawn || self.at(
            mv.to_rank as int,
            mv.to_file as int,
        ) is Some
    }

    pub open spec fn kings_after(self, mv: Move) -> Seq<Option<(usize, usize)>> {
        let piece = self.mover(mv);
        if piece.piece_type == PieceType::King {
            self.kings.update(color_slot(piece.color), Some((mv.to_rank, mv.to_file)))
        } else {
            self.kings
        }
    }

    /// The position after making `mv`.
    pub open spec fn play(self, mv: Move) -> Position {
        Position {
            grid: self.grid_after(mv),
            turn: self.turn.opposite(),
            castling: self.castling_after(mv),
            en_passant: self.en_passant_after(mv),
            halfmove: if self.resets_clock(mv) {
                0
            } else {
                self.halfmove + 1
            },
            fullmove: if self.turn == Color::Black {
                self.fullmove + 1
            } else {
                self.fullmove
            },
            kings: self.kings_after(mv),
        }
    }

    /// `mv` can be made without leaving the board or overflowing a counter.
    pub open spec fn can_play(self, mv: Move) -> bool {
        &&& mv.from_rank < 8 && mv.from_file < 8 && mv.to_rank < 8 && mv.to_file < 8
        &&& self.at(mv.from_rank as int, mv.from_file as int) is Some
        &&& mv.is_en_passant ==> 0 <= victim_rank(self.mover(mv).color, mv.to_rank as int) < 8
        &&& self.resets_clock(mv) || self.halfmove < u32::MAX
        &&& self.turn == Color::Black ==> self.fullmove < u32::MAX
    }

    /// The piece that went back to the origin square when undoing `mv`.
    pub open spec fn returner(self, mv: Move) -> Piece {
        let moved = self.at(mv.to_rank as int, mv.to_file as int).unwrap();
        if mv.promotion is Some {
            Piece { color: moved.color, piece_type: PieceType::Pawn }
        } else {
            moved
        }
    }

    /// The position after undoing `mv`, with the state saved before it in `info`.
    pub open spec fn unplay(self, mv: Move, info: UndoInfo) -> Position {
        let turn = self.turn.opposite();
        let piece = self.returner(mv);
        let r0 = mv.from_rank as int;
        let g1 = set_cell(self.grid, r0, mv.from_file as int, Some(piece));
        let g2 = set_cell(g1, mv.to_rank as int, mv.to_file as int, info.captured_piece);
        let g3 = if mv.is_en_passant {
            set_cell(
                g2,
                victim_rank(piece.color, mv.to_rank as int),
                mv.to_file as int,
                Some(Piece { color: piece.color.opposite(), piece_type: PieceType::Pawn }),
            )
        } else {
            g2
        };
        let g4 = if mv.is_castling {
            let rook = g3[r0][rook_to_file(mv)];
            set_cell(set_cell(g3, r0, rook_to_file(mv), None), r0, rook_from_file(mv), rook)
        } else {
            g3
        };
        Position {
            grid: g4,
            turn: turn,
            castling: info.castling_rights,
            en_passant: info.en_passant,
            halfmove: info.halfmove_clock as nat,
            fullmove: if turn == Color::Black {
                (self.fullmove - 1) as nat
            } else {
                self.fullmove
            },
            kings: info.king_positions@,
        }
    }

    /// `mv` (saved with `info`) can be undone without leaving the board or
    /// underflowing the move number.
    pub open spec fn can_unplay(self, mv: Move, info: UndoInfo) -> bool {
        &&& mv.from_rank < 8 && mv.from_file < 8 && mv.to_rank < 8 && mv.to_file < 8
        &&& self.at(mv.to_rank as int, mv.to_file as int) is Some
        &&& mv.is_en_passant ==> 0 <= victim_rank(self.returner(mv).color, mv.to_rank as int) < 8
        &&& self.turn == Color::White ==> self.fullmove >= 1
    }

    /// Square `(r, f)` is attacked by `color` in this position.
    pub open spec fn attacked_by(self, r: int, f: int, color: Color) -> bool {
        attacked(self.grid, r, f, color)
    }

    /// The cached king of `color` is attacked by the other side.
    pub open spec fn in_check(self, color: Color) -> bool {
        match self.kings[color_slot(color)] {
            Some(sq) => self.attacked_by(sq.0 as int, sq.1 as int, color.opposite()),
            None => false,
        }
    }

    /// The board is consistent: an 8x8 grid, cached king squares on the board,
    /// an en passant square only right behind a pawn of the side that just
    /// moved, no pawn on its promotion rank, and a side that may still castle
    /// has its king (every king of its color) on its home square.
    pub open spec fn wf(self) -> bool {
        &&& grid_shaped(self.grid)
        &&& kings_on_board(self.kings)
        &&& match self.en_passant {
            Some(sq) => {
                &&& sq.1 < 8
                &&& self.turn == Color::White ==> sq.0 == 5 && self.at(4, sq.1 as int) == Some(
                    Piece { color: Color::Black, piece_type: PieceType::Pawn },
                )
                &&& self.turn == Color::Black ==> sq.0 == 2 && self.at(3, sq.1 as int) == Some(
                    Piece { color: Color::White, piece_type: PieceType::Pawn },
                )
            },
            None => true,
        }
        &&& forall|f: int|
            0 <= f < 8 ==> #[trigger] self.at(7, f) != Some(
                Piece { color: Color::White, piece_type: PieceType::Pawn },
            ) && self.at(0, f) != Some(Piece { color: Color::Black, piece_type: PieceType::Pawn })
        &&& forall|r: int, f: int| in_bounds(r, f) ==> #[trigger] self.castler_home(r, f)
    }

    /// If `(r, f)` holds a king whose side may still castle, it is that side's
    /// home square.
    pub open spec fn castler_home(self, r: int, f: int) -> bool {
        match self.at(r, f) {
            Some(pc) => pc.piece_type == PieceType::King && self.castling.any_for(pc.color) ==> r
                == home_rank(pc.color) && f == 4,
            None => true,
        }
    }

    /// `mv` is made and undone without loss: the conditions under which
    /// undoing gives back the position exactly.
    pub open spec fn reversible(self, mv: Move) -> bool {
        let piece = self.mover(mv);
        let r0 = mv.from_rank as int;
        &&& grid_shaped(self.grid)
        &&& self.kings.len() == 2
        &&& self.can_play(mv)
        &&& !(mv.from_rank == mv.to_rank && mv.from_file == mv.to_file)
        &&& mv.promotion is Some ==> piece.piece_type == PieceType::Pawn
        &&& !(mv.is_en_passant && mv.is_castling)
        &&& mv.is_en_passant ==> {
            let vr = victim_rank(piece.color, mv.to_rank as int);
            &&& self.at(vr, mv.to_file as int) == Some(
                Piece { color: piece.color.opposite(), piece_type: PieceType::Pawn },
            )
            &&& !(vr == r0 && mv.to_file == mv.from_file)
            &&& mv.promotion is None
        }
        &&& mv.is_castling ==> {
            &&& mv.from_rank == mv.to_rank
            &&& self.at(r0, rook_to_file(mv)) is None
            &&& mv.to_file != rook_from_file(mv)
            &&& mv.to_file != rook_to_file(mv)
            &&& mv.promotion is None
        }
    }
}

/// The chess board state
#[derive(Debug, Clone)]
pub struct Board {
    /// 8x8 board: board[rank][file], rank 0 = row 1, file 0 = column a
    pub squares: [[Option<Piece>; 8]; 8],
    pub current_turn: Color,
    pub castling_rights: CastlingRights,
    pub en_passant: Option<(usize, usize)>,
    pub halfmove_clock: u32,
    pub fullmove_number: u32,
    pub undo_stack: Vec<(Move, UndoInfo)>,
    /// Cached king positions: [White index, Black index]
    pub king_positions: [Option<(usize, usize)>; 2],
}

impl View for Board {
    type V = Position;

    open spec fn view(&self) -> Position {
        Position {
            grid: self.grid(),
            turn: self.current_turn,
            castling: self.castling_rights,
            en_passant: self.en_passant,
            halfmove: self.halfmove_clock as nat,
            fullmove: self.fullmove_number as nat,
            kings: self.king_positions@,
        }
    }
}

impl Board {
    /// The squares as a grid of ranks.
    pub open spec fn grid(&self) -> Grid {
        Seq::new(8, |r: int| self.squares@[r]@)
    }

    /// The state that `make_move(mv)` saves.
    pub open spec fn saved_for(&self, mv: Move) -> UndoInfo {
        UndoInfo {
            captured_piece: self@.at(mv.to_rank as int, mv.to_file as int),
            castling_rights: self.castling_rights,
            en_passant: self.en_passant,
            halfmove_clock: self.halfmove_clock,
            king_positions: self.king_positions,
        }
    }

    /// Get the piece at a given square
    pub fn get(&self, rank: usize, file: usize) -> (p: Option<Piece>)
        requires
            rank < 8,
            file < 8,
        ensures
            p == self@.at(rank as int, file as int),
    {
        self.squares[rank][file]
    }

    /// Set a piece at a given square
    pub fn set(&mut self, rank: usize, file: usize, piece: Option<Piece>)
        requires
            rank < 8,
            file < 8,
        ensures
            final(self)@ == (Position { grid: set_cell(old(self)@.grid, rank as int, file as int, piece), ..old(self)@ }),
            final(self).undo_stack == old(self).undo_stack,
    {
        self.squares[rank][file] = piece;
        assert(self.grid() =~~= set_cell(old(self).grid(), rank as int, file as int, piece));
    }
}


/// What stands on square `(r, f)` at the start of a game.
pub open spec fn start_piece(r: int, f: int) -> Option<Piece> {
    if r == 1 {
        Some(Piece { color: Color::White, piece_type: PieceType::Pawn })
    } else if r == 6 {
        Some(Piece { color: Color::Black, piece_type: PieceType::Pawn })
    } else if r == 0 {
        Some(Piece { color: Color::White, piece_type: back_rank_kind(f) })
    } else if r == 7 {
        Some(Piece { color: Color::Black, piece_type: back_rank_kind(f) })
    } else {
        None
    }
}

/// The kind of piece that starts on file `f` of a back rank.
pub open spec fn back_rank_kind(f: int) -> PieceType {
    if f == 0 || f == 7 {
        PieceType::Rook
    } else if f == 1 || f == 6 {
        PieceType::Knight
    } else if f == 2 || f == 5 {
        PieceType::Bishop
    } else if f == 3 {
        PieceType::Queen
    } else {
        PieceType::King
    }
}

impl Position {
    /// The starting position of a game.
    pub open spec fn initial() -> Position {
        Position {
            grid: Seq::new(8, |r: int| Seq::new(8, |f: int| start_piece(r, f))),
            turn: Color::White,
            castling: CastlingRights::all(),
            en_passant: None,
            halfmove: 0,
            fullmove: 1,
            kings: seq![Some((0usize, 4usize)), Some((7usize, 4usize))],
        }
    }
}

impl Default for Board {
    fn default() -> (b: Self)
        ensures
            b@ == Position::initial(),
            b.undo_stack@.len() == 0,
    {
        Self::new()
    }
}

impl Board {
    /// Creates a new board with the starting position
    pub fn new() -> (b: Self)
        ensures
            b@ == Position::initial(),
            b.undo_stack@.len() == 0,
    {
        let empty_rank: [Option<Piece>; 8] = [None, None, None, None, None, None, None, None];
        let mut board = Board {
            squares: [
                empty_rank,
                empty_rank,
                empty_rank,
                empty_rank,
                empty_rank,
                empty_rank,
                empty_rank,
                empty_rank,
            ],
            current_turn: Color::White,
            castling_rights: CastlingRights::default(),
            en_passant: None,
            halfmove_clock: 0,
            fullmove_number: 1,
            undo_stack: Vec::new(),
            king_positions: [Some((0, 4)), Some((7, 4))],
        };
        // Place white pieces
        board.squares[0][0] = Some(Piece::new(Color::White, PieceType::Rook));
        board.squares[0][1] = Some(Piece::new(Color::White, PieceType::Knight));
        board.squares[0][2] = Some(Piece::new(Color::White, PieceType::Bishop));
        board.squares[0][3] = Some(Piece::new(Color::White, PieceType::Queen));
        board.squares[0][4] = Some(Piece::new(Color::White, PieceType::King));
        board.squares[0][5] = Some(Piece::new(Color::White, PieceType::Bishop));
        board.squares[0][6] = Some(Piece::new(Color::White, PieceType::Knight));
        board.squares[0][7] = Some(Piece::new(Color::White, PieceType::Rook));
        let mut file: usize = 0;
        while file < 8
            invariant
                file <= 8,
                forall|f: int| 0 <= f < file ==> board.squares@[1]@[f] == start_piece(1, f),
                forall|f: int| 0 <= f < 8 ==> board.squares@[0]@[f] == start_piece(0, f),
                forall|r: int, f: int| 2 <= r < 8 && 0 <= f < 8 ==> board.squares@[r]@[f] is None,
                board.undo_stack@.len() == 0,
                board.current_turn == Color::White,
                board.castling_rights == CastlingRights::all(),
                board.en_passant is None,
                board.halfmove_clock == 0,
                board.fullmove_number == 1,
                board.king_positions@ == seq![Some((0usize, 4usize)), Some((7usize, 4usize))],
            decreases 8 - file,
        {
            board.squares[1][file] = Some(Piece::new(Color::White, PieceType::Pawn));
            file += 1;
        }
        // Place black pieces
        board.squares[7][0] = Some(Piece::new(Color::Black, PieceType::Rook));
        board.squares[7][1] = Some(Piece::new(Color::Black, PieceType::Knight));
        board.squares[7][2] = Some(Piece::new(Color::Black, PieceType::Bishop));
        board.squares[7][3] = Some(Piece::new(Color::Black, PieceType::Queen));
        board.squares[7][4] = Some(Piece::new(Color::Black, PieceType::King));
        board.squares[7][5] = Some(Piece::new(Color::Black, PieceType::Bishop));
        board.squares[7][6] = Some(Piece::new(Color::Black, PieceType::Knight));
        board.squares[7][7] = Some(Piece::new(Color::Black, PieceType::Rook));
        let mut file: usize = 0;
        while file < 8
            invariant
                file <= 8,
                forall|f: int| 0 <= f < file ==> board.squares@[6]@[f] == start_piece(6, f),
                forall|r: int, f: int|
                    (0 <= r < 2 || r == 7) && 0 <= f < 8 ==> board.squares@[r]@[f] == start_piece(r, f),
                forall|r: int, f: int| 2 <= r < 6 && 0 <= f < 8 ==> board.squares@[r]@[f] is None,
                board.undo_stack@.len() == 0,
                board.current_turn == Color::White,
                board.castling_rights == CastlingRights::all(),
                board.en_passant is None,
                board.halfmove_clock == 0,
                board.fullmove_number == 1,
                board.king_positions@ == seq![Some((0usize, 4usize)), Some((7usize, 4usize))],
            decreases 8 - file,
        {
            board.squares[6][file] = Some(Piece::new(Color::Black, PieceType::Pawn));
            file += 1;
        }
        assert(board.grid() =~~= Position::initial().grid);
        board
    }

    /// Get the color index for king_positions array (0=White, 1=Black)
    fn color_index(color: Color) -> (i: usize)
        ensures
            i == color_slot(color),
    {
        match color {
            Color::White => 0,
            Color::Black => 1,
        }
    }

    /// Find the king's position for a given color (O(1) with cache)
    pub fn find_king(&self, color: Color) -> (k: Option<(usize, usize)>)
        ensures
            k == self@.kings[color_slot(color)],
    {
        self.king_positions[Self::color_index(color)]
    }

    /// Update the cached king position
    fn update_king_position(&mut self, color: Color, rank: usize, file: usize)
        ensures
            final(self).king_positions@ == old(self).king_positions@.update(
                color_slot(color),
                Some((rank, file)),
            ),
            final(self).squares == old(self).squares,
            final(self).current_turn == old(self).current_turn,
            final(self).castling_rights == old(self).castling_rights,
            final(self).en_passant == old(self).en_passant,
            final(self).halfmove_clock == old(self).halfmove_clock,
            final(self).fullmove_number == old(self).fullmove_number,
            final(self).undo_stack == old(self).undo_stack,
    {
        self.king_positions[Self::color_index(color)] = Some((rank, file));
    }

    /// A knight of `by_color` attacks `(rank, file)`.
    fn knight_attack_on(&self, rank: usize, file: usize, by_color: Color) -> (b: bool)
        requires
            rank < 8,
            file < 8,
        ensures
            b == knight_attacks(self@.grid, rank as int, file as int, by_color),
    {
        let mut i: usize = 0;
        while i < 8
            invariant
                i <= 8,
                rank < 8,
                file < 8,
                forall|j: int|
                    0 <= j < i ==> !holds(
                        self@.grid,
                        rank + knight_dr(j),
                        file + knight_df(j),
                        by_color,
                        PieceType::Knight,
                    ),
            decreases 8 - i,
        {
            let (dr, df) = knight_offset(i);
            let nr = rank as i32 + dr;
            let nf = file as i32 + df;
            if 0 <= nr && nr < 8 && 0 <= nf && nf < 8 {
                if let Some(piece) = self.squares[nr as usize][nf as usize] {
                    if piece.color == by_color && piece.piece_type == PieceType::Knight {
                        assert(holds(self@.grid, rank + knight_dr(i as int), file + knight_df(i as int), by_color, PieceType::Knight));
                        return true;
                    }
                }
            }
            i += 1;
        }
        false
    }

    /// A king of `by_color` attacks `(rank, file)`.
    fn king_attack_on(&self, rank: usize, file: usize, by_color: Color) -> (b: bool)
        requires
            rank < 8,
            file < 8,
        ensures
            b == king_attacks(self@.grid, rank as int, file as int, by_color),
    {
        let mut i: usize = 0;
        while i < 8
            invariant
                i <= 8,
                rank < 8,
                file < 8,
                forall|j: int|
                    0 <= j < i ==> !holds(
                        self@.grid,
                        rank + king_dr(j),
                        file + king_df(j),
                        by_color,
                        PieceType::King,
                    ),
            decreases 8 - i,
        {
            let (dr, df) = king_offset(i);
            let nr = rank as i32 + dr;
            let nf = file as i32 + df;
            if 0 <= nr && nr < 8 && 0 <= nf && nf < 8 {
                if let Some(piece) = self.squares[nr as usize][nf as usize] {
                    if piece.color == by_color && piece.piece_type == PieceType::King {
                        assert(holds(self@.grid, rank + king_dr(i as int), file + king_df(i as int), by_color, PieceType::King));
                        return true;
                    }
                }
            }
            i += 1;
        }
        false
    }

    /// A pawn of `by_color` attacks `(rank, file)`.
    fn pawn_attack_on(&self, rank: usize, file: usize, by_color: Color) -> (b: bool)
        requires
            rank < 8,
            file < 8,
        ensures
            b == pawn_attacks(self@.grid, rank as int, file as int, by_color),
    {
        let pawn_dir: i32 = if by_color == Color::White {
            -1
        } else {
            1
        };
        let nr = rank as i32 + pawn_dir;
        let mut found = false;
        if 0 <= nr && nr < 8 && file >= 1 {
            if let Some(piece) = self.squares[nr as usize][file - 1] {
                if piece.color == by_color && piece.piece_type == PieceType::Pawn {
                    found = true;
                }
            }
        }
        if !found && 0 <= nr && nr < 8 && file + 1 < 8 {
            if let Some(piece) = self.squares[nr as usize][file + 1] {
                if piece.color == by_color && piece.piece_type == PieceType::Pawn {
                    found = true;
                }
            }
        }
        found
    }

    /// A slider of `by_color` of kind `t` (or a queen) attacks `(rank, file)`
    /// along line direction `i`.
    fn line_attack_on(&self, rank: usize, file: usize, i: usize, by_color: Color, t: PieceType) -> (b: bool)
        requires
            rank < 8,
            file < 8,
            i < 8,
        ensures
            b == attacked_along(self@.grid, rank as int, file as int, i as int, by_color, t),
    {
        let ghost g = self@.grid;
        let (dr, df) = line_direction(i);
        let mut nr: i32 = rank as i32 + dr;
        let mut nf: i32 = file as i32 + df;
        let ghost mut k: int = 1;
        loop
            invariant
                rank < 8,
                file < 8,
                i < 8,
                g == self@.grid,
                dr == dir_dr(i as int),
                df == dir_df(i as int),
                dr != 0 || df != 0,
                1 <= k <= 8,
                nr == along(rank as int, dr as int, k),
                nf == along(file as int, df as int, k),
                path_clear(g, rank as int, file as int, i as int, k),
            decreases 8 - k,
        {
            if !(0 <= nr && nr < 8 && 0 <= nf && nf < 8) {
                assert forall|k2: int| !slider_at(g, rank as int, file as int, i as int, k2, by_color, t) by {
                    if 1 <= k2 < k {
                        assert(ray_cell(g, rank as int, file as int, i as int, k2) is None);
                    }
                }
                return false;
            }
            let sq = self.squares[nr as usize][nf as usize];
            assert(sq == ray_cell(g, rank as int, file as int, i as int, k));
            if let Some(piece) = sq {
                if piece.color == by_color && (piece.piece_type == t || piece.piece_type
                    == PieceType::Queen) {
                    assert(slider_at(g, rank as int, file as int, i as int, k, by_color, t));
                    return true;
                }
                assert forall|k2: int| !slider_at(g, rank as int, file as int, i as int, k2, by_color, t) by {
                    if 1 <= k2 < k {
                        assert(ray_cell(g, rank as int, file as int, i as int, k2) is None);
                    } else if k2 > k {
                        if path_clear(g, rank as int, file as int, i as int, k2) {
                            assert(ray_cell(g, rank as int, file as int, i as int, k) is None);
                        }
                    }
                }
                return false;
            }
            assert(path_clear(g, rank as int, file as int, i as int, k + 1)) by {
                assert forall|j: int| 1 <= j < k + 1 implies (#[trigger] ray_cell(g, rank as int, file as int, i as int, j)) is None by {
                    if j < k {
                    }
                }
            }
            nr += dr;
            nf += df;
            proof {
                k = k + 1;
            }
        }
    }

    /// Check if a square is attacked by a given color
    pub fn is_square_attacked(&self, rank: usize, file: usize, by_color: Color) -> (b: bool)
        requires
            rank < 8,
            file < 8,
        ensures
            b == self@.attacked_by(rank as int, file as int, by_color),
    {
        if self.knight_attack_on(rank, file, by_color) {
            return true;
        }
        if self.king_attack_on(rank, file, by_color) {
            return true;
        }
        if self.pawn_attack_on(rank, file, by_color) {
            return true;
        }
        let mut i: usize = 0;
        while i < 4
            invariant
                i <= 4,
                rank < 8,
                file < 8,
                forall|j: int| 0 <= j < i ==> !attacked_along(self@.grid, rank as int, file as int, j, by_color, PieceType::Rook),
            decreases 4 - i,
        {
            if self.line_attack_on(rank, file, i, by_color, PieceType::Rook) {
                return true;
            }
            i += 1;
        }
        let mut i: usize = 4;
        while i < 8
            invariant
                4 <= i <= 8,
                rank < 8,
                file < 8,
                forall|j: int| 4 <= j < i ==> !attacked_along(self@.grid, rank as int, file as int, j, by_color, PieceType::Bishop),
            decreases 8 - i,
        {
            if self.line_attack_on(rank, file, i, by_color, PieceType::Bishop) {
                return true;
            }
            i += 1;
        }
        false
    }

    /// Check if the given color's king is in check (uses cached king position)
    pub fn is_in_check(&self, color: Color) -> (b: bool)
        requires
            kings_on_board(self@.kings),
        ensures
            b == self@.in_check(color),
    {
        if let Some((rank, file)) = self.find_king(color) {
            self.is_square_attacked(rank, file, color.opposite())
        } else {
            false
        }
    }
}


impl Board {
    /// Move the pieces for `mv` (the capture, the rook of a castling, the
    /// promotion), leaving every other field alone.
    fn move_pieces(&mut self, mv: Move, piece: Piece)
        requires
            old(self)@.can_play(mv),
            piece == old(self)@.mover(mv),
        ensures
            final(self)@ == (Position { grid: old(self)@.grid_after(mv), ..old(self)@ }),
            final(self).undo_stack == old(self).undo_stack,
    {
        let ghost p = self@;
        // Handle en passant capture
        if mv.is_en_passant {
            let captured_rank = if piece.color == Color::White {
                mv.to_rank - 1
            } else {
                mv.to_rank + 1
            };
            self.squares[captured_rank][mv.to_file] = None;
        }
        let ghost g1 = if mv.is_en_passant {
            set_cell(p.grid, victim_rank(piece.color, mv.to_rank as int), mv.to_file as int, None)
        } else {
            p.grid
        };
        assert(self.grid() =~~= g1);
        // Handle castling
        if mv.is_castling {
            let rook_from_file;
            let rook_to_file;
            if mv.to_file > mv.from_file {
                // Kingside
                rook_from_file = 7;
                rook_to_file = 5;
            } else {
                // Queenside
                rook_from_file = 0;
                rook_to_file = 3;
            }
            let rook = self.squares[mv.from_rank][rook_from_file];
            self.squares[mv.from_rank][rook_from_file] = None;
            self.squares[mv.from_rank][rook_to_file] = rook;
        }
        let ghost r0 = mv.from_rank as int;
        let ghost g2 = if mv.is_castling {
            let rook = g1[r0][rook_from_file(mv)];
            set_cell(set_cell(g1, r0, rook_from_file(mv), None), r0, rook_to_file(mv), rook)
        } else {
            g1
        };
        assert(self.grid() =~~= g2);
        // Move the piece
        self.squares[mv.from_rank][mv.from_file] = None;
        if let Some(promo) = mv.promotion {
            self.squares[mv.to_rank][mv.to_file] = Some(Piece::new(piece.color, promo));
        } else {
            self.squares[mv.to_rank][mv.to_file] = Some(piece);
        }
        assert(self.grid() =~~= p.grid_after(mv));
        assert(self@ =~~= Position { grid: p.grid_after(mv), ..p });
    }

    /// Give up the castling rights that `mv` (made by `piece`) loses.
    fn update_castling_rights(&mut self, mv: Move, piece: Piece)
        ensures
            final(self)@ == (Position { castling: rights_after(old(self).castling_rights, piece, mv), ..old(self)@ }),
            final(self).undo_stack == old(self).undo_stack,
    {
        if piece.piece_type == PieceType::King {
            if piece.color == Color::White {
                self.castling_rights.white_kingside = false;
                self.castling_rights.white_queenside = false;
            } else {
                self.castling_rights.black_kingside = false;
                self.castling_rights.black_queenside = false;
            }
        }
        if piece.piece_type == PieceType::Rook {
            if mv.from_rank == 0 && mv.from_file == 0 {
                self.castling_rights.white_queenside = false;
            } else if mv.from_rank == 0 && mv.from_file == 7 {
                self.castling_rights.white_kingside = false;
            } else if mv.from_rank == 7 && mv.from_file == 0 {
                self.castling_rights.black_queenside = false;
            } else if mv.from_rank == 7 && mv.from_file == 7 {
                self.castling_rights.black_kingside = false;
            }
        }
        // Also update if a rook is captured
        if mv.to_rank == 0 && mv.to_file == 0 {
            self.castling_rights.white_queenside = false;
        } else if mv.to_rank == 0 && mv.to_file == 7 {
            self.castling_rights.white_kingside = false;
        } else if mv.to_rank == 7 && mv.to_file == 0 {
            self.castling_rights.black_queenside = false;
        } else if mv.to_rank == 7 && mv.to_file == 7 {
            self.castling_rights.black_kingside = false;
        }
        assert(self.grid() =~~= old(self).grid());
    }

    /// Make a move on the board
    pub fn make_move(&mut self, mv: Move)
        requires
            old(self)@.can_play(mv),
        ensures
            final(self)@ == old(self)@.play(mv),
            final(self).undo_stack@ == old(self).undo_stack@.push((mv, old(self).saved_for(mv))),
    {
        let ghost p = self@;
        let undo_info = UndoInfo {
            captured_piece: self.squares[mv.to_rank][mv.to_file],
            castling_rights: self.castling_rights,
            en_passant: self.en_passant,
            halfmove_clock: self.halfmove_clock,
            king_positions: self.king_positions,
        };
        let piece = self.squares[mv.from_rank][mv.from_file].unwrap();
        self.move_pieces(mv, piece);
        // Update cached king position
        if piece.piece_type == PieceType::King {
            self.update_king_position(piece.color, mv.to_rank, mv.to_file);
        }
        // Update en passant square
        self.en_passant = None;
        if piece.piece_type == PieceType::Pawn {
            let rank_diff = if mv.to_rank > mv.from_rank {
                mv.to_rank - mv.from_rank
            } else {
                mv.from_rank - mv.to_rank
            };
            if rank_diff == 2 {
                let ep_rank = (mv.from_rank + mv.to_rank) / 2;
                self.en_passant = Some((ep_rank, mv.to_file));
            }
        }
        self.update_castling_rights(mv, piece);
        // Update halfmove clock
        if piece.piece_type == PieceType::Pawn || undo_info.captured_piece.is_some() {
            self.halfmove_clock = 0;
        } else {
            self.halfmove_clock += 1;
        }
        // Update fullmove number
        if self.current_turn == Color::Black {
            self.fullmove_number += 1;
        }
        // Switch turn
        self.current_turn = self.current_turn.opposite();
        assert(self.king_positions@ =~= p.kings_after(mv));
        assert(self@ =~~= p.play(mv));
        // Save undo info
        self.undo_stack.push((mv, undo_info));
    }

    /// Undo the last move
    pub fn undo_move(&mut self)
        requires
            old(self).undo_stack@.len() > 0 ==> old(self)@.can_unplay(
                old(self).undo_stack@.last().0,
                old(self).undo_stack@.last().1,
            ),
        ensures
            old(self).undo_stack@.len() == 0 ==> final(self)@ == old(self)@
                && final(self).undo_stack@ == old(self).undo_stack@,
            old(self).undo_stack@.len() > 0 ==> final(self)@ == old(self)@.unplay(
                old(self).undo_stack@.last().0,
                old(self).undo_stack@.last().1,
            ) && final(self).undo_stack@ == old(self).undo_stack@.drop_last(),
    {
        let ghost p = self@;
        if let Some((mv, undo_info)) = self.undo_stack.pop() {
            // Switch turn back
            self.current_turn = self.current_turn.opposite();
            // Get the piece that was moved
            let mut piece = self.squares[mv.to_rank][mv.to_file].unwrap();
            // Handle promotion - restore to pawn
            if mv.promotion.is_some() {
                piece = Piece::new(piece.color, PieceType::Pawn);
            }
            assert(piece == p.returner(mv));
            // Move piece back
            self.squares[mv.from_rank][mv.from_file] = Some(piece);
            self.squares[mv.to_rank][mv.to_file] = undo_info.captured_piece;
            let ghost g2 = set_cell(
                set_cell(p.grid, mv.from_rank as int, mv.from_file as int, Some(piece)),
                mv.to_rank as int,
                mv.to_file as int,
                undo_info.captured_piece,
            );
            assert(self.grid() =~~= g2);
            // Handle en passant
            if mv.is_en_passant {
                let captured_rank = if piece.color == Color::White {
                    mv.to_rank - 1
                } else {
                    mv.to_rank + 1
                };
                self.squares[captured_rank][mv.to_file] = Some(
                    Piece::new(piece.color.opposite(), PieceType::Pawn),
                );
            }
            let ghost g3 = if mv.is_en_passant {
                set_cell(
                    g2,
                    victim_rank(piece.color, mv.to_rank as int),
                    mv.to_file as int,
                    Some(Piece { color: piece.color.opposite(), piece_type: PieceType::Pawn }),
                )
            } else {
                g2
            };
            assert(self.grid() =~~= g3);
            // Handle castling
            if mv.is_castling {
                let rook_from_file;
                let rook_to_file;
                if mv.to_file > mv.from_file {
                    rook_from_file = 7;
                    rook_to_file = 5;
                } else {
                    rook_from_file = 0;
                    rook_to_file = 3;
                }
                let rook = self.squares[mv.from_rank][rook_to_file];
                self.squares[mv.from_rank][rook_to_file] = None;
                self.squares[mv.from_rank][rook_from_file] = rook;
            }
            assert(self.grid() =~~= p.unplay(mv, undo_info).grid);
            // Restore state (including cached king positions)
            self.castling_rights = undo_info.castling_rights;
            self.en_passant = undo_info.en_passant;
            self.halfmove_clock = undo_info.halfmove_clock;
            self.king_positions = undo_info.king_positions;
            if self.current_turn == Color::Black {
                self.fullmove_number -= 1;
            }
            assert(self@ =~~= p.unplay(mv, undo_info));
        }
    }
}

/// Grids `g` and `h` agree on every square of the board but `(r, f)`.
pub open spec fn same_but(g: Grid, h: Grid, r: int, f: int) -> bool {
    forall|x: int, y: int| #![trigger g[x][y], h[x][y]] in_bounds(x, y) && !(x == r && y == f) ==> g[x][y] == h[x][y]
}

proof fn lemma_slider_same_but(g: Grid, h: Grid, r: int, f: int, i: int, k: int, color: Color, t: PieceType)
    requires
        in_bounds(r, f),
        0 <= i < 8,
        same_but(g, h, r, f),
    ensures
        slider_at(g, r, f, i, k, color, t) == slider_at(h, r, f, i, k, color, t),
{
    if k >= 1 && in_bounds(along(r, dir_dr(i), k), along(f, dir_df(i), k)) {
        assert forall|j: int| 1 <= j <= k implies #[trigger] ray_cell(g, r, f, i, j) == ray_cell(h, r, f, i, j) by {
            let x = along(r, dir_dr(i), j);
            let y = along(f, dir_df(i), j);
            assert(in_bounds(x, y));
            assert(!(x == r && y == f));
            assert(g[x][y] == h[x][y]);
        }
        if path_clear(g, r, f, i, k) {
            assert forall|j: int| 1 <= j < k implies (#[trigger] ray_cell(h, r, f, i, j)) is None by {
                assert(ray_cell(g, r, f, i, j) == ray_cell(h, r, f, i, j));
            }
        }
        if path_clear(h, r, f, i, k) {
            assert forall|j: int| 1 <= j < k implies (#[trigger] ray_cell(g, r, f, i, j)) is None by {
                assert(ray_cell(g, r, f, i, j) == ray_cell(h, r, f, i, j));
            }
        }
        assert(ray_cell(g, r, f, i, k) == ray_cell(h, r, f, i, k));
    }
}

proof fn lemma_along_same_but(g: Grid, h: Grid, r: int, f: int, i: int, color: Color, t: PieceType)
    requires
        in_bounds(r, f),
        0 <= i < 8,
        same_but(g, h, r, f),
    ensures
        attacked_along(g, r, f, i, color, t) == attacked_along(h, r, f, i, color, t),
{
    if attacked_along(g, r, f, i, color, t) {
        let k = choose|k: int| #[trigger] slider_at(g, r, f, i, k, color, t);
        lemma_slider_same_but(g, h, r, f, i, k, color, t);
    }
    if attacked_along(h, r, f, i, color, t) {
        let k = choose|k: int| #[trigger] slider_at(h, r, f, i, k, color, t);
        lemma_slider_same_but(g, h, r, f, i, k, color, t);
    }
}

/// Whether a square is attacked depends only on the other squares: what
/// stands on the square itself never matters.
pub proof fn lemma_attack_ignores_own_square(p: Position, q: Position, r: int, f: int, color: Color)
    requires
        in_bounds(r, f),
        same_but(p.grid, q.grid, r, f),
    ensures
        p.attacked_by(r, f, color) == q.attacked_by(r, f, color),
{
    let g = p.grid;
    let h = q.grid;
    assert forall|i: int| 0 <= i < 8 implies #[trigger] holds(g, r + knight_dr(i), f + knight_df(i), color, PieceType::Knight)
        == holds(h, r + knight_dr(i), f + knight_df(i), color, PieceType::Knight) by {
        let x = r + knight_dr(i);
        let y = f + knight_df(i);
        if in_bounds(x, y) {
            assert(g[x][y] == h[x][y]);
        }
    }
    assert forall|i: int| 0 <= i < 8 implies #[trigger] holds(g, r + king_dr(i), f + king_df(i), color, PieceType::King)
        == holds(h, r + king_dr(i), f + king_df(i), color, PieceType::King) by {
        let x = r + king_dr(i);
        let y = f + king_df(i);
        if in_bounds(x, y) {
            assert(g[x][y] == h[x][y]);
        }
    }
    let pr = r - color.pawn_direction();
    if in_bounds(pr, f - 1) {
        assert(g[pr][f - 1] == h[pr][f - 1]);
    }
    if in_bounds(pr, f + 1) {
        assert(g[pr][f + 1] == h[pr][f + 1]);
    }
    if knight_attacks(g, r, f, color) {
        let i = choose|i: int| 0 <= i < 8 && #[trigger] holds(g, r + knight_dr(i), f + knight_df(i), color, PieceType::Knight);
        assert(holds(h, r + knight_dr(i), f + knight_df(i), color, PieceType::Knight));
    }
    if knight_attacks(h, r, f, color) {
        let i = choose|i: int| 0 <= i < 8 && #[trigger] holds(h, r + knight_dr(i), f + knight_df(i), color, PieceType::Knight);
        assert(holds(g, r + knight_dr(i), f + knight_df(i), color, PieceType::Knight));
    }
    if king_attacks(g, r, f, color) {
        let i = choose|i: int| 0 <= i < 8 && #[trigger] holds(g, r + king_dr(i), f + king_df(i), color, PieceType::King);
        assert(holds(h, r + king_dr(i), f + king_df(i), color, PieceType::King));
    }
    if king_attacks(h, r, f, color) {
        let i = choose|i: int| 0 <= i < 8 && #[trigger] holds(h, r + king_dr(i), f + king_df(i), color, PieceType::King);
        assert(holds(g, r + king_dr(i), f + king_df(i), color, PieceType::King));
    }
    assert forall|i: int| 0 <= i < 8 implies #[trigger] attacked_along(g, r, f, i, color, PieceType::Rook)
        == attacked_along(h, r, f, i, color, PieceType::Rook) by {
        lemma_along_same_but(g, h, r, f, i, color, PieceType::Rook);
    }
    assert forall|i: int| 0 <= i < 8 implies #[trigger] attacked_along(g, r, f, i, color, PieceType::Bishop)
        == attacked_along(h, r, f, i, color, PieceType::Bishop) by {
        lemma_along_same_but(g, h, r, f, i, color, PieceType::Bishop);
    }
    assert(pawn_attacks(g, r, f, color) == pawn_attacks(h, r, f, color));
    if exists|i: int| 0 <= i < 4 && #[trigger] attacked_along(g, r, f, i, color, PieceType::Rook) {
        let i = choose|i: int| 0 <= i < 4 && #[trigger] attacked_along(g, r, f, i, color, PieceType::Rook);
        assert(attacked_along(h, r, f, i, color, PieceType::Rook));
    }
    if exists|i: int| 0 <= i < 4 && #[trigger] attacked_along(h, r, f, i, color, PieceType::Rook) {
        let i = choose|i: int| 0 <= i < 4 && #[trigger] attacked_along(h, r, f, i, color, PieceType::Rook);
        assert(attacked_along(g, r, f, i, color, PieceType::Rook));
    }
    if exists|i: int| 4 <= i < 8 && #[trigger] attacked_along(g, r, f, i, color, PieceType::Bishop) {
        let i = choose|i: int| 4 <= i < 8 && #[trigger] attacked_along(g, r, f, i, color, PieceType::Bishop);
        assert(attacked_along(h, r, f, i, color, PieceType::Bishop));
    }
    if exists|i: int| 4 <= i < 8 && #[trigger] attacked_along(h, r, f, i, color, PieceType::Bishop) {
        let i = choose|i: int| 4 <= i < 8 && #[trigger] attacked_along(h, r, f, i, color, PieceType::Bishop);
        assert(attacked_along(g, r, f, i, color, PieceType::Bishop));
    }
}

/// Undoing a move right after making it gives back the position exactly,
/// for every move that is `reversible` (see `Position::reversible`).
pub proof fn lemma_undo_restores(b: Board, mv: Move)
    requires
        b@.reversible(mv),
    ensures
        b@.play(mv).can_unplay(mv, b.saved_for(mv)),
        b@.play(mv).unplay(mv, b.saved_for(mv)) == b@,
{
    let p = b@;
    let q = p.play(mv);
    assert(q.at(mv.to_rank as int, mv.to_file as int) == landed(p.mover(mv), mv));
    assert(q.returner(mv) == p.mover(mv));
    let u = q.unplay(mv, b.saved_for(mv));
    assert(u.grid =~~= p.grid);
    assert(u.kings =~= p.kings);
    assert(u =~~= p);
}

/// The starting position is consistent.
pub proof fn lemma_initial_wf()
    ensures
        Position::initial().wf(),
{
    let p = Position::initial();
    assert(grid_shaped(p.grid));
    assert forall|r: int, f: int| in_bounds(r, f) implies #[trigger] p.castler_home(r, f) by {
        assert(p.at(r, f) == start_piece(r, f));
    }
    assert forall|f: int| 0 <= f < 8 implies #[trigger] p.at(7, f) != Some(
        Piece { color: Color::White, piece_type: PieceType::Pawn },
    ) && p.at(0, f) != Some(Piece { color: Color::Black, piece_type: PieceType::Pawn }) by {
        assert(p.at(7, f) == start_piece(7, f));
        assert(p.at(0, f) == start_piece(0, f));
    }
}

} // verus!
