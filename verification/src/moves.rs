//! Moves and the move generator.

use vstd::prelude::*;
use crate::board::{
    Board, Position, CastlingRights, kings_on_board, home_rank, landed, rook_to_file, rook_from_file,
    victim_rank, color_slot,
};
use crate::geometry::{
    in_bounds, along, grid_shaped, knight_dr, knight_df, king_dr, king_df, dir_dr, dir_df, knight_offset,
    king_offset, line_direction,
};
use crate::pieces::{Color, Piece, PieceType};

verus! {

/// Represents a chess move
#[derive(Debug, Clone, Copy, PartialEq, Eq, Structural)]
pub struct Move {
    pub from_rank: usize,
    pub from_file: usize,
    pub to_rank: usize,
    pub to_file: usize,
    pub promotion: Option<PieceType>,
    pub is_castling: bool,
    pub is_en_passant: bool,
}

impl Move {
    pub open spec fn plain(from_rank: usize, from_file: usize, to_rank: usize, to_file: usize) -> Move {
        Move {
            from_rank,
            from_file,
            to_rank,
            to_file,
            promotion: None,
            is_castling: false,
            is_en_passant: false,
        }
    }

    pub fn new(from_rank: usize, from_file: usize, to_rank: usize, to_file: usize) -> (m: Self)
        ensures
            m == Move::plain(from_rank, from_file, to_rank, to_file),
    {
        Move {
            from_rank,
            from_file,
            to_rank,
            to_file,
            promotion: None,
            is_castling: false,
            is_en_passant: false,
        }
    }

    pub fn with_promotion(self, piece_type: PieceType) -> (m: Self)
        ensures
            m == (Move { promotion: Some(piece_type), ..self }),
    {
        let mut m = self;
        m.promotion = Some(piece_type);
        m
    }

    pub fn as_castling(self) -> (m: Self)
        ensures
            m == (Move { is_castling: true, ..self }),
    {
        let mut m = self;
        m.is_castling = true;
        m
    }

    pub fn as_en_passant(self) -> (m: Self)
        ensures
            m == (Move { is_en_passant: true, ..self }),
    {
        let mut m = self;
        m.is_en_passant = true;
        m
    }
}


/// The `i`-th promotion choice, in the order queen, rook, bishop, knight.
pub open spec fn promotion_choice(i: int) -> PieceType {
    if i == 0 {
        PieceType::Queen
    } else if i == 1 {
        PieceType::Rook
    } else if i == 2 {
        PieceType::Bishop
    } else {
        PieceType::Knight
    }
}

/// The four promotions of a pawn going from `(r, f)` to `(tr, tf)`.
pub open spec fn promotions(r: usize, f: usize, tr: usize, tf: usize) -> Seq<Move> {
    Seq::new(4, |i: int| Move { promotion: Some(promotion_choice(i)), ..Move::plain(r, f, tr, tf) })
}

/// The color of the piece on `(r, f)`.
pub open spec fn owner(p: Position, r: usize, f: usize) -> Color {
    p.at(r as int, f as int).unwrap().color
}

/// Forward moves of the pawn on `(r, f)`: one step onto an empty square
/// (the four promotions on the last rank), and from the starting rank a
/// second step onto an empty square.
pub open spec fn pawn_advances(p: Position, r: usize, f: usize) -> Seq<Move> {
    let c = owner(p, r, f);
    let nr = r + c.pawn_direction();
    if p.at(nr, f as int) is None {
        if nr == c.promotion_rank() {
            promotions(r, f, nr as usize, f)
        } else {
            let dr = r + 2 * c.pawn_direction();
            seq![Move::plain(r, f, nr as usize, f)] + if r == c.pawn_start_rank() && p.at(dr, f as int) is None {
                seq![Move::plain(r, f, dr as usize, f)]
            } else {
                Seq::<Move>::empty()
            }
        }
    } else {
        Seq::<Move>::empty()
    }
}

/// Captures of the pawn on `(r, f)` towards file `f + df`: an enemy piece
/// there (the four promotions on the last rank), then en passant onto the
/// en passant square.
pub open spec fn pawn_captures(p: Position, r: usize, f: usize, df: int) -> Seq<Move> {
    let c = owner(p, r, f);
    let nr = r + c.pawn_direction();
    let nf = f + df;
    if 0 <= nf < 8 {
        let take = match p.at(nr, nf) {
            Some(target) => if target.color != c {
                if nr == c.promotion_rank() {
                    promotions(r, f, nr as usize, nf as usize)
                } else {
                    seq![Move::plain(r, f, nr as usize, nf as usize)]
                }
            } else {
                Seq::<Move>::empty()
            },
            None => Seq::<Move>::empty(),
        };
        let passant = match p.en_passant {
            Some(sq) => if nr == sq.0 && nf == sq.1 {
                seq![Move { is_en_passant: true, ..Move::plain(r, f, nr as usize, nf as usize) }]
            } else {
                Seq::<Move>::empty()
            },
            None => Seq::<Move>::empty(),
        };
        take + passant
    } else {
        Seq::<Move>::empty()
    }
}

/// All moves of the pawn on `(r, f)`.
pub open spec fn pawn_moves(p: Position, r: usize, f: usize) -> Seq<Move> {
    pawn_advances(p, r, f) + pawn_captures(p, r, f, -1) + pawn_captures(p, r, f, 1)
}

/// A single step from `(r, f)` to `(tr, tf)`: allowed onto the board, onto
/// an empty square or an enemy piece.
pub open spec fn step_to(p: Position, r: usize, f: usize, tr: int, tf: int) -> Seq<Move> {
    if in_bounds(tr, tf) {
        match p.at(tr, tf) {
            Some(target) => if target.color != owner(p, r, f) {
                seq![Move::plain(r, f, tr as usize, tf as usize)]
            } else {
                Seq::<Move>::empty()
            },
            None => seq![Move::plain(r, f, tr as usize, tf as usize)],
        }
    } else {
        Seq::<Move>::empty()
    }
}

/// Moves of the knight on `(r, f)` along the first `n` jumps.
pub open spec fn knight_jumps(p: Position, r: usize, f: usize, n: int) -> Seq<Move>
    decreases n,
{
    if n <= 0 {
        Seq::<Move>::empty()
    } else {
        knight_jumps(p, r, f, n - 1) + step_to(p, r, f, r + knight_dr(n - 1), f + knight_df(n - 1))
    }
}

/// Moves of the king on `(r, f)` along the first `n` steps.
pub open spec fn king_steps(p: Position, r: usize, f: usize, n: int) -> Seq<Move>
    decreases n,
{
    if n <= 0 {
        Seq::<Move>::empty()
    } else {
        king_steps(p, r, f, n - 1) + step_to(p, r, f, r + king_dr(n - 1), f + king_df(n - 1))
    }
}

/// Moves of a slider on `(r, f)` along direction `i`, from `k` steps on:
/// every empty square, then the first occupied square if it holds an enemy.
pub open spec fn ray_moves(p: Position, r: usize, f: usize, i: int, k: int) -> Seq<Move>
    decreases 8 - k,
{
    let tr = along(r as int, dir_dr(i), k);
    let tf = along(f as int, dir_df(i), k);
    if k < 1 || k >= 8 || !in_bounds(tr, tf) {
        Seq::<Move>::empty()
    } else {
        match p.at(tr, tf) {
            None => seq![Move::plain(r, f, tr as usize, tf as usize)] + ray_moves(p, r, f, i, k + 1),
            Some(target) => if target.color != owner(p, r, f) {
                seq![Move::plain(r, f, tr as usize, tf as usize)]
            } else {
                Seq::<Move>::empty()
            },
        }
    }
}

/// Moves of a slider on `(r, f)` along directions `lo .. n`.
pub open spec fn line_moves(p: Position, r: usize, f: usize, lo: int, n: int) -> Seq<Move>
    decreases n - lo,
{
    if n <= lo {
        Seq::<Move>::empty()
    } else {
        line_moves(p, r, f, lo, n - 1) + ray_moves(p, r, f, n - 1, 1)
    }
}

/// The castling rights (kingside, queenside) of `c`.
pub open spec fn rights_of(rights: CastlingRights, c: Color) -> (bool, bool) {
    match c {
        Color::White => (rights.white_kingside, rights.white_queenside),
        Color::Black => (rights.black_kingside, rights.black_queenside),
    }
}

/// Castling moves of the king on `(r, f)`: not while in check; kingside with
/// the right, files 5 and 6 empty and not attacked; queenside with the right,
/// files 1 to 3 empty and files 2 and 3 not attacked.
pub open spec fn castling_moves(p: Position, r: usize, f: usize) -> Seq<Move> {
    let enemy = p.turn.opposite();
    let rights = rights_of(p.castling, p.turn);
    if p.attacked_by(r as int, f as int, enemy) {
        Seq::<Move>::empty()
    } else {
        let kingside = if rights.0 && p.at(r as int, 5) is None && p.at(r as int, 6) is None
            && !p.attacked_by(r as int, 5, enemy) && !p.attacked_by(r as int, 6, enemy) {
            seq![Move { is_castling: true, ..Move::plain(r, f, r, 6) }]
        } else {
            Seq::<Move>::empty()
        };
        let queenside = if rights.1 && p.at(r as int, 1) is None && p.at(r as int, 2) is None
            && p.at(r as int, 3) is None && !p.attacked_by(r as int, 2, enemy)
            && !p.attacked_by(r as int, 3, enemy) {
            seq![Move { is_castling: true, ..Move::plain(r, f, r, 2) }]
        } else {
            Seq::<Move>::empty()
        };
        kingside + queenside
    }
}

/// Pseudo-legal moves of the piece on `(r, f)`, if it belongs to the side to move.
pub open spec fn piece_moves(p: Position, r: usize, f: usize) -> Seq<Move> {
    match p.at(r as int, f as int) {
        Some(piece) => if piece.color == p.turn {
            match piece.piece_type {
                PieceType::Pawn => pawn_moves(p, r, f),
                PieceType::Knight => knight_jumps(p, r, f, 8),
                PieceType::Bishop => line_moves(p, r, f, 4, 8),
                PieceType::Rook => line_moves(p, r, f, 0, 4),
                PieceType::Queen => line_moves(p, r, f, 0, 8),
                PieceType::King => king_steps(p, r, f, 8) + castling_moves(p, r, f),
            }
        } else {
            Seq::<Move>::empty()
        },
        None => Seq::<Move>::empty(),
    }
}

/// Pseudo-legal moves of the pieces on files `0 .. n` of rank `r`.
pub open spec fn rank_moves(p: Position, r: usize, n: int) -> Seq<Move>
    decreases n,
{
    if n <= 0 {
        Seq::<Move>::empty()
    } else {
        rank_moves(p, r, n - 1) + piece_moves(p, r, (n - 1) as usize)
    }
}

/// Pseudo-legal moves of the pieces on ranks `0 .. n`, rank by rank, file by file.
pub open spec fn board_moves(p: Position, n: int) -> Seq<Move>
    decreases n,
{
    if n <= 0 {
        Seq::<Move>::empty()
    } else {
        board_moves(p, n - 1) + rank_moves(p, (n - 1) as usize, 8)
    }
}

/// All pseudo-legal moves of the side to move (own king safety not checked).
pub open spec fn pseudo_legal_moves(p: Position) -> Seq<Move> {
    board_moves(p, 8)
}

/// After `mv`, the mover's king is not in check.
pub open spec fn keeps_king_safe(p: Position, mv: Move) -> bool {
    !p.play(mv).in_check(p.turn)
}

/// The moves of `s` that keep the mover's king safe, in order.
pub open spec fn safe_moves(p: Position, s: Seq<Move>) -> Seq<Move>
    decreases s.len(),
{
    if s.len() == 0 {
        s
    } else {
        let rest = safe_moves(p, s.drop_last());
        if keeps_king_safe(p, s.last()) {
            rest.push(s.last())
        } else {
            rest
        }
    }
}

/// All legal moves of the side to move.
pub open spec fn legal_moves(p: Position) -> Seq<Move> {
    safe_moves(p, pseudo_legal_moves(p))
}

/// No pawn of the side to move stands on its promotion rank (where the
/// generator would step off the board).
pub open spec fn pawns_playable(p: Position) -> bool {
    forall|f: int|
        0 <= f < 8 ==> p.at(p.turn.promotion_rank() as int, f) != Some(
            Piece { color: p.turn, piece_type: PieceType::Pawn },
        )
}

/// The facts every generated move has on any board: on the board, moving a
/// piece of the side to move, never onto a piece of its own color (but en
/// passant, which lands on the en passant square), and an en passant capture
/// steps one rank forward.
pub open spec fn basic_move(p: Position, mv: Move) -> bool {
    let piece = p.mover(mv);
    &&& mv.from_rank < 8 && mv.from_file < 8 && mv.to_rank < 8 && mv.to_file < 8
    &&& p.at(mv.from_rank as int, mv.from_file as int) is Some
    &&& piece.color == p.turn
    &&& !mv.is_en_passant ==> !(p.at(mv.to_rank as int, mv.to_file as int) matches Some(q) && q.color
        == p.turn)
    &&& mv.is_en_passant ==> piece.piece_type == PieceType::Pawn && mv.to_rank == mv.from_rank
        + p.turn.pawn_direction()
}


/// The facts every generated move has on a consistent board (`Position::wf`),
/// beyond `basic_move`: it changes square, promotes exactly when a pawn
/// reaches its last rank, a pawn advances one rank (two from its starting
/// rank), en passant lands on the en passant square, and castling moves the
/// king two files towards an empty rook destination.
pub open spec fn well_made(p: Position, mv: Move) -> bool {
    let piece = p.mover(mv);
    let c = p.turn;
    &&& basic_move(p, mv)
    &&& !(mv.from_rank == mv.to_rank && mv.from_file == mv.to_file)
    &&& match mv.promotion {
        Some(t) => piece.piece_type == PieceType::Pawn && t != PieceType::Pawn && t
            != PieceType::King && mv.to_rank == c.promotion_rank(),
        None => !(piece.piece_type == PieceType::Pawn && mv.to_rank == c.promotion_rank()),
    }
    &&& piece.piece_type == PieceType::Pawn ==> (mv.to_rank == mv.from_rank + c.pawn_direction() || (
    mv.from_rank == c.pawn_start_rank() && mv.to_rank == mv.from_rank + 2 * c.pawn_direction()))
    &&& mv.is_en_passant ==> p.en_passant == Some((mv.to_rank, mv.to_file)) && mv.from_file
        != mv.to_file && !mv.is_castling
    &&& mv.is_castling ==> {
        &&& piece.piece_type == PieceType::King
        &&& mv.from_rank == mv.to_rank
        &&& (mv.to_file == 6 && mv.from_file < 6 && p.at(mv.from_rank as int, 5) is None) || (
        mv.to_file == 2 && mv.from_file > 2 && p.at(mv.from_rank as int, 3) is None)
    }
}

/// The counters of `p` can take one more move.
pub open spec fn clocks_room(p: Position, n: nat) -> bool {
    p.halfmove + n <= u32::MAX && p.fullmove + n <= u32::MAX
}

/// A consistent board can generate its moves.
pub proof fn lemma_wf_playable(p: Position)
    requires
        p.wf(),
    ensures
        pawns_playable(p),
        kings_on_board(p.kings),
{
    assert forall|f: int| 0 <= f < 8 implies p.at(p.turn.promotion_rank() as int, f) != Some(
        Piece { color: p.turn, piece_type: PieceType::Pawn },
    ) by {
        assert(p.at(7, f) != Some(Piece { color: Color::White, piece_type: PieceType::Pawn }));
    }
}

/// What a square holds after a generated move.
pub proof fn lemma_cell_after(p: Position, mv: Move, r: int, f: int)
    requires
        p.wf(),
        well_made(p, mv),
        in_bounds(r, f),
    ensures
        p.play(mv).at(r, f) == if r == mv.to_rank && f == mv.to_file {
            landed(p.mover(mv), mv)
        } else if r == mv.from_rank && f == mv.from_file {
            None
        } else if mv.is_castling && r == mv.from_rank && f == rook_to_file(mv) {
            p.at(r, rook_from_file(mv))
        } else if mv.is_castling && r == mv.from_rank && f == rook_from_file(mv) {
            None
        } else if mv.is_en_passant && r == victim_rank(p.mover(mv).color, mv.to_rank as int) && f
            == mv.to_file {
            None
        } else {
            p.at(r, f)
        },
{
}

/// The cached king square of `c`, if any, holds the king of `c`.
pub open spec fn king_cached(p: Position, c: Color) -> bool {
    p.kings[color_slot(c)] matches Some(sq) ==> p.at(sq.0 as int, sq.1 as int) == Some(
        Piece { color: c, piece_type: PieceType::King },
    )
}

/// Both cached king squares hold their kings.
pub open spec fn kings_cached(p: Position) -> bool {
    king_cached(p, Color::White) && king_cached(p, Color::Black)
}

/// `mv` takes no king, and a castling move finds no king on its rook's corner.
pub open spec fn spares_kings(p: Position, mv: Move) -> bool {
    &&& !(p.at(mv.to_rank as int, mv.to_file as int) matches Some(q) && q.piece_type == PieceType::King)
    &&& mv.is_castling ==> !(p.at(mv.from_rank as int, rook_from_file(mv)) matches Some(q) && q.piece_type
        == PieceType::King)
}

proof fn lemma_king_cached_after(p: Position, mv: Move, c: Color)
    requires
        p.wf(),
        well_made(p, mv),
        king_cached(p, c),
        spares_kings(p, mv),
    ensures
        king_cached(p.play(mv), c),
{
    let q = p.play(mv);
    let piece = p.mover(mv);
    let k = color_slot(c);
    assert(kings_on_board(p.kings));
    assert(p.kings[k] matches Some(sq) ==> sq.0 < 8 && sq.1 < 8);
    if piece.piece_type == PieceType::King && piece.color == c {
        lemma_cell_after(p, mv, mv.to_rank as int, mv.to_file as int);
    } else {
        assert(q.kings[k] == p.kings[k]);
        match p.kings[k] {
            Some(sq) => {
                let r = sq.0 as int;
                let f = sq.1 as int;
                lemma_cell_after(p, mv, r, f);
                if mv.is_en_passant && r == victim_rank(piece.color, mv.to_rank as int) && f == mv.to_file {
                    assert(p.at(r, f) != Some(Piece { color: c, piece_type: PieceType::King }));
                }
            },
            None => {},
        }
    }
}

/// The king cache stays right through every generated move that spares the
/// kings: a king's move moves its cached square along, and no other move
/// touches a square holding a king.
pub proof fn lemma_kings_stay_cached(p: Position, mv: Move)
    requires
        p.wf(),
        well_made(p, mv),
        kings_cached(p),
        spares_kings(p, mv),
    ensures
        kings_cached(p.play(mv)),
{
    lemma_king_cached_after(p, mv, Color::White);
    lemma_king_cached_after(p, mv, Color::Black);
}

/// The starting position caches both kings on their squares.
pub proof fn lemma_initial_kings_cached()
    ensures
        kings_cached(Position::initial()),
{
    crate::board::lemma_initial_wf();
}

/// A generated move on a consistent board can be undone exactly, and the
/// board stays consistent after it.
pub proof fn lemma_well_made_move(p: Position, mv: Move)
    requires
        p.wf(),
        well_made(p, mv),
        clocks_room(p, 1),
    ensures
        p.reversible(mv),
        p.play(mv).wf(),
{
    let q = p.play(mv);
    let piece = p.mover(mv);
    assert(p.reversible(mv));
    assert(grid_shaped(q.grid));
    assert(kings_on_board(q.kings));
    assert forall|f: int| 0 <= f < 8 implies #[trigger] q.at(7, f) != Some(
        Piece { color: Color::White, piece_type: PieceType::Pawn },
    ) && q.at(0, f) != Some(Piece { color: Color::Black, piece_type: PieceType::Pawn }) by {
        lemma_cell_after(p, mv, 7, f);
        lemma_cell_after(p, mv, 0, f);
        assert(p.at(7, f) != Some(Piece { color: Color::White, piece_type: PieceType::Pawn }));
        if mv.is_castling {
            assert(p.at(7, rook_from_file(mv)) != Some(Piece { color: Color::White, piece_type: PieceType::Pawn }));
            assert(p.at(0, rook_from_file(mv)) != Some(Piece { color: Color::Black, piece_type: PieceType::Pawn }));
        }
    }
    assert(match q.en_passant {
            Some(sq) => {
                &&& sq.1 < 8
                &&& q.turn == Color::White ==> sq.0 == 5 && q.at(4, sq.1 as int) == Some(
                    Piece { color: Color::Black, piece_type: PieceType::Pawn },
                )
                &&& q.turn == Color::Black ==> sq.0 == 2 && q.at(3, sq.1 as int) == Some(
                    Piece { color: Color::White, piece_type: PieceType::Pawn },
                )
            },
            None => true,
        });
    assert forall|r: int, f: int| in_bounds(r, f) implies #[trigger] q.castler_home(r, f) by {
        lemma_cell_after(p, mv, r, f);
        assert(p.castler_home(r, f));
        if mv.is_castling {
            assert(p.castler_home(r, rook_from_file(mv)));
        }
        assert(p.castler_home(mv.from_rank as int, mv.from_file as int));
    }
}


/// Every move of `s` from index `lo` on has the basic facts.
pub open spec fn basic_from(p: Position, s: Seq<Move>, lo: int) -> bool {
    forall|j: int| lo <= j < s.len() ==> basic_move(p, #[trigger] s[j])
}

/// On a consistent board, every move of `s` from index `lo` on is well made.
pub open spec fn made_from(p: Position, s: Seq<Move>, lo: int) -> bool {
    p.wf() ==> forall|j: int| lo <= j < s.len() ==> well_made(p, #[trigger] s[j])
}

/// `p` holds a piece of the side to move of kind `t` on `(r, f)`.
pub open spec fn own_piece_at(p: Position, r: usize, f: usize, t: PieceType) -> bool {
    &&& r < 8 && f < 8
    &&& p.at(r as int, f as int) == Some(Piece { color: p.turn, piece_type: t })
}

/// Kinds of the pieces of color `c` on files `0 .. n` of rank `r`, file by file.
pub open spec fn kinds_in_rank(p: Position, c: Color, r: int, n: int) -> Seq<PieceType>
    decreases n,
{
    if n <= 0 {
        Seq::<PieceType>::empty()
    } else {
        kinds_in_rank(p, c, r, n - 1) + match p.at(r, n - 1) {
            Some(pc) => if pc.color == c {
                seq![pc.piece_type]
            } else {
                Seq::<PieceType>::empty()
            },
            None => Seq::<PieceType>::empty(),
        }
    }
}

/// Kinds of the pieces of color `c` on ranks `0 .. n`, rank by rank.
pub open spec fn kinds_in_ranks(p: Position, c: Color, n: int) -> Seq<PieceType>
    decreases n,
{
    if n <= 0 {
        Seq::<PieceType>::empty()
    } else {
        kinds_in_ranks(p, c, n - 1) + kinds_in_rank(p, c, n - 1, 8)
    }
}

/// Kinds of all pieces of color `c`, in board order.
pub open spec fn kinds_of(p: Position, c: Color) -> Seq<PieceType> {
    kinds_in_ranks(p, c, 8)
}

/// Squares of the bishops of color `c` on files `0 .. n` of rank `r`.
pub open spec fn bishops_in_rank(p: Position, c: Color, r: int, n: int) -> Seq<(usize, usize)>
    decreases n,
{
    if n <= 0 {
        Seq::<(usize, usize)>::empty()
    } else {
        bishops_in_rank(p, c, r, n - 1) + if p.at(r, n - 1) == Some(
            Piece { color: c, piece_type: PieceType::Bishop },
        ) {
            seq![(r as usize, (n - 1) as usize)]
        } else {
            Seq::<(usize, usize)>::empty()
        }
    }
}

/// Squares of the bishops of color `c` on ranks `0 .. n`.
pub open spec fn bishops_in_ranks(p: Position, c: Color, n: int) -> Seq<(usize, usize)>
    decreases n,
{
    if n <= 0 {
        Seq::<(usize, usize)>::empty()
    } else {
        bishops_in_ranks(p, c, n - 1) + bishops_in_rank(p, c, n - 1, 8)
    }
}

/// Squares of all bishops of color `c`, in board order.
pub open spec fn bishops_of(p: Position, c: Color) -> Seq<(usize, usize)> {
    bishops_in_ranks(p, c, 8)
}

/// How many of the kinds in `s` are neither king nor pawn.
pub open spec fn minor_count(s: Seq<PieceType>) -> nat
    decreases s.len(),
{
    if s.len() == 0 {
        0
    } else {
        minor_count(s.drop_last()) + if s.last() != PieceType::King && s.last() != PieceType::Pawn {
            1nat
        } else {
            0nat
        }
    }
}

/// Square color (0 or 1) of `(r, f)`.
pub open spec fn shade(sq: (usize, usize)) -> int {
    (sq.0 + sq.1) % 2
}

/// Draw by insufficient material: no pawn on the board (a pawn can still
/// promote), and then kings alone; or a lone bishop or knight against a
/// lone king; or king and bishop against king and bishop on squares of the
/// same color.
pub open spec fn insufficient_material(p: Position) -> bool {
    let w = kinds_of(p, Color::White);
    let b = kinds_of(p, Color::Black);
    let wm = minor_count(w);
    let bm = minor_count(b);
    let wb = bishops_of(p, Color::White);
    let bb = bishops_of(p, Color::Black);
    &&& !w.contains(PieceType::Pawn) && !b.contains(PieceType::Pawn)
    &&& no_pawn_draw(w, b, wm, bm, wb, bb)
}

/// The drawn material balances once no pawn is left.
pub open spec fn no_pawn_draw(
    w: Seq<PieceType>,
    b: Seq<PieceType>,
    wm: nat,
    bm: nat,
    wb: Seq<(usize, usize)>,
    bb: Seq<(usize, usize)>,
) -> bool {
    ||| wm == 0 && bm == 0
    ||| wm == 0 && bm == 1 && (b.contains(PieceType::Bishop) || b.contains(PieceType::Knight))
    ||| bm == 0 && wm == 1 && (w.contains(PieceType::Bishop) || w.contains(PieceType::Knight))
    ||| w.len() == 2 && b.len() == 2 && w.contains(PieceType::Bishop) && b.contains(PieceType::Bishop)
        && wb.len() == 1 && bb.len() == 1 && shade(wb[0]) == shade(bb[0])
}

proof fn lemma_kinds_rank_has(p: Position, c: Color, r: int, f: int, n: int)
    requires
        0 <= f < n,
        p.at(r, f) matches Some(pc) && pc.color == c,
    ensures
        kinds_in_rank(p, c, r, n).contains(p.at(r, f).unwrap().piece_type),
    decreases n,
{
    let t = p.at(r, f).unwrap().piece_type;
    let prev = kinds_in_rank(p, c, r, n - 1);
    let cur = kinds_in_rank(p, c, r, n);
    if f < n - 1 {
        lemma_kinds_rank_has(p, c, r, f, n - 1);
        let j = choose|j: int| 0 <= j < prev.len() && prev[j] == t;
        assert(cur[j] == t);
    } else {
        assert(cur[prev.len() as int] == t);
    }
}

proof fn lemma_kinds_ranks_has(p: Position, c: Color, r: int, f: int, n: int)
    requires
        0 <= r < n,
        0 <= f < 8,
        p.at(r, f) matches Some(pc) && pc.color == c,
    ensures
        kinds_in_ranks(p, c, n).contains(p.at(r, f).unwrap().piece_type),
    decreases n,
{
    let t = p.at(r, f).unwrap().piece_type;
    let prev = kinds_in_ranks(p, c, n - 1);
    let cur = kinds_in_ranks(p, c, n);
    if r < n - 1 {
        lemma_kinds_ranks_has(p, c, r, f, n - 1);
        let j = choose|j: int| 0 <= j < prev.len() && prev[j] == t;
        assert(cur[j] == t);
    } else {
        lemma_kinds_rank_has(p, c, r, f, 8);
        let row = kinds_in_rank(p, c, r, 8);
        let j = choose|j: int| 0 <= j < row.len() && row[j] == t;
        assert(cur[prev.len() + j] == t);
    }
}

/// The kinds of a side hold the kind of every piece of that side on the board.
pub proof fn lemma_kinds_of_has(p: Position, r: int, f: int)
    requires
        in_bounds(r, f),
        p.at(r, f) is Some,
    ensures
        kinds_of(p, p.at(r, f).unwrap().color).contains(p.at(r, f).unwrap().piece_type),
{
    lemma_kinds_ranks_has(p, p.at(r, f).unwrap().color, r, f, 8);
}

/// A heavy or minor piece: neither king nor pawn.
pub open spec fn counted(t: PieceType) -> bool {
    t != PieceType::King && t != PieceType::Pawn
}

proof fn lemma_minor_count_none(s: Seq<PieceType>, t: PieceType)
    requires
        minor_count(s) == 0,
        counted(t),
    ensures
        !s.contains(t),
    decreases s.len(),
{
    if s.len() > 0 {
        lemma_minor_count_none(s.drop_last(), t);
        if s.contains(t) {
            let j = choose|j: int| 0 <= j < s.len() && s[j] == t;
            if j < s.len() - 1 {
                assert(s.drop_last()[j] == t);
            }
        }
    }
}

proof fn lemma_minor_count_one(s: Seq<PieceType>, t: PieceType)
    requires
        minor_count(s) == 1,
        s.contains(PieceType::Bishop) || s.contains(PieceType::Knight),
        t == PieceType::Queen || t == PieceType::Rook,
    ensures
        !s.contains(t),
    decreases s.len(),
{
    let rest = s.drop_last();
    let x = s.last();
    assert(s =~= rest.push(x));
    if counted(x) {
        assert(minor_count(rest) == 0);
        lemma_minor_count_none(rest, PieceType::Bishop);
        lemma_minor_count_none(rest, PieceType::Knight);
        lemma_minor_count_none(rest, t);
        if s.contains(PieceType::Bishop) && x != PieceType::Bishop {
            let j = choose|j: int| 0 <= j < s.len() && s[j] == PieceType::Bishop;
            assert(rest[j] == PieceType::Bishop);
        }
        if s.contains(PieceType::Knight) && x != PieceType::Knight {
            let j = choose|j: int| 0 <= j < s.len() && s[j] == PieceType::Knight;
            assert(rest[j] == PieceType::Knight);
        }
        if s.contains(t) {
            let j = choose|j: int| 0 <= j < s.len() && s[j] == t;
            if j < rest.len() {
                assert(rest[j] == t);
            }
        }
    } else {
        if s.contains(PieceType::Bishop) {
            let j = choose|j: int| 0 <= j < s.len() && s[j] == PieceType::Bishop;
            assert(rest[j] == PieceType::Bishop);
        }
        if s.contains(PieceType::Knight) {
            let j = choose|j: int| 0 <= j < s.len() && s[j] == PieceType::Knight;
            assert(rest[j] == PieceType::Knight);
        }
        lemma_minor_count_one(rest, t);
        if s.contains(t) {
            let j = choose|j: int| 0 <= j < s.len() && s[j] == t;
            assert(rest[j] == t);
        }
    }
}

/// A draw by insufficient material leaves no queen, rook or pawn on the
/// board (for boards where each side has its king): what remains beside the
/// kings is at most a lone bishop or knight, or a bishop on each side.
pub proof fn lemma_insufficient_material_pieces(p: Position, r: int, f: int, wk: (int, int), bk: (int, int))
    requires
        insufficient_material(p),
        in_bounds(r, f),
        p.at(r, f) is Some,
        in_bounds(wk.0, wk.1),
        p.at(wk.0, wk.1) == Some(Piece { color: Color::White, piece_type: PieceType::King }),
        in_bounds(bk.0, bk.1),
        p.at(bk.0, bk.1) == Some(Piece { color: Color::Black, piece_type: PieceType::King }),
    ensures
        p.at(r, f).unwrap().piece_type != PieceType::Queen,
        p.at(r, f).unwrap().piece_type != PieceType::Rook,
        p.at(r, f).unwrap().piece_type != PieceType::Pawn,
{
    let pc = p.at(r, f).unwrap();
    let t = pc.piece_type;
    let w = kinds_of(p, Color::White);
    let b = kinds_of(p, Color::Black);
    lemma_kinds_of_has(p, r, f);
    lemma_kinds_of_has(p, wk.0, wk.1);
    lemma_kinds_of_has(p, bk.0, bk.1);
    let s = kinds_of(p, pc.color);
    assert(s.contains(t));
    if t == PieceType::Queen || t == PieceType::Rook {
        if minor_count(s) == 0 {
            lemma_minor_count_none(s, t);
        } else if minor_count(s) == 1 && (s.contains(PieceType::Bishop) || s.contains(PieceType::Knight)) {
            lemma_minor_count_one(s, t);
        } else {
            assert(s.len() == 2 && s.contains(PieceType::Bishop) && s.contains(PieceType::King));
            let i = choose|i: int| 0 <= i < s.len() && s[i] == PieceType::Bishop;
            let k = choose|k: int| 0 <= k < s.len() && s[k] == PieceType::King;
            let j = choose|j: int| 0 <= j < s.len() && s[j] == t;
            assert(false);
        }
    }
}

/// A pawn (of either color) stands on `(r, f)`.
pub open spec fn pawn_on(p: Position, r: usize, f: usize) -> bool {
    &&& r < 8 && f < 8
    &&& p.at(r as int, f as int) matches Some(pc) && pc.piece_type == PieceType::Pawn
}

/// Move generator
pub struct MoveGenerator;

impl MoveGenerator {
    /// Push the four promotions of a pawn going from `(r, f)` to `(tr, tf)`.
    fn push_promotions(moves: &mut Vec<Move>, r: usize, f: usize, tr: usize, tf: usize)
        ensures
            final(moves)@ == old(moves)@ + promotions(r, f, tr, tf),
    {
        moves.push(Move::new(r, f, tr, tf).with_promotion(PieceType::Queen));
        moves.push(Move::new(r, f, tr, tf).with_promotion(PieceType::Rook));
        moves.push(Move::new(r, f, tr, tf).with_promotion(PieceType::Bishop));
        moves.push(Move::new(r, f, tr, tf).with_promotion(PieceType::Knight));
        assert(final(moves)@ =~= old(moves)@ + promotions(r, f, tr, tf));
    }

    /// Captures (and en passant) of the pawn on `(rank, file)` towards file `file + df`.
    fn generate_pawn_captures(board: &Board, rank: usize, file: usize, df: i32, moves: &mut Vec<Move>)
        requires
            pawn_on(board@, rank, file),
            rank != owner(board@, rank, file).promotion_rank(),
            df == -1 || df == 1,
        ensures
            final(moves)@ == old(moves)@ + pawn_captures(board@, rank, file, df as int),
            owner(board@, rank, file) == board@.turn ==> basic_from(board@, final(moves)@, old(moves)@.len() as int),
            owner(board@, rank, file) == board@.turn ==> made_from(board@, final(moves)@, old(moves)@.len() as int),
    {
        let ghost p = board@;
        let ghost init = moves@;
        let color = board.get(rank, file).unwrap().color;
        let direction = color.pawn_direction();
        let promotion_rank = color.promotion_rank();
        let new_rank = (rank as i32 + direction) as usize;
        let new_file = file as i32 + df;
        if 0 <= new_file && new_file < 8 {
            let new_file = new_file as usize;
            // Regular capture
            if let Some(target) = board.get(new_rank, new_file) {
                if target.color != color {
                    if new_rank == promotion_rank {
                        Self::push_promotions(moves, rank, file, new_rank, new_file);
                    } else {
                        moves.push(Move::new(rank, file, new_rank, new_file));
                    }
                }
            }
            let ghost mid = moves@;
            // En passant
            if let Some((ep_rank, ep_file)) = board.en_passant {
                if new_rank == ep_rank && new_file == ep_file {
                    moves.push(Move::new(rank, file, new_rank, new_file).as_en_passant());
                }
            }
            assert(moves@ =~= init + pawn_captures(p, rank, file, df as int));
        } else {
            assert(moves@ =~= init + pawn_captures(p, rank, file, df as int));
        }
    }

    /// Forward moves of the pawn on `(rank, file)`.
    fn generate_pawn_advances(board: &Board, rank: usize, file: usize, moves: &mut Vec<Move>)
        requires
            pawn_on(board@, rank, file),
            rank != owner(board@, rank, file).promotion_rank(),
        ensures
            final(moves)@ == old(moves)@ + pawn_advances(board@, rank, file),
            owner(board@, rank, file) == board@.turn ==> basic_from(board@, final(moves)@, old(moves)@.len() as int),
            owner(board@, rank, file) == board@.turn ==> made_from(board@, final(moves)@, old(moves)@.len() as int),
    {
        let ghost p = board@;
        let ghost init = moves@;
        let piece = board.get(rank, file).unwrap();
        let color = piece.color;
        let direction = color.pawn_direction();
        let start_rank = color.pawn_start_rank();
        let promotion_rank = color.promotion_rank();
        let new_rank = (rank as i32 + direction) as usize;
        // Forward move
        if new_rank < 8 && board.get(new_rank, file).is_none() {
            if new_rank == promotion_rank {
                Self::push_promotions(moves, rank, file, new_rank, file);
            } else {
                moves.push(Move::new(rank, file, new_rank, file));
                // Double move from starting position
                if rank == start_rank {
                    let double_rank = (rank as i32 + 2 * direction) as usize;
                    if board.get(double_rank, file).is_none() {
                        moves.push(Move::new(rank, file, double_rank, file));
                    }
                }
            }
        }
        assert(moves@ =~= init + pawn_advances(p, rank, file));
    }

    fn generate_pawn_moves(board: &Board, rank: usize, file: usize, moves: &mut Vec<Move>)
        requires
            pawn_on(board@, rank, file),
            rank != owner(board@, rank, file).promotion_rank(),
        ensures
            final(moves)@ == old(moves)@ + pawn_moves(board@, rank, file),
            owner(board@, rank, file) == board@.turn ==> basic_from(board@, final(moves)@, old(moves)@.len() as int),
            owner(board@, rank, file) == board@.turn ==> made_from(board@, final(moves)@, old(moves)@.len() as int),
    {
        let ghost p = board@;
        let ghost init = moves@;
        Self::generate_pawn_advances(board, rank, file, moves);
        // Captures
        Self::generate_pawn_captures(board, rank, file, -1, moves);
        Self::generate_pawn_captures(board, rank, file, 1, moves);
        assert(moves@ =~= init + pawn_moves(p, rank, file));
    }

    fn generate_knight_moves(board: &Board, rank: usize, file: usize, moves: &mut Vec<Move>)
        requires
            own_piece_at(board@, rank, file, PieceType::Knight),
        ensures
            final(moves)@ == old(moves)@ + knight_jumps(board@, rank, file, 8),
            basic_from(board@, final(moves)@, old(moves)@.len() as int),
            made_from(board@, final(moves)@, old(moves)@.len() as int),
    {
        let ghost p = board@;
        let ghost init = moves@;
        let piece = board.get(rank, file).unwrap();
        let mut i: usize = 0;
        while i < 8
            invariant
                i <= 8,
                p == board@,
                own_piece_at(p, rank, file, PieceType::Knight),
                piece == p.at(rank as int, file as int).unwrap(),
                moves@ == init + knight_jumps(p, rank, file, i as int),
                basic_from(p, moves@, init.len() as int),
                made_from(p, moves@, init.len() as int),
            decreases 8 - i,
        {
            let (dr, df) = knight_offset(i);
            let nr = rank as i32 + dr;
            let nf = file as i32 + df;
            if 0 <= nr && nr < 8 && 0 <= nf && nf < 8 {
                let nr = nr as usize;
                let nf = nf as usize;
                if let Some(target) = board.get(nr, nf) {
                    if target.color != piece.color {
                        moves.push(Move::new(rank, file, nr, nf));
                    }
                } else {
                    moves.push(Move::new(rank, file, nr, nf));
                }
            }
            assert(moves@ =~= init + knight_jumps(p, rank, file, i + 1));
            i += 1;
        }
    }

    /// Moves of the slider on `(rank, file)` along direction `i`.
    fn generate_ray_moves(board: &Board, rank: usize, file: usize, i: usize, moves: &mut Vec<Move>)
        requires
            rank < 8,
            file < 8,
            i < 8,
            board@.at(rank as int, file as int) is Some,
            board@.at(rank as int, file as int).unwrap().color == board@.turn,
            board@.at(rank as int, file as int).unwrap().piece_type != PieceType::Pawn,
        ensures
            final(moves)@ == old(moves)@ + ray_moves(board@, rank, file, i as int, 1),
            basic_from(board@, final(moves)@, old(moves)@.len() as int),
            made_from(board@, final(moves)@, old(moves)@.len() as int),
    {
        let ghost p = board@;
        let ghost init = moves@;
        let piece = board.get(rank, file).unwrap();
        let (dr, df) = line_direction(i);
        let mut nr: i32 = rank as i32 + dr;
        let mut nf: i32 = file as i32 + df;
        let ghost mut k: int = 1;
        let mut done = false;
        while !done && 0 <= nr && nr < 8 && 0 <= nf && nf < 8
            invariant
                rank < 8,
                file < 8,
                i < 8,
                p == board@,
                p.at(rank as int, file as int) is Some,
                piece == p.at(rank as int, file as int).unwrap(),
                piece.color == p.turn,
                piece.piece_type != PieceType::Pawn,
                dr == dir_dr(i as int),
                df == dir_df(i as int),
                dr != 0 || df != 0,
                1 <= k <= 8,
                nr == along(rank as int, dr as int, k),
                nf == along(file as int, df as int, k),
                done ==> moves@ == init + ray_moves(p, rank, file, i as int, 1),
                !done ==> moves@ + ray_moves(p, rank, file, i as int, k) == init + ray_moves(
                    p,
                    rank,
                    file,
                    i as int,
                    1,
                ),
                basic_from(p, moves@, init.len() as int),
                made_from(p, moves@, init.len() as int),
            decreases (if done {
                0
            } else {
                9 - k
            }),
        {
            let nr_usize = nr as usize;
            let nf_usize = nf as usize;
            if let Some(target) = board.get(nr_usize, nf_usize) {
                if target.color != piece.color {
                    moves.push(Move::new(rank, file, nr_usize, nf_usize));
                    assert(basic_move(p, moves@.last()));
                    assert(p.wf() ==> well_made(p, moves@.last()));
                }
                assert(moves@ =~= init + ray_moves(p, rank, file, i as int, 1));
                done = true;
            } else {
                moves.push(Move::new(rank, file, nr_usize, nf_usize));
                assert(basic_move(p, moves@.last()));
                assert(p.wf() ==> well_made(p, moves@.last()));
                assert(moves@ + ray_moves(p, rank, file, i as int, k + 1) =~= init + ray_moves(
                    p,
                    rank,
                    file,
                    i as int,
                    1,
                ));
                nr += dr;
                nf += df;
                proof {
                    k = k + 1;
                }
            }
        }
        if !done {
            assert(moves@ =~= init + ray_moves(p, rank, file, i as int, 1));
        }
    }

    /// Moves of the slider on `(rank, file)` along directions `lo .. hi`.
    fn generate_sliding_moves(board: &Board, rank: usize, file: usize, lo: usize, hi: usize, moves: &mut Vec<Move>)
        requires
            rank < 8,
            file < 8,
            lo <= hi <= 8,
            board@.at(rank as int, file as int) is Some,
            board@.at(rank as int, file as int).unwrap().color == board@.turn,
            board@.at(rank as int, file as int).unwrap().piece_type != PieceType::Pawn,
        ensures
            final(moves)@ == old(moves)@ + line_moves(board@, rank, file, lo as int, hi as int),
            basic_from(board@, final(moves)@, old(moves)@.len() as int),
            made_from(board@, final(moves)@, old(moves)@.len() as int),
    {
        let ghost p = board@;
        let ghost init = moves@;
        let mut i: usize = lo;
        while i < hi
            invariant
                lo <= i <= hi <= 8,
                rank < 8,
                file < 8,
                p == board@,
                p.at(rank as int, file as int) is Some,
                p.at(rank as int, file as int).unwrap().color == p.turn,
                p.at(rank as int, file as int).unwrap().piece_type != PieceType::Pawn,
                moves@ == init + line_moves(p, rank, file, lo as int, i as int),
                basic_from(p, moves@, init.len() as int),
                made_from(p, moves@, init.len() as int),
            decreases hi - i,
        {
            Self::generate_ray_moves(board, rank, file, i, moves);
            assert(moves@ =~= init + line_moves(p, rank, file, lo as int, i + 1));
            i += 1;
        }
    }

    fn generate_king_steps(board: &Board, rank: usize, file: usize, moves: &mut Vec<Move>)
        requires
            own_piece_at(board@, rank, file, PieceType::King),
        ensures
            final(moves)@ == old(moves)@ + king_steps(board@, rank, file, 8),
            basic_from(board@, final(moves)@, old(moves)@.len() as int),
            made_from(board@, final(moves)@, old(moves)@.len() as int),
    {
        let ghost p = board@;
        let ghost init = moves@;
        let piece = board.get(rank, file).unwrap();
        // Normal king moves
        let mut i: usize = 0;
        while i < 8
            invariant
                i <= 8,
                p == board@,
                own_piece_at(p, rank, file, PieceType::King),
                piece == p.at(rank as int, file as int).unwrap(),
                moves@ == init + king_steps(p, rank, file, i as int),
                basic_from(p, moves@, init.len() as int),
                made_from(p, moves@, init.len() as int),
            decreases 8 - i,
        {
            let (dr, df) = king_offset(i);
            let nr = rank as i32 + dr;
            let nf = file as i32 + df;
            if 0 <= nr && nr < 8 && 0 <= nf && nf < 8 {
                let nr = nr as usize;
                let nf = nf as usize;
                if let Some(target) = board.get(nr, nf) {
                    if target.color != piece.color {
                        moves.push(Move::new(rank, file, nr, nf));
                    }
                } else {
                    moves.push(Move::new(rank, file, nr, nf));
                }
            }
            assert(moves@ =~= init + king_steps(p, rank, file, i + 1));
            i += 1;
        }
    }

    fn generate_king_moves(board: &Board, rank: usize, file: usize, moves: &mut Vec<Move>)
        requires
            own_piece_at(board@, rank, file, PieceType::King),
        ensures
            final(moves)@ == old(moves)@ + (king_steps(board@, rank, file, 8) + castling_moves(board@, rank, file)),
            basic_from(board@, final(moves)@, old(moves)@.len() as int),
            made_from(board@, final(moves)@, old(moves)@.len() as int),
    {
        let ghost init = moves@;
        Self::generate_king_steps(board, rank, file, moves);
        // Castling
        Self::generate_castling_moves(board, rank, file, moves);
        assert(moves@ =~= init + (king_steps(board@, rank, file, 8) + castling_moves(board@, rank, file)));
    }

    fn generate_castling_moves(board: &Board, rank: usize, file: usize, moves: &mut Vec<Move>)
        requires
            own_piece_at(board@, rank, file, PieceType::King),
        ensures
            final(moves)@ == old(moves)@ + castling_moves(board@, rank, file),
            basic_from(board@, final(moves)@, old(moves)@.len() as int),
            made_from(board@, final(moves)@, old(moves)@.len() as int),
    {
        let ghost p = board@;
        let ghost init = moves@;
        let color = board.current_turn;
        let enemy = color.opposite();
        // Can't castle while in check
        if board.is_square_attacked(rank, file, enemy) {
            return;
        }
        let (kingside, queenside) = match color {
            Color::White => (
                board.castling_rights.white_kingside,
                board.castling_rights.white_queenside,
            ),
            Color::Black => (
                board.castling_rights.black_kingside,
                board.castling_rights.black_queenside,
            ),
        };
        proof {
            if kingside || queenside {
                assert(p.castling.any_for(color));
                if p.wf() {
                    assert(p.castler_home(rank as int, file as int));
                }
            }
        }
        // Kingside castling
        if kingside {
            // Check squares between king and rook are empty
            if board.get(rank, 5).is_none() && board.get(rank, 6).is_none() {
                // Check king doesn't pass through or end up in check
                if !board.is_square_attacked(rank, 5, enemy) && !board.is_square_attacked(
                    rank,
                    6,
                    enemy,
                ) {
                    moves.push(Move::new(rank, file, rank, 6).as_castling());
                    assert(basic_move(p, moves@.last()));
                    assert(p.wf() ==> well_made(p, moves@.last()));
                }
            }
        }
        let ghost mid = moves@;
        // Queenside castling
        if queenside {
            // Check squares between king and rook are empty
            if board.get(rank, 1).is_none() && board.get(rank, 2).is_none() && board.get(
                rank,
                3,
            ).is_none() {
                // Check king doesn't pass through or end up in check
                if !board.is_square_attacked(rank, 2, enemy) && !board.is_square_attacked(
                    rank,
                    3,
                    enemy,
                ) {
                    moves.push(Move::new(rank, file, rank, 2).as_castling());
                    assert(basic_move(p, moves@.last()));
                    assert(p.wf() ==> well_made(p, moves@.last()));
                }
            }
        }
        assert(moves@ =~= init + castling_moves(p, rank, file));
    }

    /// Generate all pseudo-legal moves (doesn't check for leaving king in check)
    pub fn generate_pseudo_legal_moves(board: &Board) -> (moves: Vec<Move>)
        requires
            pawns_playable(board@),
        ensures
            moves@ == pseudo_legal_moves(board@),
            basic_from(board@, moves@, 0),
            made_from(board@, moves@, 0),
    {
        let ghost p = board@;
        let mut moves: Vec<Move> = Vec::new();
        let color = board.current_turn;
        let mut rank: usize = 0;
        while rank < 8
            invariant
                rank <= 8,
                p == board@,
                color == p.turn,
                pawns_playable(p),
                moves@ == board_moves(p, rank as int),
                basic_from(p, moves@, 0),
                made_from(p, moves@, 0),
            decreases 8 - rank,
        {
            let mut file: usize = 0;
            while file < 8
                invariant
                    rank < 8,
                    file <= 8,
                    p == board@,
                    color == p.turn,
                    pawns_playable(p),
                    moves@ == board_moves(p, rank as int) + rank_moves(p, rank, file as int),
                    basic_from(p, moves@, 0),
                    made_from(p, moves@, 0),
                decreases 8 - file,
            {
                let ghost before = moves@;
                if let Some(piece) = board.get(rank, file) {
                    if piece.color == color {
                        match piece.piece_type {
                            PieceType::Pawn => {
                                assert(p.at(color.promotion_rank() as int, file as int) != Some(
                                    Piece { color: color, piece_type: PieceType::Pawn },
                                ));
                                Self::generate_pawn_moves(board, rank, file, &mut moves)
                            },
                            PieceType::Knight => {
                                Self::generate_knight_moves(board, rank, file, &mut moves)
                            },
                            PieceType::Bishop => {
                                Self::generate_bishop_moves(board, rank, file, &mut moves)
                            },
                            PieceType::Rook => {
                                Self::generate_rook_moves(board, rank, file, &mut moves)
                            },
                            PieceType::Queen => {
                                Self::generate_queen_moves(board, rank, file, &mut moves)
                            },
                            PieceType::King => {
                                Self::generate_king_moves(board, rank, file, &mut moves)
                            },
                        }
                    }
                }
                assert(moves@ =~= before + piece_moves(p, rank, file));
                assert(moves@ =~= board_moves(p, rank as int) + rank_moves(p, rank, file + 1));
                file += 1;
            }
            assert(moves@ =~= board_moves(p, rank + 1));
            rank += 1;
        }
        moves
    }

    /// Generate all legal moves for the current player
    pub fn generate_legal_moves(board: &Board) -> (moves: Vec<Move>)
        requires
            pawns_playable(board@),
            kings_on_board(board@.kings),
            clocks_room(board@, 1),
        ensures
            moves@ == legal_moves(board@),
            basic_from(board@, moves@, 0),
            made_from(board@, moves@, 0),
    {
        let ghost p = board@;
        let pseudo_moves = Self::generate_pseudo_legal_moves(board);
        let mut legal_moves: Vec<Move> = Vec::new();
        let mut i: usize = 0;
        while i < pseudo_moves.len()
            invariant
                i <= pseudo_moves@.len(),
                p == board@,
                kings_on_board(p.kings),
                clocks_room(p, 1),
                pseudo_moves@ == pseudo_legal_moves(p),
                basic_from(p, pseudo_moves@, 0),
                made_from(p, pseudo_moves@, 0),
                legal_moves@ == safe_moves(p, pseudo_moves@.take(i as int)),
                basic_from(p, legal_moves@, 0),
                made_from(p, legal_moves@, 0),
            decreases pseudo_moves@.len() - i,
        {
            let mv = pseudo_moves[i];
            assert(basic_move(p, mv));
            let mut test_board = Board {
                squares: board.squares,
                current_turn: board.current_turn,
                castling_rights: board.castling_rights,
                en_passant: board.en_passant,
                halfmove_clock: board.halfmove_clock,
                fullmove_number: board.fullmove_number,
                undo_stack: Vec::new(),
                king_positions: board.king_positions,
            };
            assert(test_board@ =~~= p);
            test_board.make_move(mv);
            // Check if the move leaves our king in check
            if !test_board.is_in_check(board.current_turn) {
                legal_moves.push(mv);
            }
            assert(pseudo_moves@.take(i + 1).drop_last() =~= pseudo_moves@.take(i as int));
            i += 1;
        }
        assert(pseudo_moves@.take(pseudo_moves@.len() as int) =~= pseudo_moves@);
        legal_moves
    }

    /// Check if the current player is in checkmate
    pub fn is_checkmate(board: &Board) -> (b: bool)
        requires
            kings_on_board(board@.kings),
            board@.in_check(board@.turn) ==> pawns_playable(board@) && clocks_room(board@, 1),
        ensures
            b == (board@.in_check(board@.turn) && legal_moves(board@).len() == 0),
    {
        board.is_in_check(board.current_turn) && Self::generate_legal_moves(board).len() == 0
    }

    /// Check if the current position is stalemate
    pub fn is_stalemate(board: &Board) -> (b: bool)
        requires
            kings_on_board(board@.kings),
            !board@.in_check(board@.turn) ==> pawns_playable(board@) && clocks_room(board@, 1),
        ensures
            b == (!board@.in_check(board@.turn) && legal_moves(board@).len() == 0),
    {
        !board.is_in_check(board.current_turn) && Self::generate_legal_moves(board).len() == 0
    }

    /// Check for draw by fifty-move rule
    pub fn is_fifty_move_draw(board: &Board) -> (b: bool)
        ensures
            b == (board@.halfmove >= 100),
    {
        board.halfmove_clock >= 100
    }

    /// Number of kinds in `v` that are neither king nor pawn.
    fn count_minor(v: &Vec<PieceType>) -> (n: usize)
        ensures
            n == minor_count(v@),
    {
        let mut n: usize = 0;
        let mut i: usize = 0;
        while i < v.len()
            invariant
                i <= v@.len(),
                n == minor_count(v@.take(i as int)),
                n <= i,
            decreases v@.len() - i,
        {
            assert(v@.take(i + 1).drop_last() =~= v@.take(i as int));
            if v[i] != PieceType::King && v[i] != PieceType::Pawn {
                n += 1;
            }
            i += 1;
        }
        assert(v@.take(v@.len() as int) =~= v@);
        n
    }

    /// `v` holds kind `t`.
    fn holds_kind(v: &Vec<PieceType>, t: PieceType) -> (b: bool)
        ensures
            b == v@.contains(t),
    {
        let mut i: usize = 0;
        while i < v.len()
            invariant
                i <= v@.len(),
                forall|j: int| 0 <= j < i ==> v@[j] != t,
            decreases v@.len() - i,
        {
            if v[i] == t {
                assert(v@[i as int] == t);
                return true;
            }
            i += 1;
        }
        false
    }

    /// Check for draw by insufficient material
    pub fn is_insufficient_material(board: &Board) -> (b: bool)
        ensures
            b == insufficient_material(board@),
    {
        let ghost p = board@;
        let mut white_pieces: Vec<PieceType> = Vec::new();
        let mut black_pieces: Vec<PieceType> = Vec::new();
        let mut white_bishops: Vec<(usize, usize)> = Vec::new();
        let mut black_bishops: Vec<(usize, usize)> = Vec::new();
        let mut rank: usize = 0;
        while rank < 8
            invariant
                rank <= 8,
                p == board@,
                white_pieces@ == kinds_in_ranks(p, Color::White, rank as int),
                black_pieces@ == kinds_in_ranks(p, Color::Black, rank as int),
                white_bishops@ == bishops_in_ranks(p, Color::White, rank as int),
                black_bishops@ == bishops_in_ranks(p, Color::Black, rank as int),
                forall|j: int| 0 <= j < white_bishops@.len() ==> (#[trigger] white_bishops@[j]).0 < 8 && white_bishops@[j].1 < 8,
                forall|j: int| 0 <= j < black_bishops@.len() ==> (#[trigger] black_bishops@[j]).0 < 8 && black_bishops@[j].1 < 8,
            decreases 8 - rank,
        {
            let mut file: usize = 0;
            while file < 8
                invariant
                    rank < 8,
                    file <= 8,
                    p == board@,
                    white_pieces@ == kinds_in_ranks(p, Color::White, rank as int) + kinds_in_rank(p, Color::White, rank as int, file as int),
                    black_pieces@ == kinds_in_ranks(p, Color::Black, rank as int) + kinds_in_rank(p, Color::Black, rank as int, file as int),
                    white_bishops@ == bishops_in_ranks(p, Color::White, rank as int) + bishops_in_rank(p, Color::White, rank as int, file as int),
                    black_bishops@ == bishops_in_ranks(p, Color::Black, rank as int) + bishops_in_rank(p, Color::Black, rank as int, file as int),
                    forall|j: int| 0 <= j < white_bishops@.len() ==> (#[trigger] white_bishops@[j]).0 < 8 && white_bishops@[j].1 < 8,
                    forall|j: int| 0 <= j < black_bishops@.len() ==> (#[trigger] black_bishops@[j]).0 < 8 && black_bishops@[j].1 < 8,
                decreases 8 - file,
            {
                if let Some(piece) = board.get(rank, file) {
                    match piece.color {
                        Color::White => {
                            white_pieces.push(piece.piece_type);
                            if piece.piece_type == PieceType::Bishop {
                                white_bishops.push((rank, file));
                            }
                        },
                        Color::Black => {
                            black_pieces.push(piece.piece_type);
                            if piece.piece_type == PieceType::Bishop {
                                black_bishops.push((rank, file));
                            }
                        },
                    }
                }
                assert(white_pieces@ =~= kinds_in_ranks(p, Color::White, rank as int) + kinds_in_rank(p, Color::White, rank as int, file + 1));
                assert(black_pieces@ =~= kinds_in_ranks(p, Color::Black, rank as int) + kinds_in_rank(p, Color::Black, rank as int, file + 1));
                assert(white_bishops@ =~= bishops_in_ranks(p, Color::White, rank as int) + bishops_in_rank(p, Color::White, rank as int, file + 1));
                assert(black_bishops@ =~= bishops_in_ranks(p, Color::Black, rank as int) + bishops_in_rank(p, Color::Black, rank as int, file + 1));
                file += 1;
            }
            assert(white_pieces@ =~= kinds_in_ranks(p, Color::White, rank + 1));
            assert(black_pieces@ =~= kinds_in_ranks(p, Color::Black, rank + 1));
            assert(white_bishops@ =~= bishops_in_ranks(p, Color::White, rank + 1));
            assert(black_bishops@ =~= bishops_in_ranks(p, Color::Black, rank + 1));
            rank += 1;
        }
        // A pawn can still promote
        if Self::holds_kind(&white_pieces, PieceType::Pawn) || Self::holds_kind(&black_pieces, PieceType::Pawn) {
            return false;
        }
        let white_minor = Self::count_minor(&white_pieces);
        let black_minor = Self::count_minor(&black_pieces);
        // King vs King
        if white_minor == 0 && black_minor == 0 {
            return true;
        }
        // King + minor piece vs King
        if white_minor == 0 && black_minor == 1 && (Self::holds_kind(&black_pieces, PieceType::Bishop)
            || Self::holds_kind(&black_pieces, PieceType::Knight)) {
            return true;
        }
        if black_minor == 0 && white_minor == 1 && (Self::holds_kind(&white_pieces, PieceType::Bishop)
            || Self::holds_kind(&white_pieces, PieceType::Knight)) {
            return true;
        }
        // King + Bishop vs King + Bishop (same color squares)
        if white_pieces.len() == 2 && black_pieces.len() == 2 {
            if Self::holds_kind(&white_pieces, PieceType::Bishop) && Self::holds_kind(&black_pieces, PieceType::Bishop) {
                if white_bishops.len() == 1 && black_bishops.len() == 1 {
                    let wb = white_bishops[0];
                    let bb = black_bishops[0];
                    // Check if both bishops are on the same color square
                    let wb_color = (wb.0 + wb.1) % 2;
                    let bb_color = (bb.0 + bb.1) % 2;
                    if wb_color == bb_color {
                        return true;
                    }
                }
            }
        }
        false
    }

    fn generate_bishop_moves(board: &Board, rank: usize, file: usize, moves: &mut Vec<Move>)
        requires
            own_piece_at(board@, rank, file, PieceType::Bishop),
        ensures
            final(moves)@ == old(moves)@ + line_moves(board@, rank, file, 4, 8),
            basic_from(board@, final(moves)@, old(moves)@.len() as int),
            made_from(board@, final(moves)@, old(moves)@.len() as int),
    {
        Self::generate_sliding_moves(board, rank, file, 4, 8, moves);
    }

    fn generate_rook_moves(board: &Board, rank: usize, file: usize, moves: &mut Vec<Move>)
        requires
            own_piece_at(board@, rank, file, PieceType::Rook),
        ensures
            final(moves)@ == old(moves)@ + line_moves(board@, rank, file, 0, 4),
            basic_from(board@, final(moves)@, old(moves)@.len() as int),
            made_from(board@, final(moves)@, old(moves)@.len() as int),
    {
        Self::generate_sliding_moves(board, rank, file, 0, 4, moves);
    }

    fn generate_queen_moves(board: &Board, rank: usize, file: usize, moves: &mut Vec<Move>)
        requires
            own_piece_at(board@, rank, file, PieceType::Queen),
        ensures
            final(moves)@ == old(moves)@ + line_moves(board@, rank, file, 0, 8),
            basic_from(board@, final(moves)@, old(moves)@.len() as int),
            made_from(board@, final(moves)@, old(moves)@.len() as int),
    {
        Self::generate_sliding_moves(board, rank, file, 0, 8, moves);
    }
}

/// The kept moves are exactly the moves of `s` that keep the mover's king safe.
proof fn lemma_safe_moves_members(p: Position, s: Seq<Move>)
    ensures
        forall|mv: Move| #[trigger] safe_moves(p, s).contains(mv) <==> s.contains(mv) && keeps_king_safe(p, mv),
    decreases s.len(),
{
    if s.len() > 0 {
        let rest = s.drop_last();
        lemma_safe_moves_members(p, rest);
        assert(s =~= rest.push(s.last()));
        assert forall|mv: Move| #[trigger] safe_moves(p, s).contains(mv) <==> s.contains(mv) && keeps_king_safe(p, mv) by {
            vstd::seq_lib::lemma_seq_contains_after_push(rest, s.last(), mv);
            vstd::seq_lib::lemma_seq_contains_after_push(safe_moves(p, rest), s.last(), mv);
        }
    }
}

/// The legal moves are exactly the pseudo-legal moves after which the
/// mover's king is not in check.
pub proof fn lemma_legal_moves_are_safe(p: Position, mv: Move)
    ensures
        legal_moves(p).contains(mv) <==> pseudo_legal_moves(p).contains(mv) && keeps_king_safe(p, mv),
{
    lemma_safe_moves_members(p, pseudo_legal_moves(p));
}

/// A position is never both checkmate and stalemate, and either means the
/// side to move has no legal move.
pub proof fn lemma_mate_or_stalemate(p: Position)
    ensures
        !((p.in_check(p.turn) && legal_moves(p).len() == 0) && (!p.in_check(p.turn) && legal_moves(
            p,
        ).len() == 0)),
{
}

/// What a move does to each castling right: it survives exactly when it was
/// held, the move is not a king move of its side, no rook leaves its corner,
/// and nothing lands on its corner.
pub proof fn lemma_castling_rules(p: Position, mv: Move)
    ensures
        ({
            let pc = p.mover(mv);
            let a = p.castling_after(mv);
            let king_of = |c: Color| pc.piece_type == PieceType::King && pc.color == c;
            let leaves = |r: usize, f: usize| pc.piece_type == PieceType::Rook && mv.from_rank == r && mv.from_file == f;
            let lands = |r: usize, f: usize| mv.to_rank == r && mv.to_file == f;
            &&& a.white_kingside == (p.castling.white_kingside && !king_of(Color::White) && !leaves(0, 7) && !lands(0, 7))
            &&& a.white_queenside == (p.castling.white_queenside && !king_of(Color::White) && !leaves(0, 0) && !lands(0, 0))
            &&& a.black_kingside == (p.castling.black_kingside && !king_of(Color::Black) && !leaves(7, 7) && !lands(7, 7))
            &&& a.black_queenside == (p.castling.black_queenside && !king_of(Color::Black) && !leaves(7, 0) && !lands(7, 0))
        }),
{
}

/// Castling rights, once lost, never come back: every right after a move
/// was held before it.
pub proof fn lemma_rights_never_return(p: Position, mv: Move)
    ensures
        p.castling_after(mv).white_kingside ==> p.castling.white_kingside,
        p.castling_after(mv).white_queenside ==> p.castling.white_queenside,
        p.castling_after(mv).black_kingside ==> p.castling.black_kingside,
        p.castling_after(mv).black_queenside ==> p.castling.black_queenside,
{
}

} // verus!
