//! Laws of legal play: a generated capture lands on a square its side
//! attacks, so in a position where the side not to move is not in check, no
//! legal move takes a king.

use vstd::prelude::*;
use crate::board::{Position, start_piece, pawn_attacks, home_rank, rook_from_file, rook_to_file, victim_rank, landed, color_slot, holds, ray_cell, path_clear, slider_at, attacked_along, knight_attacks, king_attacks};
use crate::geometry::{in_bounds, along, knight_dr, knight_df, king_dr, king_df, dir_dr, dir_df};
use crate::moves::{
    Move, rights_of, step_to, knight_jumps, king_steps, ray_moves, line_moves, pawn_advances,
    pawn_captures, pawn_moves, castling_moves, piece_moves, rank_moves, board_moves,
    pseudo_legal_moves, legal_moves, lemma_legal_moves_are_safe, promotions, owner, pawns_playable,
    well_made,
};
use crate::pieces::{Color, Piece, PieceType};
use crate::evaluation::kings_unique;
use crate::moves::{kings_cached, spares_kings, lemma_cell_after, lemma_well_made_move, lemma_kings_stay_cached, clocks_room, keeps_king_safe};

verus! {

/// What every generated move shows about its target: castling goes from the
/// king of the side to move to an empty square of its home rank with the
/// matching right held; en passant lands on the en passant square; any
/// other move onto an occupied square takes an enemy piece on a square the
/// side to move attacks.
pub open spec fn hits_attacked(p: Position, mv: Move) -> bool {
    let tr = mv.to_rank as int;
    let tf = mv.to_file as int;
    &&& mv.is_castling ==> {
        &&& p.at(tr, tf) is None
        &&& p.at(mv.from_rank as int, mv.from_file as int) == Some(Piece { color: p.turn, piece_type: PieceType::King })
        &&& mv.from_rank < 8 && mv.from_file < 8
        &&& mv.from_rank == mv.to_rank
        &&& (mv.to_file == 6 && rights_of(p.castling, p.turn).0) || (mv.to_file == 2 && rights_of(p.castling, p.turn).1)
    }
    &&& mv.is_en_passant ==> !mv.is_castling && p.en_passant == Some((mv.to_rank, mv.to_file))
    &&& p.mover(mv).piece_type == PieceType::Pawn && (mv.to_rank == mv.from_rank + 2 || mv.from_rank
        == mv.to_rank + 2) ==> p.at((mv.from_rank + mv.to_rank) / 2, mv.to_file as int) is None
    &&& !mv.is_castling && !mv.is_en_passant && p.at(tr, tf) is Some ==> {
        &&& in_bounds(tr, tf)
        &&& p.at(tr, tf).unwrap().color != p.turn
        &&& p.attacked_by(tr, tf, p.turn)
    }
}

/// Every move of `s` shows `hits_attacked`, and is well made on a
/// consistent board.
pub open spec fn all_hit(p: Position, s: Seq<Move>) -> bool {
    forall|j: int| 0 <= j < s.len() ==> hit_made(p, #[trigger] s[j])
}

/// `mv` shows `hits_attacked`, and is well made if `p` is consistent.
pub open spec fn hit_made(p: Position, mv: Move) -> bool {
    hits_attacked(p, mv) && (p.wf() ==> well_made(p, mv))
}

proof fn lemma_all_hit_concat(p: Position, a: Seq<Move>, b: Seq<Move>)
    requires
        all_hit(p, a),
        all_hit(p, b),
    ensures
        all_hit(p, a + b),
{
    assert forall|j: int| 0 <= j < (a + b).len() implies hit_made(p, #[trigger] (a + b)[j]) by {
        if j < a.len() {
            assert((a + b)[j] == a[j]);
        } else {
            assert((a + b)[j] == b[j - a.len()]);
        }
    }
}

/// `p` holds a piece of the side to move of kind `t` on `(r, f)`.
pub open spec fn own_at(p: Position, r: usize, f: usize, t: PieceType) -> bool {
    r < 8 && f < 8 && p.at(r as int, f as int) == Some(Piece { color: p.turn, piece_type: t })
}

proof fn lemma_knight_jumps_hit(p: Position, r: usize, f: usize, n: int)
    requires
        own_at(p, r, f, PieceType::Knight),
        n <= 8,
    ensures
        all_hit(p, knight_jumps(p, r, f, n)),
    decreases n,
{
    if n > 0 {
        lemma_knight_jumps_hit(p, r, f, n - 1);
        let m = n - 1;
        let tr = r + knight_dr(m);
        let tf = f + knight_df(m);
        let s = step_to(p, r, f, tr, tf);
        if in_bounds(tr, tf) && p.at(tr, tf) is Some {
            let i = 7 - m;
            assert(knight_dr(i) == -knight_dr(m) && knight_df(i) == -knight_df(m));
            assert(holds(p.grid, tr + knight_dr(i), tf + knight_df(i), p.turn, PieceType::Knight));
            assert(knight_attacks(p.grid, tr, tf, p.turn));
        }
        assert forall|j: int| 0 <= j < s.len() implies hit_made(p, #[trigger] s[j]) by {}
        lemma_all_hit_concat(p, knight_jumps(p, r, f, n - 1), s);
    }
}

proof fn lemma_king_steps_hit(p: Position, r: usize, f: usize, n: int)
    requires
        own_at(p, r, f, PieceType::King),
        n <= 8,
    ensures
        all_hit(p, king_steps(p, r, f, n)),
    decreases n,
{
    if n > 0 {
        lemma_king_steps_hit(p, r, f, n - 1);
        let m = n - 1;
        let tr = r + king_dr(m);
        let tf = f + king_df(m);
        let s = step_to(p, r, f, tr, tf);
        if in_bounds(tr, tf) && p.at(tr, tf) is Some {
            let i = 7 - m;
            assert(king_dr(i) == -king_dr(m) && king_df(i) == -king_df(m));
            assert(holds(p.grid, tr + king_dr(i), tf + king_df(i), p.turn, PieceType::King));
            assert(king_attacks(p.grid, tr, tf, p.turn));
        }
        assert forall|j: int| 0 <= j < s.len() implies hit_made(p, #[trigger] s[j]) by {}
        lemma_all_hit_concat(p, king_steps(p, r, f, n - 1), s);
    }
}

proof fn lemma_pawn_captures_hit(p: Position, r: usize, f: usize, df: int)
    requires
        own_at(p, r, f, PieceType::Pawn),
        r != p.turn.promotion_rank(),
        df == -1 || df == 1,
    ensures
        all_hit(p, pawn_captures(p, r, f, df)),
{
    let c = p.turn;
    let nr = r + c.pawn_direction();
    let nf = f + df;
    assert(owner(p, r, f) == c);
    if 0 <= nf < 8 {
        let take = match p.at(nr, nf) {
            Some(target) => if target.color != c {
                if nr == c.promotion_rank() {
                    promotions(r, f, nr as usize, nf as usize)
                } else {
                    seq![Move::plain(r, f, nr as usize, nf as usize)]
                }
            } else {
                Seq::<Move>::empty()
            },
            None => Seq::<Move>::empty(),
        };
        let passant = match p.en_passant {
            Some(sq) => if nr == sq.0 && nf == sq.1 {
                seq![Move { is_en_passant: true, ..Move::plain(r, f, nr as usize, nf as usize) }]
            } else {
                Seq::<Move>::empty()
            },
            None => Seq::<Move>::empty(),
        };
        assert(pawn_captures(p, r, f, df) == take + passant);
        if take.len() > 0 {
            assert(in_bounds(nr, nf));
            assert(holds(p.grid, nr - c.pawn_direction(), nf - df, c, PieceType::Pawn));
            assert(crate::board::pawn_attacks(p.grid, nr, nf, c));
        }
        assert forall|j: int| 0 <= j < take.len() implies hit_made(p, #[trigger] take[j]) by {}
        assert forall|j: int| 0 <= j < passant.len() implies hit_made(p, #[trigger] passant[j]) by {}
        lemma_all_hit_concat(p, take, passant);
    }
}

proof fn lemma_pawn_moves_hit(p: Position, r: usize, f: usize)
    requires
        own_at(p, r, f, PieceType::Pawn),
        r != p.turn.promotion_rank(),
    ensures
        all_hit(p, pawn_moves(p, r, f)),
{
    let c = p.turn;
    assert(owner(p, r, f) == c);
    let nr = r + c.pawn_direction();
    let adv = pawn_advances(p, r, f);
    assert forall|j: int| 0 <= j < adv.len() implies hit_made(p, #[trigger] adv[j]) by {
        if p.at(nr, f as int) is None {
            if nr == c.promotion_rank() {
                assert(adv == promotions(r, f, nr as usize, f));
            } else {
                let dr = r + 2 * c.pawn_direction();
                assert(adv.len() > 1 ==> r == c.pawn_start_rank() && p.at(dr, f as int) is None);
                if j == 0 {
                    assert(adv[j] == Move::plain(r, f, nr as usize, f));
                } else {
                    assert(adv[j] == Move::plain(r, f, dr as usize, f));
                }
            }
        }
    }
    lemma_pawn_captures_hit(p, r, f, -1);
    lemma_pawn_captures_hit(p, r, f, 1);
    lemma_all_hit_concat(p, adv, pawn_captures(p, r, f, -1));
    lemma_all_hit_concat(p, adv + pawn_captures(p, r, f, -1), pawn_captures(p, r, f, 1));
}

/// The line direction opposite to direction `i`.
pub open spec fn reverse_dir(i: int) -> int {
    if i == 0 {
        1
    } else if i == 1 {
        0
    } else if i == 2 {
        3
    } else if i == 3 {
        2
    } else if i == 4 {
        7
    } else if i == 7 {
        4
    } else if i == 5 {
        6
    } else {
        5
    }
}

/// The slider kind that covers line direction `i`.
pub open spec fn line_kind(i: int) -> PieceType {
    if i < 4 {
        PieceType::Rook
    } else {
        PieceType::Bishop
    }
}

/// A slider of the side to move on `(r, f)` that moves along direction `i`.
pub open spec fn slides_along(p: Position, r: usize, f: usize, i: int) -> bool {
    &&& r < 8 && f < 8 && 0 <= i < 8
    &&& (p.at(r as int, f as int) == Some(Piece { color: p.turn, piece_type: line_kind(i) }) || p.at(
        r as int,
        f as int,
    ) == Some(Piece { color: p.turn, piece_type: PieceType::Queen }))
}

proof fn lemma_ray_hit(p: Position, r: usize, f: usize, i: int, k: int)
    requires
        slides_along(p, r, f, i),
        1 <= k,
        path_clear(p.grid, r as int, f as int, i, k),
    ensures
        all_hit(p, ray_moves(p, r, f, i, k)),
    decreases 8 - k,
{
    let g = p.grid;
    let tr = along(r as int, dir_dr(i), k);
    let tf = along(f as int, dir_df(i), k);
    assert(owner(p, r, f) == p.turn);
    if k < 8 && in_bounds(tr, tf) {
        assert(ray_cell(g, r as int, f as int, i, k) == p.at(tr, tf));
        match p.at(tr, tf) {
            None => {
                assert forall|j: int| 1 <= j < k + 1 implies (#[trigger] ray_cell(g, r as int, f as int, i, j)) is None by {}
                lemma_ray_hit(p, r, f, i, k + 1);
                let head = seq![Move::plain(r, f, tr as usize, tf as usize)];
                assert forall|j: int| 0 <= j < head.len() implies hit_made(p, #[trigger] head[j]) by {}
                lemma_all_hit_concat(p, head, ray_moves(p, r, f, i, k + 1));
            },
            Some(target) => {
                if target.color != p.turn {
                    let ri = reverse_dir(i);
                    let t = line_kind(i);
                    assert(dir_dr(ri) == -dir_dr(i) && dir_df(ri) == -dir_df(i));
                    assert(along(tr, dir_dr(ri), k) == r && along(tf, dir_df(ri), k) == f);
                    assert forall|j: int| 1 <= j < k implies (#[trigger] ray_cell(g, tr, tf, ri, j)) is None by {
                        assert(along(tr, dir_dr(ri), j) == along(r as int, dir_dr(i), k - j));
                        assert(along(tf, dir_df(ri), j) == along(f as int, dir_df(i), k - j));
                        assert(ray_cell(g, r as int, f as int, i, k - j) is None);
                    }
                    assert(ray_cell(g, tr, tf, ri, k) == p.at(r as int, f as int));
                    assert(slider_at(g, tr, tf, ri, k, p.turn, t));
                    assert(attacked_along(g, tr, tf, ri, p.turn, t));
                    assert(line_kind(ri) == t);
                }
            },
        }
    }
}

/// A slider on `(r, f)` moves along every direction of `lo .. n`.
pub open spec fn slides_lines(p: Position, r: usize, f: usize, lo: int, n: int) -> bool {
    forall|i: int| lo <= i < n ==> #[trigger] slides_along(p, r, f, i)
}

proof fn lemma_line_moves_hit(p: Position, r: usize, f: usize, lo: int, n: int)
    requires
        slides_lines(p, r, f, lo, n),
    ensures
        all_hit(p, line_moves(p, r, f, lo, n)),
    decreases n - lo,
{
    if n > lo {
        lemma_line_moves_hit(p, r, f, lo, n - 1);
        assert(slides_along(p, r, f, n - 1));
        lemma_ray_hit(p, r, f, n - 1, 1);
        lemma_all_hit_concat(p, line_moves(p, r, f, lo, n - 1), ray_moves(p, r, f, n - 1, 1));
    }
}

proof fn lemma_castling_hit(p: Position, r: usize, f: usize)
    requires
        own_at(p, r, f, PieceType::King),
    ensures
        all_hit(p, castling_moves(p, r, f)),
{
    let s = castling_moves(p, r, f);
    if p.wf() && s.len() > 0 {
        assert(p.castler_home(r as int, f as int));
        assert(p.castling.any_for(p.turn));
        assert(r == home_rank(p.turn) && f == 4);
    }
    assert forall|j: int| 0 <= j < s.len() implies hit_made(p, #[trigger] s[j]) by {}
}

proof fn lemma_piece_moves_hit(p: Position, r: usize, f: usize)
    requires
        r < 8,
        f < 8,
        pawns_playable(p),
    ensures
        all_hit(p, piece_moves(p, r, f)),
{
    match p.at(r as int, f as int) {
        Some(piece) => {
            if piece.color == p.turn {
                match piece.piece_type {
                    PieceType::Pawn => {
                        assert(r != p.turn.promotion_rank());
                        lemma_pawn_moves_hit(p, r, f);
                    },
                    PieceType::Knight => lemma_knight_jumps_hit(p, r, f, 8),
                    PieceType::Bishop => {
                        assert forall|i: int| 4 <= i < 8 implies #[trigger] slides_along(p, r, f, i) by {}
                        lemma_line_moves_hit(p, r, f, 4, 8);
                    },
                    PieceType::Rook => {
                        assert forall|i: int| 0 <= i < 4 implies #[trigger] slides_along(p, r, f, i) by {}
                        lemma_line_moves_hit(p, r, f, 0, 4);
                    },
                    PieceType::Queen => {
                        assert forall|i: int| 0 <= i < 8 implies #[trigger] slides_along(p, r, f, i) by {}
                        lemma_line_moves_hit(p, r, f, 0, 8);
                    },
                    PieceType::King => {
                        lemma_king_steps_hit(p, r, f, 8);
                        lemma_castling_hit(p, r, f);
                        lemma_all_hit_concat(p, king_steps(p, r, f, 8), castling_moves(p, r, f));
                    },
                }
            }
        },
        None => {},
    }
}

proof fn lemma_rank_moves_hit(p: Position, r: usize, n: int)
    requires
        r < 8,
        n <= 8,
        pawns_playable(p),
    ensures
        all_hit(p, rank_moves(p, r, n)),
    decreases n,
{
    if n > 0 {
        lemma_rank_moves_hit(p, r, n - 1);
        lemma_piece_moves_hit(p, r, (n - 1) as usize);
        lemma_all_hit_concat(p, rank_moves(p, r, n - 1), piece_moves(p, r, (n - 1) as usize));
    }
}

proof fn lemma_board_moves_hit(p: Position, n: int)
    requires
        n <= 8,
        pawns_playable(p),
    ensures
        all_hit(p, board_moves(p, n)),
    decreases n,
{
    if n > 0 {
        lemma_board_moves_hit(p, n - 1);
        lemma_rank_moves_hit(p, (n - 1) as usize, 8);
        lemma_all_hit_concat(p, board_moves(p, n - 1), rank_moves(p, (n - 1) as usize, 8));
    }
}

/// Every legal move shows `hits_attacked`: in particular a capture (other
/// than en passant) takes an enemy piece on a square the side to move
/// attacks.
pub proof fn lemma_legal_moves_hit_attacked(p: Position, mv: Move)
    requires
        pawns_playable(p),
        legal_moves(p).contains(mv),
    ensures
        hits_attacked(p, mv),
        p.wf() ==> well_made(p, mv),
{
    lemma_board_moves_hit(p, 8);
    lemma_legal_moves_are_safe(p, mv);
    let s = pseudo_legal_moves(p);
    let j = choose|j: int| 0 <= j < s.len() && s[j] == mv;
    assert(hit_made(p, s[j]));
}

/// Each castling right is backed by its side's rook on the right's corner.
pub open spec fn rooks_backed(p: Position) -> bool {
    &&& p.castling.white_kingside ==> p.at(0, 7) == Some(Piece { color: Color::White, piece_type: PieceType::Rook })
    &&& p.castling.white_queenside ==> p.at(0, 0) == Some(Piece { color: Color::White, piece_type: PieceType::Rook })
    &&& p.castling.black_kingside ==> p.at(7, 7) == Some(Piece { color: Color::Black, piece_type: PieceType::Rook })
    &&& p.castling.black_queenside ==> p.at(7, 0) == Some(Piece { color: Color::Black, piece_type: PieceType::Rook })
}

/// The en passant square, if any, is empty.
pub open spec fn passant_empty(p: Position) -> bool {
    p.en_passant matches Some(sq) ==> p.at(sq.0 as int, sq.1 as int) is None
}

/// A position as legal play leaves it: consistent, one king per side on
/// its cached square, the side that just moved not in check, every
/// castling right backed by its rook, and the en passant square empty.
pub open spec fn sound(p: Position) -> bool {
    &&& p.wf()
    &&& kings_unique(p)
    &&& kings_cached(p)
    &&& !p.in_check(p.turn.opposite())
    &&& rooks_backed(p)
    &&& passant_empty(p)
}

/// On a consistent board every generated move, legal or not, is well made,
/// can be undone exactly, and leaves the board consistent.
pub proof fn lemma_generated_moves_undo(p: Position, mv: Move)
    requires
        p.wf(),
        pseudo_legal_moves(p).contains(mv),
        clocks_room(p, 1),
    ensures
        well_made(p, mv),
        p.reversible(mv),
        p.play(mv).wf(),
{
    crate::moves::lemma_wf_playable(p);
    lemma_board_moves_hit(p, 8);
    let s = pseudo_legal_moves(p);
    let j = choose|j: int| 0 <= j < s.len() && s[j] == mv;
    assert(hit_made(p, s[j]));
    lemma_well_made_move(p, mv);
}

/// In a sound position no legal move takes a king, and castling finds its
/// rook on the corner.
pub proof fn lemma_legal_moves_spare_kings(p: Position, mv: Move)
    requires
        sound(p),
        legal_moves(p).contains(mv),
    ensures
        spares_kings(p, mv),
{
    crate::moves::lemma_wf_playable(p);
    lemma_legal_moves_hit_attacked(p, mv);
    let tr = mv.to_rank as int;
    let tf = mv.to_file as int;
    let c = p.turn;
    let o = c.opposite();
    if mv.is_castling {
        let fr = mv.from_rank as int;
        let ff = mv.from_file as int;
        assert(p.castler_home(fr, ff));
        assert(p.castling.any_for(c));
        assert(fr == home_rank(c) && ff == 4);
    } else if mv.is_en_passant {
        assert(p.at(tr, tf) is None);
    } else {
        match p.at(tr, tf) {
            Some(q) => {
                if q.piece_type == PieceType::King {
                    assert(q.color != c);
                    assert(q.color == o) by {
                        match c {
                            Color::White => {},
                            Color::Black => {},
                        }
                        match q.color {
                            Color::White => {},
                            Color::Black => {},
                        }
                    }
                    assert(in_bounds(tr, tf));
                    assert(p.kings[crate::board::color_slot(o)] == Some((mv.to_rank, mv.to_file)));
                    assert(o.opposite() == c);
                    assert(p.in_check(o));
                }
            },
            None => {},
        }
    }
}

proof fn lemma_unique_after(p: Position, mv: Move)
    requires
        sound(p),
        legal_moves(p).contains(mv),
        clocks_room(p, 1),
    ensures
        kings_unique(p.play(mv)),
{
    let q = p.play(mv);
    crate::moves::lemma_wf_playable(p);
    lemma_legal_moves_hit_attacked(p, mv);
    lemma_well_made_move(p, mv);
    let piece = p.mover(mv);
    assert forall|x: int, y: int|
        #![trigger q.at(x, y)]
        in_bounds(x, y) && (q.at(x, y) matches Some(pc) && pc.piece_type == PieceType::King) implies q.kings[color_slot(
            q.at(x, y).unwrap().color,
        )] == Some((x as usize, y as usize)) by {
        lemma_cell_after(p, mv, x, y);
        let pc = q.at(x, y).unwrap();
        if x == mv.to_rank && y == mv.to_file {
            assert(piece.piece_type == PieceType::King);
        } else if x == mv.from_rank && y == mv.from_file {
        } else if mv.is_castling && x == mv.from_rank && y == rook_to_file(mv) {
            let c = p.turn;
            assert(mv.from_rank == home_rank(c) && mv.from_file == 4) by {
                assert(p.castler_home(mv.from_rank as int, mv.from_file as int));
            }
            assert(p.at(x, rook_from_file(mv)) == Some(Piece { color: c, piece_type: PieceType::Rook }));
        } else if mv.is_castling && x == mv.from_rank && y == rook_from_file(mv) {
        } else if mv.is_en_passant && x == victim_rank(piece.color, mv.to_rank as int) && y == mv.to_file {
        } else {
            assert(p.at(x, y) == q.at(x, y));
            assert(p.kings[color_slot(pc.color)] == Some((x as usize, y as usize)));
            if piece.piece_type == PieceType::King && piece.color == pc.color {
                assert(p.at(mv.from_rank as int, mv.from_file as int) == Some(piece));
                assert(p.kings[color_slot(piece.color)] == Some((mv.from_rank, mv.from_file)));
            }
        }
    }
}

proof fn lemma_corner_after(p: Position, mv: Move, r: int, f: int, c: Color)
    requires
        sound(p),
        legal_moves(p).contains(mv),
        clocks_room(p, 1),
        (r == 0 || r == 7) && (f == 0 || f == 7),
        r == home_rank(c),
        p.at(r, f) == Some(Piece { color: c, piece_type: PieceType::Rook }),
        !(mv.from_rank == r && mv.from_file == f),
        !(mv.to_rank == r && mv.to_file == f),
        !(mv.is_castling && p.turn == c),
    ensures
        p.play(mv).at(r, f) == Some(Piece { color: c, piece_type: PieceType::Rook }),
{
    crate::moves::lemma_wf_playable(p);
    lemma_legal_moves_hit_attacked(p, mv);
    lemma_cell_after(p, mv, r, f);
    let piece = p.mover(mv);
    if mv.is_castling {
        assert(p.turn != c);
        assert(mv.from_rank == home_rank(p.turn)) by {
            assert(p.castler_home(mv.from_rank as int, mv.from_file as int));
        }
    }
    if mv.is_en_passant {
        assert(p.en_passant == Some((mv.to_rank, mv.to_file)));
    }
}

proof fn lemma_rooks_after(p: Position, mv: Move)
    requires
        sound(p),
        legal_moves(p).contains(mv),
        clocks_room(p, 1),
    ensures
        rooks_backed(p.play(mv)),
{
    crate::moves::lemma_wf_playable(p);
    lemma_legal_moves_hit_attacked(p, mv);
    let q = p.play(mv);
    let piece = p.mover(mv);
    assert(p.at(mv.from_rank as int, mv.from_file as int) == Some(piece));
    if q.castling.white_kingside {
        lemma_corner_after(p, mv, 0, 7, Color::White);
    }
    if q.castling.white_queenside {
        lemma_corner_after(p, mv, 0, 0, Color::White);
    }
    if q.castling.black_kingside {
        lemma_corner_after(p, mv, 7, 7, Color::Black);
    }
    if q.castling.black_queenside {
        lemma_corner_after(p, mv, 7, 0, Color::Black);
    }
}

proof fn lemma_passant_after(p: Position, mv: Move)
    requires
        sound(p),
        legal_moves(p).contains(mv),
        clocks_room(p, 1),
    ensures
        passant_empty(p.play(mv)),
{
    crate::moves::lemma_wf_playable(p);
    lemma_legal_moves_hit_attacked(p, mv);
    let q = p.play(mv);
    match q.en_passant {
        Some(sq) => {
            lemma_cell_after(p, mv, sq.0 as int, sq.1 as int);
        },
        None => {},
    }
}

/// A legal move keeps a position sound; in particular the king cache still
/// holds the kings after it.
pub proof fn lemma_sound_after(p: Position, mv: Move)
    requires
        sound(p),
        legal_moves(p).contains(mv),
        clocks_room(p, 1),
    ensures
        sound(p.play(mv)),
{
    crate::moves::lemma_wf_playable(p);
    lemma_legal_moves_hit_attacked(p, mv);
    lemma_well_made_move(p, mv);
    lemma_legal_moves_spare_kings(p, mv);
    lemma_kings_stay_cached(p, mv);
    crate::moves::lemma_legal_moves_are_safe(p, mv);
    assert(p.turn.opposite().opposite() == p.turn) by {
        match p.turn {
            Color::White => {},
            Color::Black => {},
        }
    }
    lemma_unique_after(p, mv);
    lemma_rooks_after(p, mv);
    lemma_passant_after(p, mv);
}

/// In the starting position no white piece attacks the black king.
proof fn lemma_initial_black_safe()
    ensures
        !Position::initial().attacked_by(7, 4, Color::White),
{
    let p = Position::initial();
    let g = p.grid;
    assert forall|x: int, y: int| in_bounds(x, y) implies #[trigger] g[x][y] == start_piece(x, y) by {}
    assert forall|i: int| 0 <= i < 8 implies !#[trigger] holds(g, 7 + knight_dr(i), 4 + knight_df(i), Color::White, PieceType::Knight) by {
        let x = 7 + knight_dr(i);
        let y = 4 + knight_df(i);
        if in_bounds(x, y) {
            assert(g[x][y] == start_piece(x, y));
        }
    }
    assert forall|i: int| 0 <= i < 8 implies !#[trigger] holds(g, 7 + king_dr(i), 4 + king_df(i), Color::White, PieceType::King) by {
        let x = 7 + king_dr(i);
        let y = 4 + king_df(i);
        if in_bounds(x, y) {
            assert(g[x][y] == start_piece(x, y));
        }
    }
    assert(g[6][3] == start_piece(6, 3) && g[6][5] == start_piece(6, 5));
    assert(!pawn_attacks(g, 7, 4, Color::White));
    assert forall|i: int, k: int, t: PieceType| 0 <= i < 8 implies !#[trigger] slider_at(g, 7, 4, i, k, Color::White, t) by {
        let x = along(7, dir_dr(i), 1);
        let y = along(4, dir_df(i), 1);
        if k >= 1 && in_bounds(along(7, dir_dr(i), k), along(4, dir_df(i), k)) {
            assert(in_bounds(x, y));
            assert(g[x][y] == start_piece(x, y));
            assert(ray_cell(g, 7, 4, i, 1) is Some);
        }
    }
    assert forall|i: int| 0 <= i < 8 implies !#[trigger] attacked_along(g, 7, 4, i, Color::White, PieceType::Rook) by {
        if attacked_along(g, 7, 4, i, Color::White, PieceType::Rook) {
            let k = choose|k: int| #[trigger] slider_at(g, 7, 4, i, k, Color::White, PieceType::Rook);
        }
    }
    assert forall|i: int| 0 <= i < 8 implies !#[trigger] attacked_along(g, 7, 4, i, Color::White, PieceType::Bishop) by {
        if attacked_along(g, 7, 4, i, Color::White, PieceType::Bishop) {
            let k = choose|k: int| #[trigger] slider_at(g, 7, 4, i, k, Color::White, PieceType::Bishop);
        }
    }
}

/// The starting position is sound.
pub proof fn lemma_initial_sound()
    ensures
        sound(Position::initial()),
{
    let p = Position::initial();
    crate::board::lemma_initial_wf();
    crate::moves::lemma_initial_kings_cached();
    lemma_initial_black_safe();
    assert forall|x: int, y: int| #![trigger p.at(x, y)] in_bounds(x, y) && (p.at(x, y) matches Some(pc)
        && pc.piece_type == PieceType::King) implies p.kings[color_slot(p.at(x, y).unwrap().color)] == Some(
        (x as usize, y as usize),
    ) by {
        assert(p.at(x, y) == start_piece(x, y));
    }
    assert(p.at(0, 7) == start_piece(0, 7) && p.at(0, 0) == start_piece(0, 0));
    assert(p.at(7, 7) == start_piece(7, 7) && p.at(7, 0) == start_piece(7, 0));
}

/// The position after playing the moves of `s` from `p`, in order.
pub open spec fn played(p: Position, s: Seq<Move>) -> Position
    decreases s.len(),
{
    if s.len() == 0 {
        p
    } else {
        played(p, s.drop_last()).play(s.last())
    }
}

/// Each move of `s` is legal in the position it is played in.
pub open spec fn legal_line(p: Position, s: Seq<Move>) -> bool {
    forall|j: int| 0 <= j < s.len() ==> legal_moves(played(p, s.take(j))).contains(#[trigger] s[j])
}

/// Legal play keeps a position sound, over any number of moves.
pub proof fn lemma_line_sound(p: Position, s: Seq<Move>)
    requires
        sound(p),
        legal_line(p, s),
        clocks_room(p, s.len()),
    ensures
        sound(played(p, s)),
        played(p, s).halfmove <= p.halfmove + s.len(),
        played(p, s).fullmove <= p.fullmove + s.len(),
    decreases s.len(),
{
    if s.len() > 0 {
        let rest = s.drop_last();
        assert forall|j: int| 0 <= j < rest.len() implies legal_moves(played(p, rest.take(j))).contains(
            #[trigger] rest[j],
        ) by {
            assert(rest.take(j) =~= s.take(j));
            assert(s[j] == rest[j]);
        }
        lemma_line_sound(p, rest);
        let last = s.len() - 1;
        assert(s.take(last) =~= rest);
        assert(legal_moves(played(p, s.take(last))).contains(s[last]));
        lemma_sound_after(played(p, rest), s.last());
    }
}

/// Every position reached from the start by legal moves is sound: in
/// particular the king cache holds both kings there, the side that just
/// moved is not in check, and no legal move takes a king.
pub proof fn lemma_reachable_sound(s: Seq<Move>)
    requires
        legal_line(Position::initial(), s),
        s.len() < 1000,
    ensures
        sound(played(Position::initial(), s)),
        kings_cached(played(Position::initial(), s)),
{
    lemma_initial_sound();
    lemma_line_sound(Position::initial(), s);
}

proof fn lemma_concat_contains(a: Seq<Move>, b: Seq<Move>, mv: Move)
    requires
        a.contains(mv) || b.contains(mv),
    ensures
        (a + b).contains(mv),
{
    if a.contains(mv) {
        let j = choose|j: int| 0 <= j < a.len() && a[j] == mv;
        assert((a + b)[j] == mv);
    } else {
        let j = choose|j: int| 0 <= j < b.len() && b[j] == mv;
        assert((a + b)[a.len() + j] == mv);
    }
}

proof fn lemma_rank_contains(p: Position, r: usize, f: usize, n: int, mv: Move)
    requires
        f < n <= 8,
        piece_moves(p, r, f).contains(mv),
    ensures
        rank_moves(p, r, n).contains(mv),
    decreases n,
{
    if f < n - 1 {
        lemma_rank_contains(p, r, f, n - 1, mv);
    }
    lemma_concat_contains(rank_moves(p, r, n - 1), piece_moves(p, r, (n - 1) as usize), mv);
}

proof fn lemma_board_contains(p: Position, r: usize, n: int, mv: Move)
    requires
        r < n <= 8,
        rank_moves(p, r, 8).contains(mv),
    ensures
        board_moves(p, n).contains(mv),
    decreases n,
{
    if r < n - 1 {
        lemma_board_contains(p, r, n - 1, mv);
    }
    lemma_concat_contains(board_moves(p, n - 1), rank_moves(p, (n - 1) as usize, 8), mv);
}

/// Every move a piece on the board makes is among the generated moves.
proof fn lemma_piece_move_generated(p: Position, r: usize, f: usize, mv: Move)
    requires
        r < 8,
        f < 8,
        piece_moves(p, r, f).contains(mv),
    ensures
        pseudo_legal_moves(p).contains(mv),
{
    lemma_rank_contains(p, r, f, 8, mv);
    lemma_board_contains(p, r, 8, mv);
}

/// The generated moves hold a move to `(tr, tf)` that is not castling.
pub open spec fn move_to(s: Seq<Move>, tr: int, tf: int) -> bool {
    exists|mv: Move| #[trigger] s.contains(mv) && mv.to_rank == tr && mv.to_file == tf && !mv.is_castling
}

/// A pawn of the side to move, off its last rank, captures an enemy piece
/// diagonally ahead of it on either side: the capture (each promotion, on
/// the last rank) is generated.
pub proof fn lemma_pawn_captures_generated(p: Position, r: usize, f: usize, df: int)
    requires
        own_at(p, r, f, PieceType::Pawn),
        r != p.turn.promotion_rank(),
        df == -1 || df == 1,
        0 <= f + df < 8,
        p.at(r + p.turn.pawn_direction(), f + df) matches Some(q) && q.color != p.turn,
    ensures
        ({
            let nr = (r + p.turn.pawn_direction()) as usize;
            let nf = (f + df) as usize;
            if nr == p.turn.promotion_rank() {
                forall|i: int| 0 <= i < 4 ==> pseudo_legal_moves(p).contains(#[trigger] promotions(r, f, nr, nf)[i])
            } else {
                pseudo_legal_moves(p).contains(Move::plain(r, f, nr, nf))
            }
        }),
{
    let c = p.turn;
    assert(owner(p, r, f) == c);
    let nr = (r + c.pawn_direction()) as usize;
    let nf = (f + df) as usize;
    let caps = pawn_captures(p, r, f, df);
    let pm = pawn_moves(p, r, f);
    assert(piece_moves(p, r, f) == pm);
    let take = if nr == c.promotion_rank() {
        promotions(r, f, nr, nf)
    } else {
        seq![Move::plain(r, f, nr, nf)]
    };
    assert forall|i: int| 0 <= i < take.len() implies pseudo_legal_moves(p).contains(#[trigger] take[i]) by {
        let mv = take[i];
        assert(caps[i] == mv);
        assert(caps.contains(mv));
        if df == -1 {
            lemma_concat_contains(pawn_advances(p, r, f), caps, mv);
            lemma_concat_contains(pawn_advances(p, r, f) + caps, pawn_captures(p, r, f, 1), mv);
        } else {
            lemma_concat_contains(pawn_advances(p, r, f) + pawn_captures(p, r, f, -1), caps, mv);
        }
        lemma_piece_move_generated(p, r, f, mv);
    }
    if nr != c.promotion_rank() {
        assert(take[0] == Move::plain(r, f, nr, nf));
    }
}

proof fn lemma_knight_contains(p: Position, r: usize, f: usize, n: int, m: int, mv: Move)
    requires
        0 <= m < n <= 8,
        step_to(p, r, f, r + knight_dr(m), f + knight_df(m)).contains(mv),
    ensures
        knight_jumps(p, r, f, n).contains(mv),
    decreases n,
{
    if m < n - 1 {
        lemma_knight_contains(p, r, f, n - 1, m, mv);
    }
    lemma_concat_contains(knight_jumps(p, r, f, n - 1), step_to(p, r, f, r + knight_dr(n - 1), f + knight_df(n - 1)), mv);
}

proof fn lemma_king_contains(p: Position, r: usize, f: usize, n: int, m: int, mv: Move)
    requires
        0 <= m < n <= 8,
        step_to(p, r, f, r + king_dr(m), f + king_df(m)).contains(mv),
    ensures
        king_steps(p, r, f, n).contains(mv),
    decreases n,
{
    if m < n - 1 {
        lemma_king_contains(p, r, f, n - 1, m, mv);
    }
    lemma_concat_contains(king_steps(p, r, f, n - 1), step_to(p, r, f, r + king_dr(n - 1), f + king_df(n - 1)), mv);
}

proof fn lemma_ray_contains(p: Position, r: usize, f: usize, i: int, j: int, k: int)
    requires
        r < 8 && f < 8,
        p.at(r as int, f as int) is Some,
        1 <= j <= k < 8,
        in_bounds(along(r as int, dir_dr(i), k), along(f as int, dir_df(i), k)),
        p.at(along(r as int, dir_dr(i), k), along(f as int, dir_df(i), k)) matches Some(q) && q.color != owner(p, r, f),
        forall|m: int| j <= m < k ==> (#[trigger] ray_cell(p.grid, r as int, f as int, i, m)) is None,
    ensures
        ray_moves(p, r, f, i, j).contains(
            Move::plain(r, f, along(r as int, dir_dr(i), k) as usize, along(f as int, dir_df(i), k) as usize),
        ),
    decreases k - j,
{
    let target = Move::plain(r, f, along(r as int, dir_dr(i), k) as usize, along(f as int, dir_df(i), k) as usize);
    let tr = along(r as int, dir_dr(i), j);
    let tf = along(f as int, dir_df(i), j);
    assert(in_bounds(tr, tf));
    if j == k {
        assert(ray_moves(p, r, f, i, j)[0] == target);
    } else {
        assert(ray_cell(p.grid, r as int, f as int, i, j) is None);
        assert(p.at(tr, tf) is None);
        lemma_ray_contains(p, r, f, i, j + 1, k);
        lemma_concat_contains(seq![Move::plain(r, f, tr as usize, tf as usize)], ray_moves(p, r, f, i, j + 1), target);
    }
}

proof fn lemma_line_contains(p: Position, r: usize, f: usize, lo: int, n: int, i: int, mv: Move)
    requires
        lo <= i < n,
        ray_moves(p, r, f, i, 1).contains(mv),
    ensures
        line_moves(p, r, f, lo, n).contains(mv),
    decreases n - lo,
{
    if i < n - 1 {
        lemma_line_contains(p, r, f, lo, n - 1, i, mv);
    }
    lemma_concat_contains(line_moves(p, r, f, lo, n - 1), ray_moves(p, r, f, n - 1, 1), mv);
}

/// A slider of the side to move attacking an enemy piece along direction `i`
/// from the target has the capture among the generated moves.
proof fn lemma_slider_capture_generated(p: Position, tr: int, tf: int, i: int, t: PieceType)
    requires
        in_bounds(tr, tf),
        0 <= i < 8,
        t == line_kind(i),
        p.at(tr, tf) matches Some(q) && q.color != p.turn,
        attacked_along(p.grid, tr, tf, i, p.turn, t),
    ensures
        move_to(pseudo_legal_moves(p), tr, tf),
{
    let g = p.grid;
    let k = choose|k: int| #[trigger] slider_at(g, tr, tf, i, k, p.turn, t);
    let r = along(tr, dir_dr(i), k);
    let f = along(tf, dir_df(i), k);
    let ri = reverse_dir(i);
    assert(dir_dr(ri) == -dir_dr(i) && dir_df(ri) == -dir_df(i));
    assert(k < 8);
    assert(along(r, dir_dr(ri), k) == tr && along(f, dir_df(ri), k) == tf);
    assert(line_kind(ri) == t);
    let ru = r as usize;
    let fu = f as usize;
    assert(ray_cell(g, tr, tf, i, k) == p.at(r, f));
    assert(owner(p, ru, fu) == p.turn);
    assert forall|m: int| 1 <= m < k implies (#[trigger] ray_cell(g, r, f, ri, m)) is None by {
        assert(along(r, dir_dr(ri), m) == along(tr, dir_dr(i), k - m));
        assert(along(f, dir_df(ri), m) == along(tf, dir_df(i), k - m));
        assert(ray_cell(g, tr, tf, i, k - m) is None);
    }
    lemma_ray_contains(p, ru, fu, ri, 1, k);
    let mv = Move::plain(ru, fu, tr as usize, tf as usize);
    let pc = p.at(r, f).unwrap();
    if pc.piece_type == PieceType::Queen {
        lemma_line_contains(p, ru, fu, 0, 8, ri, mv);
    } else if i < 4 {
        lemma_line_contains(p, ru, fu, 0, 4, ri, mv);
    } else {
        lemma_line_contains(p, ru, fu, 4, 8, ri, mv);
    }
    assert(piece_moves(p, ru, fu).contains(mv));
    lemma_piece_move_generated(p, ru, fu, mv);
}

/// Generation is complete for captures: every enemy piece on a square the
/// side to move attacks (by a knight, king, pawn or slider) can be taken by
/// some generated move. Together with `lemma_legal_moves_hit_attacked`,
/// the capture targets of the generated moves are exactly the attacked
/// enemy squares.
pub proof fn lemma_attacked_squares_generated(p: Position, tr: int, tf: int)
    requires
        pawns_playable(p),
        in_bounds(tr, tf),
        p.at(tr, tf) matches Some(q) && q.color != p.turn,
        p.attacked_by(tr, tf, p.turn),
    ensures
        move_to(pseudo_legal_moves(p), tr, tf),
{
    let g = p.grid;
    let c = p.turn;
    if knight_attacks(g, tr, tf, c) {
        let i = choose|i: int| 0 <= i < 8 && #[trigger] holds(g, tr + knight_dr(i), tf + knight_df(i), c, PieceType::Knight);
        let r = (tr + knight_dr(i)) as usize;
        let f = (tf + knight_df(i)) as usize;
        let m = 7 - i;
        assert(knight_dr(m) == -knight_dr(i) && knight_df(m) == -knight_df(i));
        assert(owner(p, r, f) == c);
        let mv = Move::plain(r, f, tr as usize, tf as usize);
        assert(step_to(p, r, f, r + knight_dr(m), f + knight_df(m))[0] == mv);
        lemma_knight_contains(p, r, f, 8, m, mv);
        lemma_piece_move_generated(p, r, f, mv);
    } else if king_attacks(g, tr, tf, c) {
        let i = choose|i: int| 0 <= i < 8 && #[trigger] holds(g, tr + king_dr(i), tf + king_df(i), c, PieceType::King);
        let r = (tr + king_dr(i)) as usize;
        let f = (tf + king_df(i)) as usize;
        let m = 7 - i;
        assert(king_dr(m) == -king_dr(i) && king_df(m) == -king_df(i));
        assert(owner(p, r, f) == c);
        let mv = Move::plain(r, f, tr as usize, tf as usize);
        assert(step_to(p, r, f, r + king_dr(m), f + king_df(m))[0] == mv);
        lemma_king_contains(p, r, f, 8, m, mv);
        lemma_concat_contains(king_steps(p, r, f, 8), castling_moves(p, r, f), mv);
        lemma_piece_move_generated(p, r, f, mv);
    } else if pawn_attacks(g, tr, tf, c) {
        let pr = tr - c.pawn_direction();
        let df: int = if holds(g, pr, tf - 1, c, PieceType::Pawn) { 1 } else { -1 };
        let r = pr as usize;
        let f = (tf - df) as usize;
        assert(r != c.promotion_rank());
        lemma_pawn_captures_generated(p, r, f, df);
        let nr = (r + c.pawn_direction()) as usize;
        if nr == c.promotion_rank() {
            assert(pseudo_legal_moves(p).contains(promotions(r, f, nr, tf as usize)[0]));
        } else {
            assert(pseudo_legal_moves(p).contains(Move::plain(r, f, nr, tf as usize)));
        }
    } else if exists|i: int| 0 <= i < 4 && #[trigger] attacked_along(g, tr, tf, i, c, PieceType::Rook) {
        let i = choose|i: int| 0 <= i < 4 && #[trigger] attacked_along(g, tr, tf, i, c, PieceType::Rook);
        lemma_slider_capture_generated(p, tr, tf, i, PieceType::Rook);
    } else {
        let i = choose|i: int| 4 <= i < 8 && #[trigger] attacked_along(g, tr, tf, i, c, PieceType::Bishop);
        lemma_slider_capture_generated(p, tr, tf, i, PieceType::Bishop);
    }
}

} // verus!
