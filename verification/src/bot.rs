//! The chess bot: negamax search with alpha-beta pruning, quiescence search
//! over captures, and move ordering by captured and capturing value.

use vstd::prelude::*;
use crate::board::{Board, Position};
use crate::evaluation::{Evaluator, evaluation_for, lemma_evaluation_bounds};
use crate::moves::{
    Move, MoveGenerator, legal_moves, insufficient_material, basic_move, basic_from, made_from,
    well_made, clocks_room, lemma_well_made_move, lemma_wf_playable,
};
use crate::pieces::Color;
use crate::timer::{TimeSpan, clock_now, elapsed_since};
use std::time::Instant;

verus! {

/// Chess bot difficulty levels
#[derive(Debug, Clone, Copy, PartialEq, Eq, Structural)]
pub enum BotDifficulty {
    Easy,  // Depth 2
    Medium,  // Depth 3
    Hard,  // Depth 4
}

impl BotDifficulty {
    pub open spec fn spec_depth(self) -> u32 {
        match self {
            BotDifficulty::Easy => 2,
            BotDifficulty::Medium => 3,
            BotDifficulty::Hard => 4,
        }
    }

    #[verifier::when_used_as_spec(spec_depth)]
    pub fn depth(self) -> (d: u32)
        ensures
            d == self.spec_depth(),
    {
        match self {
            BotDifficulty::Easy => 2,
            BotDifficulty::Medium => 3,
            BotDifficulty::Hard => 4,
        }
    }

    pub fn name(self) -> (s: &'static str)
        ensures
            s@ == match self {
                BotDifficulty::Easy => "Easy"@,
                BotDifficulty::Medium => "Medium"@,
                BotDifficulty::Hard => "Hard"@,
            },
    {
        match self {
            BotDifficulty::Easy => "Easy",
            BotDifficulty::Medium => "Medium",
            BotDifficulty::Hard => "Hard",
        }
    }
}

/// The score of a mated side (before the depth bonus).
pub open spec fn checkmate_score() -> int {
    100000
}

/// The ordering key of `mv` (smaller first): a capture scores minus ten
/// times the victim's value plus the attacker's value, a promotion minus 800.
pub open spec fn order_key(p: Position, mv: Move) -> int {
    let capture = match p.at(mv.to_rank as int, mv.to_file as int) {
        Some(captured) => -(10 * captured.piece_type.value() - p.mover(mv).piece_type.value()),
        None => 0,
    };
    capture + if mv.promotion is Some {
        -800int
    } else {
        0int
    }
}

/// The ordering key of `mv` can be computed: its target is on the board,
/// and a move onto an occupied square starts from an occupied square.
pub open spec fn keyable(p: Position, mv: Move) -> bool {
    &&& mv.to_rank < 8 && mv.to_file < 8
    &&& p.at(mv.to_rank as int, mv.to_file as int) is Some ==> mv.from_rank < 8 && mv.from_file < 8
        && p.at(mv.from_rank as int, mv.from_file as int) is Some
}

/// Every move of `s` has a computable ordering key.
pub open spec fn all_keyable(p: Position, s: Seq<Move>) -> bool {
    forall|j: int| 0 <= j < s.len() ==> keyable(p, #[trigger] s[j])
}

/// Generated moves have computable keys.
proof fn lemma_basic_keyable(p: Position, s: Seq<Move>)
    requires
        basic_from(p, s, 0),
    ensures
        all_keyable(p, s),
{
    assert forall|j: int| 0 <= j < s.len() implies keyable(p, #[trigger] s[j]) by {
        assert(basic_move(p, s[j]));
    }
}

/// `x` inserted into `s` after every move whose key is not larger.
pub open spec fn insert_by_key(p: Position, s: Seq<Move>, x: Move) -> Seq<Move>
    decreases s.len(),
{
    if s.len() == 0 || order_key(p, s.last()) <= order_key(p, x) {
        s.push(x)
    } else {
        insert_by_key(p, s.drop_last(), x).push(s.last())
    }
}

/// `s` sorted by `order_key`, keeping the order of moves with equal keys
/// (a stable sort).
pub open spec fn sort_by_key(p: Position, s: Seq<Move>) -> Seq<Move>
    decreases s.len(),
{
    if s.len() == 0 {
        s
    } else {
        insert_by_key(p, sort_by_key(p, s.drop_last()), s.last())
    }
}

/// `mv` takes something: the target square is occupied, or it is en passant.
pub open spec fn is_capture(p: Position, mv: Move) -> bool {
    p.at(mv.to_rank as int, mv.to_file as int) is Some || mv.is_en_passant
}

/// The captures of `s`, in order.
pub open spec fn captures_in(p: Position, s: Seq<Move>) -> Seq<Move>
    decreases s.len(),
{
    if s.len() == 0 {
        s
    } else {
        let rest = captures_in(p, s.drop_last());
        if is_capture(p, s.last()) {
            rest.push(s.last())
        } else {
            rest
        }
    }
}

/// The moves the search tries, in the order it tries them.
pub open spec fn search_moves(p: Position) -> Seq<Move> {
    sort_by_key(p, legal_moves(p))
}

/// The captures the quiescence search tries, in order.
pub open spec fn capture_moves(p: Position) -> Seq<Move> {
    sort_by_key(p, captures_in(p, legal_moves(p)))
}

/// `v` held to the window `[alpha, beta]`.
pub open spec fn clamp(v: int, alpha: int, beta: int) -> int {
    if v <= alpha {
        alpha
    } else if v >= beta {
        beta
    } else {
        v
    }
}

pub open spec fn max(a: int, b: int) -> int {
    if a >= b {
        a
    } else {
        b
    }
}

/// Below every score.
pub open spec fn bottom() -> int {
    i32::MIN as int
}

/// The quiescence value of `p` with `d` plies of captures left: the static
/// evaluation for the side to move, or better if a capture gains more.
pub open spec fn quiet_value(p: Position, d: int) -> int
    decreases d, capture_moves(p).len() + 1,
{
    if d <= 0 {
        evaluation_for(p, p.turn)
    } else {
        quiet_best(p, capture_moves(p), d)
    }
}

/// The better of standing pat and the captures of `s`.
pub open spec fn quiet_best(p: Position, s: Seq<Move>, d: int) -> int
    decreases d, s.len(),
{
    if s.len() == 0 || d <= 0 {
        evaluation_for(p, p.turn)
    } else {
        max(quiet_best(p, s.drop_last(), d), -quiet_value(p.play(s.last()), d - 1))
    }
}

/// The negamax value of `p` searched `d` plies deep: mate is worth
/// `-(100000 + d)` to the mated side, stalemate, insufficient material and
/// the fifty-move rule 0, the horizon the quiescence value (4 plies of
/// captures), otherwise the best of the moves.
pub open spec fn game_value(p: Position, d: nat) -> int
    decreases d, search_moves(p).len() + 1,
{
    if legal_moves(p).len() == 0 {
        if p.in_check(p.turn) {
            -(checkmate_score() + d)
        } else {
            0
        }
    } else if insufficient_material(p) || p.halfmove >= 100 {
        0
    } else if d == 0 {
        quiet_value(p, 4)
    } else {
        game_best(p, search_moves(p), d)
    }
}

/// The best negated value of the positions after the moves of `s`.
pub open spec fn game_best(p: Position, s: Seq<Move>, d: nat) -> int
    decreases d, s.len(),
{
    if s.len() == 0 || d == 0 {
        bottom()
    } else {
        max(game_best(p, s.drop_last(), d), -game_value(p.play(s.last()), (d - 1) as nat))
    }
}

/// `p` is decided without search: no legal move, or a draw by material or
/// by the fifty-move rule.
pub open spec fn settled(p: Position) -> bool {
    legal_moves(p).len() == 0 || insufficient_material(p) || p.halfmove >= 100
}

/// What the alpha-beta search of `p`, `d` plies deep in window
/// `(alpha, beta)`, answers: a settled position's exact value, otherwise the
/// negamax value held to the window.
pub open spec fn search_score(p: Position, d: nat, alpha: int, beta: int) -> int {
    if settled(p) {
        game_value(p, d)
    } else {
        clamp(game_value(p, d), alpha, beta)
    }
}

/// What the quiescence search of `p` with `d` plies left answers in window
/// `(alpha, beta)`.
pub open spec fn quiet_score(p: Position, d: int, alpha: int, beta: int) -> int {
    if d <= 0 {
        evaluation_for(p, p.turn)
    } else {
        clamp(quiet_value(p, d), alpha, beta)
    }
}


/// Positions without a legal move are decided by check alone: stalemate
/// is a draw, worth 0 at every depth, and checkmate is worth minus the
/// checkmate score (more the sooner it comes) to the mated side, below any
/// evaluation of a position with one king per side.
pub proof fn lemma_terminal_values(p: Position, d: nat)
    requires
        legal_moves(p).len() == 0,
    ensures
        !p.in_check(p.turn) ==> game_value(p, d) == 0,
        p.in_check(p.turn) ==> game_value(p, d) == -(100000 + d),
        p.in_check(p.turn) ==> game_value(p, d) <= -100000,
        settled(p),
{
}

/// The root's pick among the moves of `s`: the first move whose negated
/// full-window search score beats the best so far (starting from
/// `best_score` and `best_move`).
pub open spec fn root_fold(p: Position, s: Seq<Move>, d: nat, best_score: int, best_move: Move) -> (int, Move)
    decreases s.len(),
{
    if s.len() == 0 {
        (best_score, best_move)
    } else {
        let prev = root_fold(p, s.drop_last(), d, best_score, best_move);
        let score = -search_score(p.play(s.last()), d, i32::MIN + 1, i32::MAX as int);
        if score > prev.0 {
            (score, s.last())
        } else {
            prev
        }
    }
}

/// The move the bot picks when its search runs to the end: searching each
/// move `depth - 1` plies deep, the first with the best score (the first
/// legal move if none beats the lowest score).
pub open spec fn root_choice(p: Position, depth: u32) -> Move {
    root_fold(p, search_moves(p), (depth - 1) as nat, i32::MIN + 1, legal_moves(p)[0]).1
}

/// Longer prefixes of the moves never lower the best value.
proof fn lemma_game_best_prefix(p: Position, s: Seq<Move>, k: int, d: nat)
    requires
        0 <= k <= s.len(),
    ensures
        game_best(p, s, d) >= game_best(p, s.take(k), d),
    decreases s.len(),
{
    if k == s.len() {
        assert(s.take(k) =~= s);
    } else {
        lemma_game_best_prefix(p, s.drop_last(), k, d);
        assert(s.drop_last().take(k) =~= s.take(k));
    }
}

/// Longer prefixes of the captures never lower the quiescence value.
proof fn lemma_quiet_best_prefix(p: Position, s: Seq<Move>, k: int, d: int)
    requires
        0 <= k <= s.len(),
    ensures
        quiet_best(p, s, d) >= quiet_best(p, s.take(k), d),
    decreases s.len(),
{
    if k == s.len() {
        assert(s.take(k) =~= s);
    } else {
        lemma_quiet_best_prefix(p, s.drop_last(), k, d);
        assert(s.drop_last().take(k) =~= s.take(k));
    }
}

/// `s` is in order of `order_key`.
pub open spec fn ordered_by_key(p: Position, s: Seq<Move>) -> bool {
    forall|i: int, j: int| 0 <= i <= j < s.len() ==> order_key(p, #[trigger] s[i]) <= order_key(p, #[trigger] s[j])
}

/// Inserting into an ordered sequence keeps it ordered and adds exactly `x`.
proof fn lemma_insert_by_key(p: Position, s: Seq<Move>, x: Move)
    requires
        ordered_by_key(p, s),
    ensures
        ordered_by_key(p, insert_by_key(p, s, x)),
        insert_by_key(p, s, x).to_multiset() =~= s.to_multiset().insert(x),
        insert_by_key(p, s, x).len() == s.len() + 1,
        forall|i: int| 0 <= i < insert_by_key(p, s, x).len() ==> (#[trigger] insert_by_key(p, s, x)[i] == x
            || s.contains(insert_by_key(p, s, x)[i])),
    decreases s.len(),
{
    broadcast use vstd::seq_lib::group_to_multiset_ensures;
    if s.len() == 0 || order_key(p, s.last()) <= order_key(p, x) {
        let r = s.push(x);
        assert forall|i: int, j: int| 0 <= i <= j < r.len() implies order_key(p, #[trigger] r[i]) <= order_key(p, #[trigger] r[j]) by {
            if j == s.len() && i < s.len() {
                assert(order_key(p, s[i]) <= order_key(p, s[s.len() - 1]));
            }
        }
        assert forall|i: int| 0 <= i < r.len() implies (#[trigger] r[i] == x || s.contains(r[i])) by {
            if i < s.len() {
                assert(s[i] == r[i]);
            }
        }
    } else {
        let rest = s.drop_last();
        let y = s.last();
        assert(ordered_by_key(p, rest));
        lemma_insert_by_key(p, rest, x);
        let t = insert_by_key(p, rest, x);
        let r = t.push(y);
        assert(s =~= rest.push(y));
        assert forall|i: int| 0 <= i < t.len() implies order_key(p, #[trigger] t[i]) <= order_key(p, y) by {
            if t[i] != x {
                let k = choose|k: int| 0 <= k < rest.len() && rest[k] == t[i];
                assert(s[k] == t[i]);
            }
        }
        assert forall|i: int, j: int| 0 <= i <= j < r.len() implies order_key(p, #[trigger] r[i]) <= order_key(p, #[trigger] r[j]) by {
            if j == t.len() && i < t.len() {
                assert(r[i] == t[i]);
            }
        }
        assert forall|i: int| 0 <= i < r.len() implies (#[trigger] r[i] == x || s.contains(r[i])) by {
            if i < t.len() {
                assert(r[i] == t[i]);
                if t[i] != x {
                    let k = choose|k: int| 0 <= k < rest.len() && rest[k] == t[i];
                    assert(s[k] == t[i]);
                }
            } else {
                assert(s[s.len() - 1] == y);
            }
        }
    }
}

/// The move ordering sorts by key: the result is in key order (captures of
/// valuable pieces by cheap ones and promotions first) and holds exactly
/// the given moves.
pub proof fn lemma_sort_orders_moves(p: Position, s: Seq<Move>)
    ensures
        ordered_by_key(p, sort_by_key(p, s)),
        sort_by_key(p, s).to_multiset() =~= s.to_multiset(),
        sort_by_key(p, s).len() == s.len(),
    decreases s.len(),
{
    broadcast use vstd::seq_lib::group_to_multiset_ensures;
    if s.len() > 0 {
        lemma_sort_orders_moves(p, s.drop_last());
        lemma_insert_by_key(p, sort_by_key(p, s.drop_last()), s.last());
        assert(s =~= s.drop_last().push(s.last()));
    }
}

/// Quiescence values stay within the evaluation bounds.
proof fn lemma_quiet_bounds(p: Position, d: int)
    ensures
        -1300000 <= quiet_value(p, d) <= 1300000,
    decreases d, capture_moves(p).len() + 1,
{
    lemma_evaluation_bounds(p, p.turn);
    if d > 0 {
        lemma_quiet_best_bounds(p, capture_moves(p), d);
    }
}

proof fn lemma_quiet_best_bounds(p: Position, s: Seq<Move>, d: int)
    ensures
        -1300000 <= quiet_best(p, s, d) <= 1300000,
    decreases d, s.len(),
{
    lemma_evaluation_bounds(p, p.turn);
    if s.len() > 0 && d > 0 {
        lemma_quiet_best_bounds(p, s.drop_last(), d);
        lemma_quiet_bounds(p.play(s.last()), d - 1);
    }
}

/// Negamax values stay within the evaluation bounds (mate scores included).
proof fn lemma_game_bounds(p: Position, d: nat)
    requires
        d <= 1000,
    ensures
        -1300000 <= game_value(p, d) <= 1300000,
    decreases d, search_moves(p).len() + 1,
{
    if legal_moves(p).len() > 0 && !(insufficient_material(p) || p.halfmove >= 100) {
        if d == 0 {
            lemma_quiet_bounds(p, 4);
        } else {
            lemma_sort_orders_moves(p, legal_moves(p));
            lemma_game_best_bounds(p, search_moves(p), d);
        }
    }
}

proof fn lemma_game_best_bounds(p: Position, s: Seq<Move>, d: nat)
    requires
        1 <= d <= 1000,
        s.len() >= 1,
    ensures
        -1300000 <= game_best(p, s, d) <= 1300000,
    decreases d, s.len(),
{
    let rest = s.drop_last();
    let v = -game_value(p.play(s.last()), (d - 1) as nat);
    lemma_game_bounds(p.play(s.last()), (d - 1) as nat);
    assert(game_best(p, s, d) == max(game_best(p, rest, d), v));
    if s.len() > 1 {
        lemma_game_best_bounds(p, rest, d);
    } else {
        assert(rest.len() == 0);
        assert(game_best(p, rest, d) == bottom());
    }
}

/// The score the root gives `mv`: the negated full-window search of the
/// position after it.
pub open spec fn root_score(p: Position, mv: Move, d: nat) -> int {
    -search_score(p.play(mv), d, i32::MIN + 1, i32::MAX as int)
}

/// The root's pick scores the best of `s` and is one of its moves.
proof fn lemma_root_fold(p: Position, s: Seq<Move>, d: nat, base: int, m0: Move)
    requires
        forall|j: int| 0 <= j < s.len() ==> root_score(p, #[trigger] s[j], d) > base,
    ensures
        s.len() == 0 ==> root_fold(p, s, d, base, m0) == (base, m0),
        s.len() > 0 ==> {
            let r = root_fold(p, s, d, base, m0);
            &&& s.contains(r.1)
            &&& r.0 == root_score(p, r.1, d)
            &&& forall|j: int| 0 <= j < s.len() ==> root_score(p, #[trigger] s[j], d) <= r.0
        },
    decreases s.len(),
{
    if s.len() > 0 {
        let rest = s.drop_last();
        lemma_root_fold(p, rest, d, base, m0);
        assert(s[s.len() - 1] == s.last());
        let prev = root_fold(p, rest, d, base, m0);
        if rest.len() > 0 {
            let k = choose|k: int| 0 <= k < rest.len() && rest[k] == prev.1;
            assert(s[k] == prev.1);
        }
        assert forall|j: int| 0 <= j < s.len() implies root_score(p, #[trigger] s[j], d) <= root_fold(
            p,
            s,
            d,
            base,
            m0,
        ).0 by {
            if j < s.len() - 1 {
                assert(rest[j] == s[j]);
            }
        }
    }
}

/// With the evaluation bounds, the full window never clips a score: the
/// root's score of a move is the negated negamax value after it.
proof fn lemma_root_score_exact(p: Position, mv: Move, d: nat)
    requires
        d <= 1000,
    ensures
        root_score(p, mv, d) == -game_value(p.play(mv), d),
{
    lemma_game_bounds(p.play(mv), d);
}

/// The moves searched at the root are exactly the legal moves.
proof fn lemma_search_moves_are_legal(p: Position, mv: Move)
    ensures
        search_moves(p).contains(mv) <==> legal_moves(p).contains(mv),
{
    broadcast use vstd::seq_lib::group_to_multiset_ensures;
    lemma_sort_orders_moves(p, legal_moves(p));
    assert(search_moves(p).to_multiset().count(mv) == legal_moves(p).to_multiset().count(mv));
}

/// When its search runs to the end, the bot plays a legal move with the
/// best negamax value: no legal move leaves the opponent a lower value
/// `depth - 1` plies deep.
pub proof fn lemma_bot_plays_best(p: Position, depth: u32)
    requires
        1 <= depth <= 1001,
        legal_moves(p).len() > 0,
    ensures
        legal_moves(p).contains(root_choice(p, depth)),
        forall|mv: Move|
            #[trigger] legal_moves(p).contains(mv) ==> -game_value(p.play(mv), (depth - 1) as nat)
                <= -game_value(p.play(root_choice(p, depth)), (depth - 1) as nat),
{
    let d = (depth - 1) as nat;
    let s = search_moves(p);
    let m0 = legal_moves(p)[0];
    assert forall|j: int| 0 <= j < s.len() implies root_score(p, #[trigger] s[j], d) > i32::MIN + 1 by {
        lemma_root_score_exact(p, s[j], d);
        lemma_game_bounds(p.play(s[j]), d);
    }
    lemma_root_fold(p, s, d, i32::MIN + 1, m0);
    let r = root_fold(p, s, d, i32::MIN + 1, m0);
    assert(legal_moves(p).contains(m0));
    lemma_search_moves_are_legal(p, m0);
    assert(s.len() > 0);
    assert(r.1 == root_choice(p, depth));
    lemma_search_moves_are_legal(p, r.1);
    lemma_root_score_exact(p, r.1, d);
    assert forall|mv: Move| #[trigger] legal_moves(p).contains(mv) implies -game_value(p.play(mv), d)
        <= -game_value(p.play(r.1), d) by {
        lemma_search_moves_are_legal(p, mv);
        let j = choose|j: int| 0 <= j < s.len() && s[j] == mv;
        lemma_root_score_exact(p, mv, d);
        assert(root_score(p, s[j], d) <= r.0);
    }
}

/// The bot stalemates its opponent only when no legal move is worth more
/// than a draw to it: a won position is never thrown away into stalemate.
pub proof fn lemma_bot_avoids_stalemate(p: Position, depth: u32)
    requires
        1 <= depth <= 1001,
        legal_moves(p).len() > 0,
        legal_moves(p.play(root_choice(p, depth))).len() == 0,
        !p.play(root_choice(p, depth)).in_check(p.play(root_choice(p, depth)).turn),
    ensures
        forall|mv: Move|
            #[trigger] legal_moves(p).contains(mv) ==> -game_value(p.play(mv), (depth - 1) as nat) <= 0,
{
    lemma_bot_plays_best(p, depth);
    lemma_terminal_values(p.play(root_choice(p, depth)), (depth - 1) as nat);
}

/// Search result for a position
enum SearchResult {
    /// Normal score
    Score(i32),
    /// Time ran out, result is unreliable
    Timeout,
}

/// Chess bot using negamax with alpha-beta pruning
pub struct ChessBot {
    difficulty: BotDifficulty,
    nodes_searched: u64,
    time_limit: TimeSpan,
    timed_out: bool,
}

impl ChessBot {
    pub closed spec fn spec_difficulty(&self) -> BotDifficulty {
        self.difficulty
    }

    pub closed spec fn spec_nodes(&self) -> u64 {
        self.nodes_searched
    }

    pub closed spec fn spec_time_limit(&self) -> TimeSpan {
        self.time_limit
    }

    /// The last search ran out of time.
    pub closed spec fn spec_timed_out(&self) -> bool {
        self.timed_out
    }

    pub fn new(difficulty: BotDifficulty) -> (b: Self)
        ensures
            b.spec_difficulty() == difficulty,
            b.spec_nodes() == 0,
            b.spec_time_limit().nanos == 10_000_000_000,
            !b.spec_timed_out(),
    {
        ChessBot {
            difficulty,
            nodes_searched: 0,
            time_limit: TimeSpan::from_secs(10),
            timed_out: false,
        }
    }

    pub fn set_time_limit(&mut self, limit: TimeSpan)
        ensures
            final(self).spec_time_limit() == limit,
            final(self).spec_difficulty() == old(self).spec_difficulty(),
            final(self).spec_nodes() == old(self).spec_nodes(),
            final(self).spec_timed_out() == old(self).spec_timed_out(),
    {
        self.time_limit = limit;
    }

    pub fn nodes_searched(&self) -> (n: u64)
        ensures
            n == self.spec_nodes(),
    {
        self.nodes_searched
    }

    /// The ordering key of `mv`.
    fn move_key(board: &Board, mv: &Move) -> (k: i32)
        requires
            keyable(board@, *mv),
        ensures
            k == order_key(board@, *mv),
    {
        let mut score: i32 = 0;
        // Captures are good (MVV-LVA: Most Valuable Victim - Least Valuable Attacker)
        if let Some(captured) = board.get(mv.to_rank, mv.to_file) {
            let attacker = board.get(mv.from_rank, mv.from_file).unwrap();
            score -= 10 * captured.piece_type.value() - attacker.piece_type.value();
        }
        // Promotions are good
        if mv.promotion.is_some() {
            score -= 800;
        }
        score
    }

    /// The captures among `moves`, in order.
    fn select_captures(board: &Board, moves: &Vec<Move>) -> (caps: Vec<Move>)
        requires
            basic_from(board@, moves@, 0),
        ensures
            caps@ == captures_in(board@, moves@),
            basic_from(board@, caps@, 0),
            made_from(board@, moves@, 0) ==> made_from(board@, caps@, 0),
    {
        let ghost p = board@;
        let mut caps: Vec<Move> = Vec::new();
        let mut i: usize = 0;
        while i < moves.len()
            invariant
                p == board@,
                i <= moves@.len(),
                basic_from(p, moves@, 0),
                caps@ == captures_in(p, moves@.take(i as int)),
                basic_from(p, caps@, 0),
                made_from(p, moves@, 0) ==> made_from(p, caps@, 0),
            decreases moves@.len() - i,
        {
            let mv = moves[i];
            assert(basic_move(p, mv));
            if board.get(mv.to_rank, mv.to_file).is_some() || mv.is_en_passant {
                caps.push(mv);
            }
            assert(moves@.take(i + 1).drop_last() =~= moves@.take(i as int));
            i += 1;
        }
        assert(moves@.take(moves@.len() as int) =~= moves@);
        caps
    }

    /// The clock check made every 1024 nodes: the search has run longer
    /// than the time limit. How long it has run is read from the clock, so
    /// the answer is stated only as far as it holds for every reading: never
    /// between two checks, and never with the largest time limit.
    fn out_of_time(&self, start_time: &Instant) -> (b: bool)
        ensures
            self.nodes_searched % 1024 != 0 ==> !b,
            self.time_limit.nanos == u128::MAX ==> !b,
    {
        self.time_is_up(elapsed_since(start_time))
    }

    /// The clock check on `elapsed` time since the search began: at every
    /// 1024th node, whether `elapsed` exceeds the time limit.
    fn time_is_up(&self, elapsed: TimeSpan) -> (b: bool)
        ensures
            b == (self.nodes_searched % 1024 == 0 && elapsed.nanos > self.time_limit.nanos),
    {
        let n = self.nodes_searched;
        assert(n & 1023 == n % 1024) by (bit_vector);
        n & 1023 == 0 && elapsed.nanos > self.time_limit.nanos
    }

    /// Find the best move for the current position
    pub fn find_best_move(&mut self, board: &Board) -> (r: Option<Move>)
        requires
            board@.wf(),
            clocks_room(board@, 9),
        ensures
            (r is None) == (legal_moves(board@).len() == 0),
            r matches Some(mv) ==> legal_moves(board@).contains(mv) && well_made(board@, mv),
            !final(self).spec_timed_out() ==> (r matches Some(mv) ==> mv == root_choice(
                board@,
                old(self).spec_difficulty().depth(),
            )),
            !final(self).spec_timed_out() ==> (r matches Some(mv) ==> forall|other: Move|
                #[trigger] legal_moves(board@).contains(other) ==> -game_value(
                    board@.play(other),
                    (old(self).spec_difficulty().depth() - 1) as nat,
                ) <= -game_value(board@.play(mv), (old(self).spec_difficulty().depth() - 1) as nat)),
            final(self).spec_difficulty() == old(self).spec_difficulty(),
            final(self).spec_time_limit() == old(self).spec_time_limit(),
            old(self).spec_time_limit().nanos == u128::MAX ==> !final(self).spec_timed_out(),
            r is None ==> final(self).spec_nodes() == 0 && !final(self).spec_timed_out(),
    {
        let ghost p = board@;
        self.nodes_searched = 0;
        self.timed_out = false;
        let start_time = clock_now();
        proof {
            lemma_wf_playable(p);
        }
        let moves = MoveGenerator::generate_legal_moves(board);
        if moves.len() == 0 {
            return None;
        }
        let depth = self.difficulty.depth();
        let ghost d = (depth - 1) as nat;
        let mut best_move = moves[0];
        let mut best_score: i32 = i32::MIN + 1;
        let ghost first = moves@[0];
        assert(legal_moves(p).contains(first));
        assert(well_made(p, first));
        // Order moves for better pruning (captures first)
        let mut ordered_moves = moves;
        proof {
            lemma_basic_keyable(board@, ordered_moves@);
        }
        Self::order_moves(board, &mut ordered_moves);
        assert(ordered_moves@.take(0) =~= Seq::<Move>::empty());
        let mut work = Board {
            squares: board.squares,
            current_turn: board.current_turn,
            castling_rights: board.castling_rights,
            en_passant: board.en_passant,
            halfmove_clock: board.halfmove_clock,
            fullmove_number: board.fullmove_number,
            undo_stack: Vec::new(),
            king_positions: board.king_positions,
        };
        assert(work@ =~~= p);
        let mut i: usize = 0;
        let mut stop = false;
        while !stop && i < ordered_moves.len()
            invariant
                p == work@,
                p == board@,
                p.wf(),
                clocks_room(p, 9),
                2 <= depth <= 4,
                d == depth - 1,
                ordered_moves@ == search_moves(p),
                made_from(p, ordered_moves@, 0),
                forall|j: int| 0 <= j < ordered_moves@.len() ==> legal_moves(p).contains(#[trigger] ordered_moves@[j]),
                legal_moves(p).contains(best_move),
                well_made(p, best_move),
                first == legal_moves(p)[0],
                i <= ordered_moves@.len(),
                !stop ==> !self.timed_out,
                !stop ==> root_fold(p, ordered_moves@.take(i as int), d, i32::MIN + 1, first) == (best_score as int, best_move),
                stop ==> self.timed_out,
                self.difficulty == old(self).difficulty,
                self.time_limit == old(self).time_limit,
                self.timed_out ==> self.time_limit.nanos < u128::MAX,
            decreases ordered_moves@.len() - i + (if stop { 0int } else { 1int }),
        {
            let mv = ordered_moves[i];
            let ghost b0 = work;
            let ghost stack = work.undo_stack@;
            assert(well_made(p, mv));
            assert(legal_moves(p).contains(mv));
            proof {
                lemma_well_made_move(p, mv);
                crate::board::lemma_undo_restores(b0, mv);
            }
            work.make_move(mv);
            let result = self.negamax(&mut work, depth - 1, i32::MIN + 1, i32::MAX, start_time);
            work.undo_move();
            assert(work@ == p);
            assert(ordered_moves@.take(i + 1).drop_last() =~= ordered_moves@.take(i as int));
            if self.timed_out {
                stop = true;
            } else {
                match result {
                    SearchResult::Score(s) => {
                        let score = -s;
                        if score > best_score {
                            best_score = score;
                            best_move = mv;
                        }
                    },
                    SearchResult::Timeout => {},
                }
                i += 1;
            }
        }
        proof {
            if !self.timed_out {
                assert(ordered_moves@.take(ordered_moves@.len() as int) =~= ordered_moves@);
                lemma_bot_plays_best(p, depth);
            }
        }
        Some(best_move)
    }

    /// Negamax with alpha-beta pruning (uses make/undo instead of cloning)
    fn negamax(
        &mut self,
        board: &mut Board,
        depth: u32,
        alpha: i32,
        beta: i32,
        start_time: Instant,
    ) -> (r: SearchResult)
        requires
            old(board)@.wf(),
            clocks_room(old(board)@, (depth + 5) as nat),
            depth <= 1000,
            i32::MIN < alpha < beta,
        ensures
            final(board)@ == old(board)@,
            final(board).undo_stack@ == old(board).undo_stack@,
            final(self).difficulty == old(self).difficulty,
            final(self).time_limit == old(self).time_limit,
            r matches SearchResult::Score(s) ==> !final(self).timed_out && s == search_score(
                old(board)@,
                depth as nat,
                alpha as int,
                beta as int,
            ) && s > i32::MIN,
            r is Timeout ==> final(self).timed_out,
            final(self).timed_out ==> old(self).timed_out || old(self).time_limit.nanos < u128::MAX,
        decreases depth,
    {
        let ghost p = board@;
        let ghost stack = board.undo_stack@;
        let ghost d = depth as nat;
        self.nodes_searched = self.nodes_searched.wrapping_add(1);
        // Time check every 1024 nodes to reduce overhead
        if self.out_of_time(&start_time) {
            self.timed_out = true;
            return SearchResult::Timeout;
        }
        if self.timed_out {
            return SearchResult::Timeout;
        }
        proof {
            lemma_wf_playable(p);
        }
        // Generate the legal moves once; the end checks below reuse them
        let moves = MoveGenerator::generate_legal_moves(board);
        if moves.len() == 0 {
            if board.is_in_check(board.current_turn) {
                return SearchResult::Score(-(Evaluator::CHECKMATE_SCORE + depth as i32));
            }
            return SearchResult::Score(0);  // Stalemate
        }
        // Draw checks
        if MoveGenerator::is_insufficient_material(board) || MoveGenerator::is_fifty_move_draw(board) {
            return SearchResult::Score(0);
        }
        // Leaf node — use quiescence search
        if depth == 0 {
            let score = self.quiescence_search(board, alpha, beta, 4, start_time);
            return match score {
                SearchResult::Score(s) => SearchResult::Score(s),
                SearchResult::Timeout => SearchResult::Timeout,
            };
        }
        // Order moves for better pruning
        let mut ordered_moves = moves;
        proof {
            lemma_basic_keyable(board@, ordered_moves@);
        }
        Self::order_moves(board, &mut ordered_moves);
        assert(ordered_moves@ == search_moves(p));
        assert(ordered_moves@.take(0) =~= Seq::<Move>::empty());
        let mut alpha = alpha;
        let ghost alpha0 = alpha as int;
        let mut i: usize = 0;
        let mut stop = false;
        let mut timed_out = false;
        while !stop && i < ordered_moves.len()
            invariant
                p == board@,
                stack == board.undo_stack@,
                p.wf(),
                d == depth,
                depth >= 1,
                depth <= 1000,
                clocks_room(p, (depth + 5) as nat),
                !settled(p),
                ordered_moves@ == search_moves(p),
                made_from(p, ordered_moves@, 0),
                i <= ordered_moves@.len(),
                i32::MIN < alpha0,
                alpha0 <= alpha <= beta,
                !stop ==> alpha < beta,
                !stop ==> alpha == max(alpha0, game_best(p, ordered_moves@.take(i as int), d)),
                !stop ==> game_best(p, ordered_moves@.take(i as int), d) < beta,
                stop && !timed_out ==> alpha == beta && game_value(p, d) >= beta,
                timed_out ==> stop,
                timed_out == self.timed_out,
                self.difficulty == old(self).difficulty,
                self.time_limit == old(self).time_limit,
                self.timed_out ==> old(self).timed_out || self.time_limit.nanos < u128::MAX,
            decreases ordered_moves@.len() - i + (if stop { 0int } else { 1int }),
        {
            let mv = ordered_moves[i];
            let ghost b0 = *board;
            assert(well_made(p, mv));
            proof {
                lemma_well_made_move(p, mv);
                crate::board::lemma_undo_restores(b0, mv);
            }
            board.make_move(mv);
            let ghost q = p.play(mv);
            let result = self.negamax(board, depth - 1, -beta, -alpha, start_time);
            board.undo_move();
            assert(board@ == p);
            assert(board.undo_stack@ =~= stack);
            let ghost v = game_value(q, (d - 1) as nat);
            assert(ordered_moves@.take(i + 1).drop_last() =~= ordered_moves@.take(i as int));
            assert(game_best(p, ordered_moves@.take(i + 1), d) == max(game_best(p, ordered_moves@.take(i as int), d), -v));
            match result {
                SearchResult::Timeout => {
                    timed_out = true;
                    stop = true;
                },
                SearchResult::Score(s) => {
                    let score = -s;
                    if score >= beta {
                        proof {
                            lemma_game_best_prefix(p, ordered_moves@, i + 1, d);
                        }
                        alpha = beta;
                        stop = true;
                    } else {
                        if score > alpha {
                            alpha = score;
                        }
                        i += 1;
                    }
                },
            }
        }
        if timed_out {
            return SearchResult::Timeout;
        }
        assert(ordered_moves@.take(ordered_moves@.len() as int) =~= ordered_moves@);
        SearchResult::Score(alpha)
    }

    /// Quiescence search to handle tactical positions (captures only)
    fn quiescence_search(
        &mut self,
        board: &mut Board,
        alpha: i32,
        beta: i32,
        depth: i32,
        start_time: Instant,
    ) -> (r: SearchResult)
        requires
            old(board)@.wf(),
            depth > 0 ==> clocks_room(old(board)@, (depth + 1) as nat),
            i32::MIN < alpha < beta,
        ensures
            final(board)@ == old(board)@,
            final(board).undo_stack@ == old(board).undo_stack@,
            final(self).difficulty == old(self).difficulty,
            final(self).time_limit == old(self).time_limit,
            old(self).timed_out ==> final(self).timed_out && (r matches SearchResult::Score(s) && s
                == evaluation_for(old(board)@, old(board)@.turn)),
            depth <= 0 ==> final(self).timed_out == old(self).timed_out && (r matches SearchResult::Score(s)
                && s == evaluation_for(old(board)@, old(board)@.turn)),
            !old(self).timed_out ==> (r matches SearchResult::Score(s) ==> !final(self).timed_out && s
                == quiet_score(old(board)@, depth as int, alpha as int, beta as int) && s > i32::MIN),
            r is Timeout ==> final(self).timed_out,
            final(self).timed_out ==> old(self).timed_out || old(self).time_limit.nanos < u128::MAX,
        decreases depth,
    {
        let ghost p = board@;
        let ghost stack = board.undo_stack@;
        let ghost d = depth as int;
        self.nodes_searched = self.nodes_searched.wrapping_add(1);
        if self.timed_out || depth <= 0 {
            return SearchResult::Score(Evaluator::evaluate_absolute_for(board, board.current_turn));
        }
        // Time check
        if self.out_of_time(&start_time) {
            self.timed_out = true;
            return SearchResult::Timeout;
        }
        let stand_pat = Evaluator::evaluate_absolute_for(board, board.current_turn);
        proof {
            lemma_quiet_best_prefix(p, capture_moves(p), 0, d);
            assert(capture_moves(p).take(0) =~= Seq::<Move>::empty());
            lemma_wf_playable(p);
        }
        if stand_pat >= beta {
            return SearchResult::Score(beta);
        }
        let mut alpha = alpha;
        let ghost alpha0 = alpha as int;
        if stand_pat > alpha {
            alpha = stand_pat;
        }
        // Only search captures
        let moves = MoveGenerator::generate_legal_moves(board);
        let mut captures = Self::select_captures(board, &moves);
        // Order captures by MVV-LVA
        proof {
            lemma_basic_keyable(board@, captures@);
        }
        Self::order_moves(board, &mut captures);
        assert(captures@ == capture_moves(p));
        assert(captures@.take(0) =~= Seq::<Move>::empty());
        let mut i: usize = 0;
        let mut stop = false;
        let mut timed_out = false;
        while !stop && i < captures.len()
            invariant
                p == board@,
                stack == board.undo_stack@,
                p.wf(),
                d == depth,
                depth > 0,
                clocks_room(p, (depth + 1) as nat),
                captures@ == capture_moves(p),
                made_from(p, captures@, 0),
                i <= captures@.len(),
                i32::MIN < alpha0,
                alpha0 <= alpha <= beta,
                !stop ==> alpha < beta,
                !stop ==> alpha == max(alpha0, quiet_best(p, captures@.take(i as int), d)),
                !stop ==> quiet_best(p, captures@.take(i as int), d) < beta,
                stop && !timed_out ==> alpha == beta && quiet_value(p, d) >= beta,
                timed_out ==> stop,
                timed_out == self.timed_out,
                self.difficulty == old(self).difficulty,
                self.time_limit == old(self).time_limit,
                self.timed_out ==> old(self).timed_out || self.time_limit.nanos < u128::MAX,
            decreases captures@.len() - i + (if stop { 0int } else { 1int }),
        {
            let mv = captures[i];
            let ghost b0 = *board;
            assert(well_made(p, mv));
            proof {
                lemma_well_made_move(p, mv);
                crate::board::lemma_undo_restores(b0, mv);
            }
            board.make_move(mv);
            let ghost q = p.play(mv);
            let result = self.quiescence_search(board, -beta, -alpha, depth - 1, start_time);
            board.undo_move();
            assert(board@ == p);
            assert(board.undo_stack@ =~= stack);
            let ghost v = quiet_value(q, d - 1);
            assert(captures@.take(i + 1).drop_last() =~= captures@.take(i as int));
            assert(quiet_best(p, captures@.take(i + 1), d) == max(quiet_best(p, captures@.take(i as int), d), -v));
            match result {
                SearchResult::Timeout => {
                    timed_out = true;
                    stop = true;
                },
                SearchResult::Score(s) => {
                    let score = -s;
                    if score >= beta {
                        proof {
                            lemma_quiet_best_prefix(p, captures@, i + 1, d);
                        }
                        alpha = beta;
                        stop = true;
                    } else {
                        if score > alpha {
                            alpha = score;
                        }
                        i += 1;
                    }
                },
            }
        }
        if timed_out {
            return SearchResult::Timeout;
        }
        assert(captures@.take(captures@.len() as int) =~= captures@);
        SearchResult::Score(alpha)
    }

    /// Order moves to improve alpha-beta pruning
    fn order_moves(board: &Board, moves: &mut Vec<Move>)
        requires
            all_keyable(board@, old(moves)@),
        ensures
            final(moves)@ == sort_by_key(board@, old(moves)@),
            basic_from(board@, old(moves)@, 0) ==> basic_from(board@, final(moves)@, 0),
            made_from(board@, old(moves)@, 0) ==> made_from(board@, final(moves)@, 0),
            forall|j: int| 0 <= j < final(moves)@.len() ==> old(moves)@.contains(#[trigger] final(moves)@[j]),
    {
        let ghost p = board@;
        let ghost input = moves@;
        let mut sorted: Vec<Move> = Vec::new();
        let mut i: usize = 0;
        while i < moves.len()
            invariant
                p == board@,
                input == moves@,
                i <= moves@.len(),
                all_keyable(p, input),
                sorted@ == sort_by_key(p, input.take(i as int)),
                forall|t: int| 0 <= t < sorted@.len() ==> input.contains(#[trigger] sorted@[t]),
                all_keyable(p, sorted@),
                basic_from(p, input, 0) ==> basic_from(p, sorted@, 0),
                made_from(p, input, 0) ==> made_from(p, sorted@, 0),
            decreases moves@.len() - i,
        {
            let mv = moves[i];
            assert(keyable(p, mv));
            let key = Self::move_key(board, &mv);
            let ghost s = sorted@;
            let mut j: usize = sorted.len();
            let mut done = false;
            assert(s.take(j as int) =~= s);
            assert(insert_by_key(p, s, mv) =~= insert_by_key(p, s.take(j as int), mv) + s.skip(j as int));
            while !done && j > 0
                invariant
                    p == board@,
                    s == sorted@,
                    j <= s.len(),
                    all_keyable(p, s),
                    key == order_key(p, mv),
                    insert_by_key(p, s, mv) == if done {
                        s.take(j as int).push(mv) + s.skip(j as int)
                    } else {
                        insert_by_key(p, s.take(j as int), mv) + s.skip(j as int)
                    },
                decreases j + (if done { 0int } else { 1int }),
            {
                let other = sorted[j - 1];
                assert(keyable(p, other));
                assert(s.take(j as int).last() == other);
                if Self::move_key(board, &other) > key {
                    assert(s.take(j as int).drop_last() =~= s.take(j - 1));
                    assert(s.skip(j - 1) =~= seq![other] + s.skip(j as int));
                    assert(insert_by_key(p, s.take(j as int), mv) + s.skip(j as int) =~= insert_by_key(p, s.take(j - 1), mv) + s.skip(j - 1));
                    j -= 1;
                } else {
                    done = true;
                }
            }
            if !done {
                assert(s.take(0) =~= Seq::<Move>::empty());
                assert(s.skip(0) =~= s);
            }
            sorted.insert(j, mv);
            assert(sorted@ =~= insert_by_key(p, s, mv));
            assert(input.take(i + 1).drop_last() =~= input.take(i as int));
            assert(input.take(i + 1).last() == mv);
            assert(input.contains(mv));
            assert forall|t: int| 0 <= t < sorted@.len() implies input.contains(#[trigger] sorted@[t]) by {
                if t < j {
                    assert(sorted@[t] == s[t]);
                } else if t > j {
                    assert(sorted@[t] == s[t - 1]);
                }
            }
            assert forall|t: int| 0 <= t < sorted@.len() implies keyable(p, #[trigger] sorted@[t]) by {
                if t < j {
                    assert(sorted@[t] == s[t]);
                } else if t > j {
                    assert(sorted@[t] == s[t - 1]);
                }
            }
            proof {
                if basic_from(p, input, 0int) {
                    assert(basic_move(p, input[i as int]));
                    assert forall|t: int| 0 <= t < sorted@.len() implies basic_move(p, #[trigger] sorted@[t]) by {
                        if t < j {
                            assert(sorted@[t] == s[t]);
                        } else if t > j {
                            assert(sorted@[t] == s[t - 1]);
                        }
                    }
                }
            }
            proof {
                if p.wf() && made_from(p, input, 0int) {
                    assert(well_made(p, input[i as int]));
                    assert forall|t: int| 0 <= t < sorted@.len() implies well_made(p, #[trigger] sorted@[t]) by {
                        if t < j {
                            assert(sorted@[t] == s[t]);
                        } else if t > j {
                            assert(sorted@[t] == s[t - 1]);
                        }
                    }
                }
            }
            i += 1;
        }
        assert(input.take(input.len() as int) =~= input);
        *moves = sorted;
    }
}

} // verus!