//! The game flow of the chess application: game modes, states and results,
//! and the decisions taken on clicks, moves, the bot's turn and the end of
//! a game. Drawing and animation stay with the windowing front end.

use vstd::prelude::*;
use crate::board::{Board, Position, lemma_initial_wf};
use crate::bot::{BotDifficulty, ChessBot, root_choice};
use crate::moves::{
    Move, MoveGenerator, legal_moves, insufficient_material, basic_from, made_from, well_made,
    clocks_room, lemma_wf_playable, lemma_well_made_move,
};
use crate::pieces::{Color, Piece, PieceType};
use crate::timer::{GameTimer, TimeControl, flag_reading};

verus! {

/// Game mode selection
#[derive(Debug, Clone, Copy, PartialEq, Eq, Structural)]
pub enum GameMode {
    VsBot,
    LocalPvP,
}

/// Game result
#[derive(Debug, Clone, Copy, PartialEq, Eq, Structural)]
pub enum GameResult {
    WhiteWins,
    BlackWins,
    Draw,
}

impl GameResult {
    /// The headline shown for the result.
    pub fn text(self) -> (s: &'static str)
        ensures
            s@ == match self {
                GameResult::WhiteWins => "White Wins!"@,
                GameResult::BlackWins => "Black Wins!"@,
                GameResult::Draw => "Draw!"@,
            },
    {
        match self {
            GameResult::WhiteWins => "White Wins!",
            GameResult::BlackWins => "Black Wins!",
            GameResult::Draw => "Draw!",
        }
    }
}

/// Game state
#[derive(Debug, Clone, Copy, PartialEq, Eq, Structural)]
pub enum GameState {
    Title,
    ModeSelect,
    Playing,
    GameOver(GameResult),
}

/// The result when `loser` loses.
pub open spec fn win_against(loser: Color) -> GameResult {
    match loser {
        Color::White => GameResult::BlackWins,
        Color::Black => GameResult::WhiteWins,
    }
}

/// The moves of `s` that start on `(r, f)`, in order.
pub open spec fn moves_from(s: Seq<Move>, r: usize, f: usize) -> Seq<Move>
    decreases s.len(),
{
    if s.len() == 0 {
        s
    } else {
        let rest = moves_from(s.drop_last(), r, f);
        if s.last().from_rank == r && s.last().from_file == f {
            rest.push(s.last())
        } else {
            rest
        }
    }
}

/// The first move of `s` from `(fr, ff)` to `(tr, tf)`.
pub open spec fn first_between(s: Seq<Move>, fr: usize, ff: usize, tr: usize, tf: usize) -> Option<Move>
    decreases s.len(),
{
    if s.len() == 0 {
        None
    } else if s[0].from_rank == fr && s[0].from_file == ff && s[0].to_rank == tr && s[0].to_file == tf {
        Some(s[0])
    } else {
        first_between(s.subrange(1, s.len() as int), fr, ff, tr, tf)
    }
}

/// The pieces a pawn may promote to, in the order offered.
pub open spec fn promotion_choices() -> Seq<PieceType> {
    seq![PieceType::Queen, PieceType::Rook, PieceType::Bishop, PieceType::Knight]
}

/// `base` promoting to `t`.
pub open spec fn promoted(base: Move, t: PieceType) -> Move {
    Move { promotion: Some(t), ..base }
}

/// A pending promotion from `base` can be completed with every offered piece.
pub open spec fn promotion_ready(p: Position, base: Move, kinds: Seq<PieceType>) -> bool {
    &&& kinds == promotion_choices()
    &&& forall|t: PieceType| #[trigger] kinds.contains(t) ==> well_made(p, promoted(base, t))
}

/// The side to move is checkmated.
pub open spec fn mated(p: Position) -> bool {
    p.in_check(p.turn) && legal_moves(p).len() == 0
}

/// The side to move is stalemated.
pub open spec fn stalemated(p: Position) -> bool {
    !p.in_check(p.turn) && legal_moves(p).len() == 0
}

/// The game is drawn: stalemate, insufficient material or the fifty-move rule.
pub open spec fn drawn(p: Position) -> bool {
    stalemated(p) || insufficient_material(p) || p.halfmove >= 100
}

/// The piece on `sq` is a pawn that reaches its last rank on `rank`.
pub open spec fn promotes_on(p: Position, sq: (usize, usize), rank: usize) -> bool {
    match p.at(sq.0 as int, sq.1 as int) {
        Some(pc) => pc.piece_type == PieceType::Pawn && rank == pc.color.promotion_rank(),
        None => false,
    }
}

/// A pawn move reaching the last rank can be completed with any offered piece.
proof fn lemma_promotion_ready(p: Position, mv: Move)
    requires
        p.wf(),
        well_made(p, mv),
        promotes_on(p, (mv.from_rank, mv.from_file), mv.to_rank),
    ensures
        promotion_ready(p, Move::plain(mv.from_rank, mv.from_file, mv.to_rank, mv.to_file), promotion_choices()),
{
    let base = Move::plain(mv.from_rank, mv.from_file, mv.to_rank, mv.to_file);
    assert forall|t: PieceType| #[trigger] promotion_choices().contains(t) implies well_made(p, promoted(base, t)) by {
        let i = choose|i: int| 0 <= i < 4 && promotion_choices()[i] == t;
        assert(t != PieceType::Pawn && t != PieceType::King);
    }
}

/// Where the square `(rank, file)` is drawn: its `(column, row)` on screen,
/// row 0 at the top. White's side is at the bottom unless the board is
/// flipped.
pub open spec fn screen_square(rank: int, file: int, flipped: bool) -> (int, int) {
    if flipped {
        (7 - file, rank)
    } else {
        (file, 7 - rank)
    }
}

/// The square `(rank, file)` drawn at screen `(column, row)`.
pub open spec fn board_square(col: int, row: int, flipped: bool) -> (int, int) {
    if flipped {
        (row, 7 - col)
    } else {
        (7 - row, col)
    }
}

/// The screen position of a square of the board.
pub fn board_to_screen(rank: usize, file: usize, flipped: bool) -> (s: (usize, usize))
    requires
        rank < 8,
        file < 8,
    ensures
        (s.0 as int, s.1 as int) == screen_square(rank as int, file as int, flipped),
        s.0 < 8,
        s.1 < 8,
{
    let screen_row = if flipped { rank } else { 7 - rank };
    let screen_col = if flipped { 7 - file } else { file };
    (screen_col, screen_row)
}

/// The square of the board under a screen position (a click).
pub fn screen_to_board(col: usize, row: usize, flipped: bool) -> (sq: (usize, usize))
    requires
        col < 8,
        row < 8,
    ensures
        (sq.0 as int, sq.1 as int) == board_square(col as int, row as int, flipped),
        sq.0 < 8,
        sq.1 < 8,
{
    let file = if flipped { 7 - col } else { col };
    let rank = if flipped { row } else { 7 - row };
    (rank, file)
}

/// Drawing the board and reading a click back agree: each square is drawn
/// at one screen position, and a click there selects that square again,
/// whichever way the board is turned.
pub proof fn lemma_screen_round_trip(rank: int, file: int, col: int, row: int, flipped: bool)
    requires
        0 <= rank < 8,
        0 <= file < 8,
        0 <= col < 8,
        0 <= row < 8,
    ensures
        board_square(screen_square(rank, file, flipped).0, screen_square(rank, file, flipped).1, flipped)
            == (rank, file),
        screen_square(board_square(col, row, flipped).0, board_square(col, row, flipped).1, flipped)
            == (col, row),
        0 <= screen_square(rank, file, flipped).0 < 8 && 0 <= screen_square(rank, file, flipped).1 < 8,
{
}

/// How one square of the board is marked when drawn.
#[derive(Debug, Clone, Copy, PartialEq, Eq, Structural)]
pub struct SquareMarks {
    /// A dark square.
    pub dark: bool,
    /// The last move started or ended here.
    pub last_move: bool,
    /// The king of the side to move stands here in check.
    pub check: bool,
    /// The selected piece stands here.
    pub selected: bool,
    /// A move of the selected piece ends here.
    pub target: bool,
    /// A move of the selected piece captures here.
    pub capture: bool,
}

/// The game state after the flag checks: White's flag falling loses for
/// White, else Black's for Black, else the state stays.
pub open spec fn time_verdict_spec(white_flagged: bool, black_flagged: bool, state: GameState) -> GameState {
    if white_flagged {
        GameState::GameOver(GameResult::BlackWins)
    } else if black_flagged {
        GameState::GameOver(GameResult::WhiteWins)
    } else {
        state
    }
}

/// `t` is `o` after starting the clock of `turn` and stopping the other:
/// the started clock keeps its time, the stopped one loses at most what ran
/// off it, and a clock that was already stopped stays as it was.
pub open spec fn clocks_switched(o: GameTimer, t: GameTimer, turn: Color) -> bool {
    let (on, off, o_on, o_off) = match turn {
        Color::White => (t.white_clock(), t.black_clock(), o.white_clock(), o.black_clock()),
        Color::Black => (t.black_clock(), t.white_clock(), o.black_clock(), o.white_clock()),
    };
    &&& on.spec_running() && !off.spec_running()
    &&& on.banked() == o_on.banked()
    &&& off.banked().nanos <= o_off.banked().nanos
    &&& !o_off.spec_running() ==> off == o_off
    &&& t.spec_time_control() == o.spec_time_control()
}

/// `result` is the state the end-of-game check gives for position `p` with
/// clocks `t`, from state `state`: a mate wins for the mating side, a draw
/// ends drawn, and otherwise the flags decide (with readings the clocks
/// allow).
pub open spec fn end_check(p: Position, t: GameTimer, state: GameState, result: GameState) -> bool {
    if mated(p) {
        result == GameState::GameOver(win_against(p.turn))
    } else if drawn(p) {
        result == GameState::GameOver(GameResult::Draw)
    } else {
        exists|wf: bool, bf: bool|
            #![trigger flag_reading(t.white_clock(), wf), flag_reading(t.black_clock(), bf)]
            flag_reading(t.white_clock(), wf) && flag_reading(t.black_clock(), bf) && result
                == time_verdict_spec(wf, bf, state)
    }
}

/// The reason shown for the end of the game in position `p`, with flag
/// readings `wf` and `bf`.
pub open spec fn reason_text(p: Position, wf: bool, bf: bool) -> Seq<char> {
    if mated(p) {
        "Checkmate"@
    } else if stalemated(p) {
        "Stalemate"@
    } else if wf {
        "White flagged"@
    } else if bf {
        "Black flagged"@
    } else if insufficient_material(p) {
        "Insufficient material"@
    } else if p.halfmove >= 100 {
        "50-move rule"@
    } else {
        "Resignation"@
    }
}

/// Decide the game on time from the two flag checks.
pub fn time_verdict(white_flagged: bool, black_flagged: bool, state: GameState) -> (s: GameState)
    ensures
        s == time_verdict_spec(white_flagged, black_flagged, state),
{
    if white_flagged {
        GameState::GameOver(GameResult::BlackWins)
    } else if black_flagged {
        GameState::GameOver(GameResult::WhiteWins)
    } else {
        state
    }
}

/// Main chess application state (everything but drawing and animation)
pub struct ChessApp {
    pub board: Board,
    pub game_state: GameState,
    pub game_mode: GameMode,
    pub time_control: TimeControl,
    pub timer: GameTimer,
    pub bot: ChessBot,
    pub bot_difficulty: BotDifficulty,
    pub player_color: Color,
    pub selected_square: Option<(usize, usize)>,
    pub legal_moves: Vec<Move>,
    pub last_move: Option<Move>,
    pub promotion_pending: Option<(Move, Vec<PieceType>)>,
    pub flipped: bool,
    /// A move is being shown moving; it is played when the animation ends.
    pub animating: bool,
    pub pending_bot_move: bool,
}

impl ChessApp {
    /// The state is consistent: the board is, the moves offered for the
    /// selected piece and the move being shown are generated moves, and a
    /// pending promotion can be completed.
    pub open spec fn inv(&self) -> bool {
        &&& self.board@.wf()
        &&& basic_from(self.board@, self.legal_moves@, 0)
        &&& made_from(self.board@, self.legal_moves@, 0)
        &&& self.animating ==> self.last_move is Some && well_made(self.board@, self.last_move.unwrap())
        &&& self.animating ==> self.legal_moves@.len() == 0 && self.promotion_pending is None
        &&& self.promotion_pending matches Some(pp) ==> promotion_ready(self.board@, pp.0, pp.1@)
    }

    pub fn new() -> (app: Self)
        ensures
            app.inv(),
            app.board@ == Position::initial(),
            app.game_state == GameState::Title,
            app.game_mode == GameMode::VsBot,
            app.time_control == TimeControl::Normal,
            app.bot_difficulty == BotDifficulty::Medium,
            app.player_color == Color::White,
            app.selected_square is None,
            app.legal_moves@.len() == 0,
            app.last_move is None,
            app.promotion_pending is None,
            !app.flipped,
            !app.animating,
            !app.pending_bot_move,
    {
        proof {
            lemma_initial_wf();
        }
        ChessApp {
            board: Board::new(),
            game_state: GameState::Title,
            game_mode: GameMode::VsBot,
            time_control: TimeControl::Normal,
            timer: GameTimer::new(TimeControl::Normal),
            bot: ChessBot::new(BotDifficulty::Medium),
            bot_difficulty: BotDifficulty::Medium,
            player_color: Color::White,
            selected_square: None,
            legal_moves: Vec::new(),
            last_move: None,
            promotion_pending: None,
            flipped: false,
            animating: false,
            pending_bot_move: false,
        }
    }

    /// Start a new game with the chosen settings.
    pub fn start_game(&mut self)
        ensures
            final(self).inv(),
            final(self).board@ == Position::initial(),
            final(self).game_state == GameState::Playing,
            final(self).timer.spec_time_control() == old(self).time_control,
            final(self).board.undo_stack@.len() == 0,
            final(self).timer.white_clock().spec_running(),
            !final(self).timer.black_clock().spec_running(),
            !final(self).timer.black_clock().ticking(),
            final(self).timer.white_clock().banked() == old(self).time_control.duration(),
            final(self).timer.black_clock().banked() == old(self).time_control.duration(),
            final(self).bot.spec_difficulty() == old(self).bot_difficulty,
            final(self).selected_square is None,
            final(self).legal_moves@.len() == 0,
            final(self).last_move is None,
            final(self).promotion_pending is None,
            final(self).flipped == (old(self).player_color == Color::Black && old(self).game_mode
                == GameMode::VsBot),
            !final(self).animating,
            final(self).pending_bot_move == (old(self).game_mode == GameMode::VsBot
                && old(self).player_color == Color::Black),
            final(self).game_mode == old(self).game_mode,
            final(self).player_color == old(self).player_color,
            final(self).time_control == old(self).time_control,
            final(self).bot_difficulty == old(self).bot_difficulty,
    {
        proof {
            lemma_initial_wf();
        }
        self.board = Board::new();
        self.timer = GameTimer::new(self.time_control);
        self.bot = ChessBot::new(self.bot_difficulty);
        self.selected_square = None;
        self.legal_moves = Vec::new();
        self.last_move = None;
        self.promotion_pending = None;
        self.game_state = GameState::Playing;
        self.flipped = self.player_color == Color::Black && self.game_mode == GameMode::VsBot;
        self.animating = false;
        self.pending_bot_move = false;
        self.timer.start_white();
        if self.game_mode == GameMode::VsBot && self.player_color == Color::Black {
            self.pending_bot_move = true;
        }
    }

    fn find_move(&self, from_rank: usize, from_file: usize, to_rank: usize, to_file: usize) -> (m: Option<Move>)
        ensures
            m == first_between(self.legal_moves@, from_rank, from_file, to_rank, to_file),
    {
        let ghost s = self.legal_moves@;
        assert(s.subrange(0, s.len() as int) =~= s);
        let mut i: usize = 0;
        while i < self.legal_moves.len()
            invariant
                s == self.legal_moves@,
                i <= s.len(),
                first_between(s, from_rank, from_file, to_rank, to_file) == first_between(
                    s.subrange(i as int, s.len() as int),
                    from_rank,
                    from_file,
                    to_rank,
                    to_file,
                ),
            decreases s.len() - i,
        {
            let mv = self.legal_moves[i];
            let ghost rest = s.subrange(i as int, s.len() as int);
            assert(rest[0] == mv);
            if mv.from_rank == from_rank && mv.from_file == from_file && mv.to_rank == to_rank
                && mv.to_file == to_file {
                return Some(mv);
            }
            assert(rest.subrange(1, rest.len() as int) =~= s.subrange(i + 1, s.len() as int));
            i += 1;
        }
        None
    }

    /// Select the piece on `(rank, file)` if it belongs to the side to move,
    /// offering its legal moves; otherwise clear the selection.
    fn try_select_square(&mut self, rank: usize, file: usize)
        requires
            old(self).inv(),
            !old(self).animating,
            clocks_room(old(self).board@, 1),
            rank < 8,
            file < 8,
        ensures
            final(self).inv(),
            final(self).board == old(self).board,
            final(self).animating == old(self).animating,
            final(self).last_move == old(self).last_move,
            final(self).promotion_pending == old(self).promotion_pending,
            final(self).game_state == old(self).game_state,
            final(self).game_mode == old(self).game_mode,
            final(self).bot == old(self).bot,
            final(self).pending_bot_move == old(self).pending_bot_move,
            match old(self).board@.at(rank as int, file as int) {
                Some(pc) => if pc.color == old(self).board@.turn {
                    final(self).selected_square == Some((rank, file)) && final(self).legal_moves@
                        == moves_from(legal_moves(old(self).board@), rank, file)
                } else {
                    final(self).selected_square is None && final(self).legal_moves@.len() == 0
                },
                None => final(self).selected_square is None && final(self).legal_moves@.len() == 0,
            },
    {
        let ghost p = self.board@;
        if let Some(piece) = self.board.get(rank, file) {
            if piece.color == self.board.current_turn {
                self.selected_square = Some((rank, file));
                proof {
                    lemma_wf_playable(p);
                }
                let all = MoveGenerator::generate_legal_moves(&self.board);
                let mut chosen: Vec<Move> = Vec::new();
                let mut i: usize = 0;
                while i < all.len()
                    invariant
                        p == self.board@,
                        i <= all@.len(),
                        all@ == legal_moves(p),
                        basic_from(p, all@, 0),
                        made_from(p, all@, 0),
                        chosen@ == moves_from(all@.take(i as int), rank, file),
                        basic_from(p, chosen@, 0),
                        made_from(p, chosen@, 0),
                    decreases all@.len() - i,
                {
                    let mv = all[i];
                    if mv.from_rank == rank && mv.from_file == file {
                        chosen.push(mv);
                    }
                    assert(all@.take(i + 1).drop_last() =~= all@.take(i as int));
                    i += 1;
                }
                assert(all@.take(all@.len() as int) =~= all@);
                self.legal_moves = chosen;
                return;
            }
        }
        self.selected_square = None;
        self.legal_moves.clear();
    }

    /// Begin showing `mv` (it is played when the animation ends). Returns
    /// the piece to show moving, if there is one on the origin square.
    pub fn start_move_animation(&mut self, mv: Move, is_bot_move: bool) -> (shown: Option<Piece>)
        requires
            old(self).inv(),
            well_made(old(self).board@, mv),
            old(self).promotion_pending is None,
        ensures
            final(self).inv(),
            final(self).board == old(self).board,
            shown == old(self).board@.at(mv.from_rank as int, mv.from_file as int),
            final(self).animating,
            final(self).last_move == Some(mv),
            final(self).selected_square is None,
            final(self).legal_moves@.len() == 0,
            final(self).pending_bot_move == (old(self).pending_bot_move || (!is_bot_move
                && old(self).game_mode == GameMode::VsBot)),
            final(self).promotion_pending == old(self).promotion_pending,
            final(self).game_state == old(self).game_state,
            final(self).bot == old(self).bot,
            final(self).game_mode == old(self).game_mode,
    {
        // Get the piece being moved
        if let Some(piece) = self.board.get(mv.from_rank, mv.from_file) {
            self.animating = true;
            self.last_move = Some(mv);
            self.selected_square = None;
            self.legal_moves.clear();
            // If this is a player move and we're vs bot, schedule bot move after animation
            if !is_bot_move && self.game_mode == GameMode::VsBot {
                self.pending_bot_move = true;
            }
            return Some(piece);
        }
        None
    }

    /// Clicks are taken: no animation or promotion choice under way, and it
    /// is a human's turn.
    pub open spec fn accepts_clicks(&self) -> bool {
        &&& !self.animating
        &&& self.promotion_pending is None
        &&& (self.game_mode == GameMode::LocalPvP || self.board@.turn == self.player_color)
    }

    /// The offered move from the selected square to `(rank, file)`.
    pub open spec fn click_target(&self, rank: usize, file: usize) -> Option<Move> {
        match self.selected_square {
            Some(sq) => first_between(self.legal_moves@, sq.0, sq.1, rank, file),
            None => None,
        }
    }

    /// Handle a click on `(rank, file)`: play an offered move of the selected
    /// piece (asking for the piece first when a pawn reaches its last rank),
    /// or select another piece. Returns the piece to show moving.
    pub fn handle_square_click(&mut self, rank: usize, file: usize) -> (shown: Option<Piece>)
        requires
            old(self).inv(),
            clocks_room(old(self).board@, 1),
            rank < 8,
            file < 8,
        ensures
            final(self).inv(),
            final(self).board == old(self).board,
            final(self).game_state == old(self).game_state,
            final(self).game_mode == old(self).game_mode,
            final(self).bot == old(self).bot,
            final(self).pending_bot_move == (old(self).pending_bot_move || (final(self).animating
                && !old(self).animating && old(self).game_mode == GameMode::VsBot)),
            !old(self).accepts_clicks() ==> shown is None && final(self).selected_square
                == old(self).selected_square && final(self).legal_moves@ == old(self).legal_moves@
                && final(self).animating == old(self).animating && final(self).last_move
                == old(self).last_move && final(self).promotion_pending == old(self).promotion_pending,
            old(self).accepts_clicks() ==> match old(self).click_target(rank, file) {
                Some(mv) => if promotes_on(old(self).board@, old(self).selected_square.unwrap(), rank) {
                    &&& shown is None
                    &&& final(self).promotion_pending matches Some(pp) && pp.0 == Move::plain(
                        mv.from_rank,
                        mv.from_file,
                        rank,
                        file,
                    ) && pp.1@ == promotion_choices()
                    &&& !final(self).animating
                } else {
                    &&& shown == old(self).board@.at(mv.from_rank as int, mv.from_file as int)
                    &&& final(self).animating
                    &&& final(self).last_move == Some(mv)
                    &&& final(self).selected_square is None
                    &&& final(self).legal_moves@.len() == 0
                },
                None => {
                    &&& shown is None
                    &&& !final(self).animating
                    &&& match old(self).board@.at(rank as int, file as int) {
                        Some(pc) => if pc.color == old(self).board@.turn {
                            final(self).selected_square == Some((rank, file)) && final(self).legal_moves@
                                == moves_from(legal_moves(old(self).board@), rank, file)
                        } else {
                            final(self).selected_square is None && final(self).legal_moves@.len() == 0
                        },
                        None => final(self).selected_square is None && final(self).legal_moves@.len() == 0,
                    }
                },
            },
    {
        // Don't allow clicks during animation
        if self.animating || self.promotion_pending.is_some() {
            return None;
        }
        let can_move = match self.game_mode {
            GameMode::LocalPvP => true,
            GameMode::VsBot => self.board.current_turn == self.player_color,
        };
        if !can_move {
            return None;
        }
        if let Some((sel_rank, sel_file)) = self.selected_square {
            if let Some(mv) = self.find_move(sel_rank, sel_file, rank, file) {
                proof {
                    lemma_first_between_in(self.legal_moves@, sel_rank, sel_file, rank, file);
                }
                assert(well_made(self.board@, mv));
                if let Some(piece) = self.board.get(sel_rank, sel_file) {
                    if piece.piece_type == PieceType::Pawn {
                        let promotion_rank = piece.color.promotion_rank();
                        if rank == promotion_rank {
                            proof {
                                lemma_promotion_ready(self.board@, mv);
                            }
                            self.promotion_pending = Some((
                                Move::new(sel_rank, sel_file, rank, file),
                                vec![
                                    PieceType::Queen,
                                    PieceType::Rook,
                                    PieceType::Bishop,
                                    PieceType::Knight,
                                ],
                            ));
                            assert(self.promotion_pending.unwrap().1@ =~= promotion_choices());
                            return None;
                        }
                    }
                }
                // Start animated move
                return self.start_move_animation(mv, false);
            } else {
                self.try_select_square(rank, file);
            }
        } else {
            self.try_select_square(rank, file);
        }
        None
    }

    /// Complete a pending promotion with `piece_type`. Returns the piece to
    /// show moving.
    pub fn handle_promotion_choice(&mut self, piece_type: PieceType) -> (shown: Option<Piece>)
        requires
            old(self).inv(),
            old(self).promotion_pending is Some ==> promotion_choices().contains(piece_type),
        ensures
            final(self).inv(),
            final(self).board == old(self).board,
            final(self).promotion_pending is None,
            final(self).game_state == old(self).game_state,
            final(self).bot == old(self).bot,
            final(self).pending_bot_move == (old(self).pending_bot_move || (old(self).promotion_pending is Some
                && old(self).game_mode == GameMode::VsBot)),
            old(self).promotion_pending is None ==> shown is None && final(self).animating
                == old(self).animating && final(self).last_move == old(self).last_move,
            old(self).promotion_pending matches Some(pp) ==> {
                &&& final(self).animating
                &&& final(self).last_move == Some(promoted(pp.0, piece_type))
                &&& shown == old(self).board@.at(pp.0.from_rank as int, pp.0.from_file as int)
            },
    {
        if let Some((base_mv, _)) = self.promotion_pending.take() {
            let mv = base_mv.with_promotion(piece_type);
            // For promotions, animate the pawn moving to the promotion square
            return self.start_move_animation(mv, false);
        }
        None
    }

    /// Check for the end of the game: checkmate, a draw, or a fallen flag.
    pub fn check_game_over(&mut self)
        requires
            old(self).inv(),
            clocks_room(old(self).board@, 1),
        ensures
            final(self).inv(),
            final(self).board == old(self).board,
            final(self).animating == old(self).animating,
            final(self).last_move == old(self).last_move,
            final(self).pending_bot_move == old(self).pending_bot_move,
            final(self).legal_moves@ == old(self).legal_moves@,
            final(self).promotion_pending == old(self).promotion_pending,
            final(self).game_state == old(self).game_state || final(self).game_state is GameOver,
            final(self).bot == old(self).bot,
            mated(old(self).board@) ==> final(self).game_state == GameState::GameOver(
                win_against(old(self).board@.turn),
            ),
            !mated(old(self).board@) && drawn(old(self).board@) ==> final(self).game_state
                == GameState::GameOver(GameResult::Draw),
            !mated(old(self).board@) && !drawn(old(self).board@) ==> exists|wf: bool, bf: bool|
                #![trigger flag_reading(old(self).timer.white_clock(), wf), flag_reading(old(self).timer.black_clock(), bf)]
                flag_reading(old(self).timer.white_clock(), wf) && flag_reading(old(self).timer.black_clock(), bf)
                    && final(self).game_state == time_verdict_spec(wf, bf, old(self).game_state),
            !mated(old(self).board@) && !drawn(old(self).board@) && !old(self).timer.white_clock().counting()
                && !old(self).timer.black_clock().counting() ==> final(self).game_state == if old(
                self,
            ).timer.white_clock().banked().nanos == 0 {
                GameState::GameOver(GameResult::BlackWins)
            } else if old(self).timer.black_clock().banked().nanos == 0 {
                GameState::GameOver(GameResult::WhiteWins)
            } else {
                old(self).game_state
            },
            !mated(old(self).board@) && !drawn(old(self).board@) && old(self).timer.white_clock().banked().nanos
                == 0 ==> final(self).game_state == GameState::GameOver(GameResult::BlackWins),
            final(self).game_state != old(self).game_state ==> !final(self).timer.white_clock().spec_running()
                && !final(self).timer.black_clock().spec_running(),
            !(final(self).game_state is GameOver) ==> final(self).timer == old(self).timer,
            final(self).game_mode == old(self).game_mode,
            end_check(old(self).board@, old(self).timer, old(self).game_state, final(self).game_state),
    {
        proof {
            lemma_wf_playable(self.board@);
        }
        if MoveGenerator::is_checkmate(&self.board) {
            let result = match self.board.current_turn {
                Color::White => GameResult::BlackWins,
                Color::Black => GameResult::WhiteWins,
            };
            self.timer.stop_all();
            self.game_state = GameState::GameOver(result);
            return;
        }
        if MoveGenerator::is_stalemate(&self.board) || MoveGenerator::is_insufficient_material(
            &self.board,
        ) || MoveGenerator::is_fifty_move_draw(&self.board) {
            self.timer.stop_all();
            self.game_state = GameState::GameOver(GameResult::Draw);
            return;
        }
        let white_out = self.timer.white_flagged();
        let black_out = self.timer.black_flagged();
        let state = time_verdict(white_out, black_out, self.game_state);
        if state != self.game_state {
            self.timer.stop_all();
            self.game_state = state;
        }
    }

    /// Play the move being shown, start the clock of the side now to move,
    /// and check for the end of the game.
    pub fn complete_move_animation(&mut self)
        requires
            old(self).inv(),
            clocks_room(old(self).board@, 2),
        ensures
            final(self).inv(),
            !final(self).animating,
            old(self).animating ==> final(self).board@ == old(self).board@.play(old(self).last_move.unwrap()),
            !old(self).animating ==> final(self).board == old(self).board,
            final(self).last_move == old(self).last_move,
            final(self).pending_bot_move == old(self).pending_bot_move,
            final(self).promotion_pending == old(self).promotion_pending,
            final(self).game_state == old(self).game_state || final(self).game_state is GameOver,
            final(self).bot == old(self).bot,
            final(self).game_mode == old(self).game_mode,
            !old(self).animating ==> final(self).timer == old(self).timer && final(self).game_state
                == old(self).game_state,
            old(self).animating ==> exists|t: GameTimer|
                #[trigger] clocks_switched(old(self).timer, t, final(self).board@.turn) && end_check(
                    final(self).board@,
                    t,
                    old(self).game_state,
                    final(self).game_state,
                ) && (!(final(self).game_state is GameOver) ==> final(self).timer == t),
            old(self).animating && !(final(self).game_state is GameOver) ==> clocks_switched(
                old(self).timer,
                final(self).timer,
                final(self).board@.turn,
            ),
            old(self).animating && final(self).game_state != old(self).game_state
                ==> !final(self).timer.white_clock().spec_running()
                && !final(self).timer.black_clock().spec_running(),
    {
        if self.animating {
            if let Some(mv) = self.last_move {
                let ghost p = self.board@;
                proof {
                    lemma_well_made_move(p, mv);
                }
                self.board.make_move(mv);
                self.animating = false;
                match self.board.current_turn {
                    Color::White => self.timer.start_white(),
                    Color::Black => self.timer.start_black(),
                }
                let ghost mid = self.timer;
                assert(clocks_switched(old(self).timer, mid, self.board@.turn));
                self.check_game_over();
            }
        }
        self.animating = false;
    }

    /// Let the bot pick and begin showing its move. Returns the piece to
    /// show moving.
    pub fn make_bot_move(&mut self) -> (shown: Option<Piece>)
        requires
            old(self).inv(),
            clocks_room(old(self).board@, 9),
            old(self).promotion_pending is None,
        ensures
            final(self).inv(),
            final(self).board == old(self).board,
            final(self).game_state == old(self).game_state,
            final(self).pending_bot_move == old(self).pending_bot_move,
            (shown is None) == (legal_moves(old(self).board@).len() == 0),
            shown is Some ==> final(self).animating && (final(self).last_move matches Some(mv)
                && legal_moves(old(self).board@).contains(mv) && shown == Some(old(self).board@.mover(mv))
                && (!final(self).bot.spec_timed_out() ==> mv == root_choice(
                old(self).board@,
                old(self).bot.spec_difficulty().depth(),
            ))),
            shown is None ==> final(self).animating == old(self).animating && final(self).last_move
                == old(self).last_move,
            final(self).bot.spec_difficulty() == old(self).bot.spec_difficulty(),
            final(self).bot.spec_time_limit() == old(self).bot.spec_time_limit(),
            old(self).bot.spec_time_limit().nanos == u128::MAX ==> !final(self).bot.spec_timed_out(),
    {
        let ghost p = self.board@;
        if let Some(mv) = self.bot.find_best_move(&self.board) {
            return self.start_move_animation(mv, true);
        }
        None
    }

    /// The marks of square `(rank, file)`.
    pub fn square_marks(&self, rank: usize, file: usize) -> (m: SquareMarks)
        requires
            self.inv(),
            rank < 8,
            file < 8,
        ensures
            m.dark == ((rank + file) % 2 == 0),
            m.last_move == (self.last_move matches Some(mv) && ((mv.from_rank == rank && mv.from_file == file)
                || (mv.to_rank == rank && mv.to_file == file))),
            m.check == (self.board@.at(rank as int, file as int) matches Some(pc) && pc.piece_type
                == PieceType::King && pc.color == self.board@.turn && self.board@.in_check(self.board@.turn)),
            m.selected == (self.selected_square == Some((rank, file))),
            m.target == exists|i: int|
                0 <= i < self.legal_moves@.len() && #[trigger] self.legal_moves@[i].to_rank == rank
                    && self.legal_moves@[i].to_file == file,
            m.capture == (m.target && self.board@.at(rank as int, file as int) is Some),
    {
        let dark = (rank + file) % 2 == 0;
        let last_move = match self.last_move {
            Some(mv) => (rank == mv.from_rank && file == mv.from_file) || (rank == mv.to_rank && file
                == mv.to_file),
            None => false,
        };
        let occupant = self.board.get(rank, file);
        let check = match occupant {
            Some(piece) => piece.piece_type == PieceType::King && piece.color == self.board.current_turn
                && self.board.is_in_check(self.board.current_turn),
            None => false,
        };
        let selected = match self.selected_square {
            Some((sel_rank, sel_file)) => rank == sel_rank && file == sel_file,
            None => false,
        };
        let mut target = false;
        let mut i: usize = 0;
        while i < self.legal_moves.len()
            invariant
                i <= self.legal_moves@.len(),
                target == exists|j: int|
                    0 <= j < i && #[trigger] self.legal_moves@[j].to_rank == rank
                        && self.legal_moves@[j].to_file == file,
            decreases self.legal_moves@.len() - i,
        {
            let mv = self.legal_moves[i];
            if mv.to_rank == rank && mv.to_file == file {
                target = true;
            }
            i = i + 1;
        }
        SquareMarks { dark, last_move, check, selected, target, capture: target && occupant.is_some() }
    }

    /// The side to move resigns.
    pub fn resign(&mut self)
        requires
            old(self).inv(),
        ensures
            final(self).inv(),
            final(self).board == old(self).board,
            final(self).game_state == GameState::GameOver(win_against(old(self).board@.turn)),
            !final(self).timer.white_clock().spec_running(),
            !final(self).timer.black_clock().spec_running(),
    {
        let result = match self.board.current_turn {
            Color::White => GameResult::BlackWins,
            Color::Black => GameResult::WhiteWins,
        };
        self.timer.stop_all();
        self.game_state = GameState::GameOver(result);
    }

    /// Why the game ended, as shown on the game-over screen.
    pub fn game_over_reason(&self) -> (s: &'static str)
        requires
            self.inv(),
            clocks_room(self.board@, 1),
        ensures
            exists|wf: bool, bf: bool|
                #![trigger flag_reading(self.timer.white_clock(), wf), flag_reading(self.timer.black_clock(), bf)]
                flag_reading(self.timer.white_clock(), wf) && flag_reading(self.timer.black_clock(), bf) && s@
                    == reason_text(self.board@, wf, bf),
    {
        proof {
            lemma_wf_playable(self.board@);
        }
        let ghost w0 = self.timer.white_clock().banked().nanos == 0;
        let ghost b0 = self.timer.black_clock().banked().nanos == 0;
        assert(flag_reading(self.timer.white_clock(), w0));
        assert(flag_reading(self.timer.black_clock(), b0));
        if MoveGenerator::is_checkmate(&self.board) {
            "Checkmate"
        } else if MoveGenerator::is_stalemate(&self.board) {
            "Stalemate"
        } else {
            let white_out = self.timer.white_flagged();
            let black_out = self.timer.black_flagged();
            if white_out {
                "White flagged"
            } else if black_out {
                "Black flagged"
            } else if MoveGenerator::is_insufficient_material(&self.board) {
                "Insufficient material"
            } else if MoveGenerator::is_fifty_move_draw(&self.board) {
                "50-move rule"
            } else {
                "Resignation"
            }
        }
    }

    /// One frame of play: run the clocks; when the animation has ended, play
    /// the move and, if the bot is due, let it pick its reply; then check for
    /// the end of the game. Returns the piece to show moving, if the bot
    /// began a move.
    pub fn step_frame(&mut self, animation_done: bool) -> (shown: Option<Piece>)
        requires
            old(self).inv(),
            clocks_room(old(self).board@, 11),
            animation_done ==> old(self).animating,
        ensures
            final(self).inv(),
            animation_done && old(self).animating ==> final(self).board@ == old(self).board@.play(
                old(self).last_move.unwrap(),
            ),
            !(animation_done && old(self).animating) ==> final(self).board == old(self).board,
            !animation_done ==> final(self).animating == old(self).animating && final(self).last_move
                == old(self).last_move && final(self).pending_bot_move == old(self).pending_bot_move,
            animation_done && old(self).pending_bot_move ==> !final(self).pending_bot_move
                || final(self).game_state != GameState::Playing,
            mated(final(self).board@) ==> final(self).game_state == GameState::GameOver(
                win_against(final(self).board@.turn),
            ),
            !mated(final(self).board@) && drawn(final(self).board@) ==> final(self).game_state
                == GameState::GameOver(GameResult::Draw),
            animation_done && old(self).pending_bot_move && final(self).game_state == GameState::Playing
                ==> shown is Some && final(self).animating && !final(self).pending_bot_move
                && (final(self).last_move matches Some(mv) && legal_moves(final(self).board@).contains(mv)),
            (shown is Some) ==> animation_done && old(self).pending_bot_move && final(self).animating
                && (final(self).last_move matches Some(mv) && legal_moves(final(self).board@).contains(mv)
                && (!final(self).bot.spec_timed_out() ==> mv == root_choice(
                final(self).board@,
                old(self).bot.spec_difficulty().depth(),
            ))),
            final(self).bot.spec_difficulty() == old(self).bot.spec_difficulty(),
            final(self).bot.spec_time_limit() == old(self).bot.spec_time_limit(),
            old(self).bot.spec_time_limit().nanos == u128::MAX && !old(self).bot.spec_timed_out()
                ==> !final(self).bot.spec_timed_out(),
    {
        self.timer.update();
        let mut shown = None;
        if animation_done {
            self.complete_move_animation();
            // If bot move is pending, trigger it after the animation
            if self.pending_bot_move && self.game_state == GameState::Playing {
                self.pending_bot_move = false;
                shown = self.make_bot_move();
            }
        }
        self.check_game_over();
        shown
    }
}

/// A move found among offered moves is one of them.
proof fn lemma_first_between_in(s: Seq<Move>, fr: usize, ff: usize, tr: usize, tf: usize)
    ensures
        first_between(s, fr, ff, tr, tf) matches Some(mv) ==> s.contains(mv) && mv.from_rank == fr
            && mv.from_file == ff && mv.to_rank == tr && mv.to_file == tf,
    decreases s.len(),
{
    if s.len() > 0 {
        let rest = s.subrange(1, s.len() as int);
        lemma_first_between_in(rest, fr, ff, tr, tf);
        match first_between(rest, fr, ff, tr, tf) {
            Some(mv) => {
                if rest.contains(mv) {
                    let j = choose|j: int| 0 <= j < rest.len() && rest[j] == mv;
                    assert(s[j + 1] == mv);
                }
            },
            None => {},
        }
        assert(s[0] == s[0]);
    }
}

} // verus!
