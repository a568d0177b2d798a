use chess_engine::bot::BotDifficulty;
use chess_engine::gui::{board_to_screen, screen_to_board, time_verdict, ChessApp, GameMode, GameResult, GameState};
use chess_engine::timer::TimeControl;
use chess_engine::moves::Move;
use chess_engine::pieces::{Color, PieceType};

#[test]
fn new_app_starts_on_title() {
    let app = ChessApp::new();
    assert_eq!(app.game_state, GameState::Title);
    assert_eq!(app.game_mode, GameMode::VsBot);
    assert_eq!(app.bot_difficulty, BotDifficulty::Medium);
    assert_eq!(app.player_color, Color::White);
    assert!(!app.flipped);
}

#[test]
fn start_game_as_black_against_bot() {
    let mut app = ChessApp::new();
    app.player_color = Color::Black;
    app.start_game();
    assert_eq!(app.game_state, GameState::Playing);
    assert!(app.flipped);
    assert!(app.pending_bot_move);
    assert!(app.timer.white.is_running());
    // it is the bot's turn: clicks are ignored
    assert_eq!(app.handle_square_click(6, 4), None);
    assert_eq!(app.selected_square, None);
}

#[test]
fn select_and_move_a_pawn() {
    let mut app = ChessApp::new();
    app.game_mode = GameMode::LocalPvP;
    app.start_game();
    assert_eq!(app.handle_square_click(1, 4), None);
    assert_eq!(app.selected_square, Some((1, 4)));
    assert_eq!(app.legal_moves.len(), 2);
    let shown = app.handle_square_click(3, 4);
    assert_eq!(shown.map(|p| p.piece_type), Some(PieceType::Pawn));
    assert!(app.animating);
    assert_eq!(app.last_move, Some(Move::new(1, 4, 3, 4)));
    assert_eq!(app.selected_square, None);
    app.complete_move_animation();
    assert!(!app.animating);
    assert_eq!(app.board.current_turn, Color::Black);
    assert!(app.timer.black.is_running());
    assert_eq!(app.game_state, GameState::Playing);
}

#[test]
fn clicking_an_empty_square_clears_selection() {
    let mut app = ChessApp::new();
    app.game_mode = GameMode::LocalPvP;
    app.start_game();
    app.handle_square_click(0, 1);
    assert_eq!(app.selected_square, Some((0, 1)));
    app.handle_square_click(4, 4);
    assert_eq!(app.selected_square, None);
    assert!(app.legal_moves.is_empty());
}

#[test]
fn resign_gives_the_game_away() {
    let mut app = ChessApp::new();
    app.start_game();
    app.resign();
    assert_eq!(app.game_state, GameState::GameOver(GameResult::BlackWins));
    assert_eq!(app.game_over_reason(), "Resignation");
}

#[test]
fn fools_mate_ends_the_game() {
    let mut app = ChessApp::new();
    app.game_mode = GameMode::LocalPvP;
    app.start_game();
    for (from, to) in [((1, 5), (2, 5)), ((6, 4), (4, 4)), ((1, 6), (3, 6)), ((7, 3), (3, 7))] {
        app.handle_square_click(from.0, from.1);
        assert!(app.handle_square_click(to.0, to.1).is_some());
        app.complete_move_animation();
    }
    assert_eq!(app.game_state, GameState::GameOver(GameResult::BlackWins));
    assert_eq!(app.game_over_reason(), "Checkmate");
}

#[test]
fn bot_replies_after_the_players_move() {
    let mut app = ChessApp::new();
    app.bot_difficulty = BotDifficulty::Easy;
    app.start_game();
    app.handle_square_click(1, 4);
    app.handle_square_click(3, 4);
    assert!(app.pending_bot_move);
    let shown = app.step_frame(true);
    assert!(shown.is_some());
    assert!(app.animating);
    assert!(!app.pending_bot_move);
    assert_eq!(app.board.current_turn, Color::Black);
    app.step_frame(true);
    assert_eq!(app.board.current_turn, Color::White);
}

#[test]
fn screen_mapping_puts_white_at_the_bottom() {
    // a1 is the bottom-left square, h8 the top-right one
    assert_eq!(board_to_screen(0, 0, false), (0, 7));
    assert_eq!(board_to_screen(7, 7, false), (7, 0));
    // flipped: a1 at the top-right
    assert_eq!(board_to_screen(0, 0, true), (7, 0));
    assert_eq!(board_to_screen(3, 5, true), (2, 3));
    assert_eq!(screen_to_board(0, 7, false), (0, 0));
    assert_eq!(screen_to_board(2, 3, true), (3, 5));
}

#[test]
fn screen_mapping_round_trips() {
    for flipped in [false, true] {
        for rank in 0..8 {
            for file in 0..8 {
                let (col, row) = board_to_screen(rank, file, flipped);
                assert_eq!(screen_to_board(col, row, flipped), (rank, file));
            }
        }
    }
}

#[test]
fn square_marks_follow_the_selection() {
    let mut app = ChessApp::new();
    app.game_mode = GameMode::LocalPvP;
    app.start_game();
    let a1 = app.square_marks(0, 0);
    assert!(a1.dark);
    assert!(!a1.selected && !a1.target && !a1.capture && !a1.check && !a1.last_move);
    assert!(!app.square_marks(0, 1).dark);
    app.handle_square_click(1, 4);
    assert!(app.square_marks(1, 4).selected);
    assert!(app.square_marks(2, 4).target);
    assert!(app.square_marks(3, 4).target);
    assert!(!app.square_marks(4, 4).target);
    assert!(!app.square_marks(3, 4).capture);
}

#[test]
fn square_marks_show_the_last_move_and_check() {
    let mut app = ChessApp::new();
    app.game_mode = GameMode::LocalPvP;
    app.start_game();
    // 1. f3 e5 2. g4 Qh4#
    for (fr, ff, tr, tf) in [(1, 5, 2, 5), (6, 4, 4, 4), (1, 6, 3, 6), (7, 3, 3, 7)] {
        app.handle_square_click(fr, ff);
        assert!(app.handle_square_click(tr, tf).is_some());
        app.step_frame(true);
    }
    assert!(app.square_marks(7, 3).last_move);
    assert!(app.square_marks(3, 7).last_move);
    assert!(!app.square_marks(3, 6).last_move);
    assert!(app.square_marks(0, 4).check);
    assert!(!app.square_marks(7, 4).check);
}

#[test]
fn bot_finds_no_move_after_mate() {
    let mut app = ChessApp::new();
    app.game_mode = GameMode::LocalPvP;
    app.start_game();
    for (fr, ff, tr, tf) in [(1, 5, 2, 5), (6, 4, 4, 4), (1, 6, 3, 6), (7, 3, 3, 7)] {
        app.handle_square_click(fr, ff);
        assert!(app.handle_square_click(tr, tf).is_some());
        app.complete_move_animation();
    }
    let last = app.last_move;
    assert_eq!(app.make_bot_move(), None);
    assert!(!app.animating);
    assert_eq!(app.last_move, last);
}

#[test]
fn time_verdict_decides_on_flags() {
    assert_eq!(time_verdict(true, false, GameState::Playing), GameState::GameOver(GameResult::BlackWins));
    assert_eq!(time_verdict(false, true, GameState::Playing), GameState::GameOver(GameResult::WhiteWins));
    assert_eq!(time_verdict(true, true, GameState::Playing), GameState::GameOver(GameResult::BlackWins));
    assert_eq!(time_verdict(false, false, GameState::Playing), GameState::Playing);
}

#[test]
fn start_game_sets_full_clocks_and_fresh_board() {
    let mut app = ChessApp::new();
    app.game_mode = GameMode::LocalPvP;
    app.time_control = TimeControl::Bullet;
    app.start_game();
    app.handle_square_click(1, 4);
    app.handle_square_click(3, 4);
    app.step_frame(true);
    app.start_game();
    assert!(app.board.undo_stack.is_empty());
    assert_eq!(app.board.current_turn, Color::White);
    assert_eq!(app.timer.black.remaining(), TimeControl::Bullet.duration());
    assert!(!app.timer.black.is_running());
    assert!(app.timer.white.is_running());
}

#[test]
fn result_headlines() {
    assert_eq!(GameResult::WhiteWins.text(), "White Wins!");
    assert_eq!(GameResult::BlackWins.text(), "Black Wins!");
    assert_eq!(GameResult::Draw.text(), "Draw!");
}

#[test]
fn bot_replies_in_the_same_frame_the_move_lands() {
    let mut app = ChessApp::new();
    app.bot_difficulty = BotDifficulty::Easy;
    app.start_game();
    assert!(app.handle_square_click(1, 4).is_none());
    assert!(app.handle_square_click(3, 4).is_some());
    assert!(app.pending_bot_move);
    let shown = app.step_frame(true);
    assert!(shown.is_some());
    assert!(app.animating);
    assert!(!app.pending_bot_move);
    assert_eq!(app.board.current_turn, Color::Black);
}
