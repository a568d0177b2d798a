use chess_engine::board::{Board, CastlingRights};
use chess_engine::bot::{BotDifficulty, ChessBot};
use chess_engine::evaluation::Evaluator;
use chess_engine::moves::{Move, MoveGenerator};
use chess_engine::pieces::{Color, Piece, PieceType};
use chess_engine::timer::TimeSpan;

fn piece(color: Color, kind: PieceType) -> Option<Piece> {
    Some(Piece::new(color, kind))
}

fn kings_only(white_king: (usize, usize), black_king: (usize, usize)) -> Board {
    let mut board = Board::new();
    for rank in 0..8 {
        for file in 0..8 {
            board.set(rank, file, None);
        }
    }
    board.set(white_king.0, white_king.1, piece(Color::White, PieceType::King));
    board.set(black_king.0, black_king.1, piece(Color::Black, PieceType::King));
    board.king_positions = [Some(white_king), Some(black_king)];
    board.castling_rights = CastlingRights {
        white_kingside: false,
        white_queenside: false,
        black_kingside: false,
        black_queenside: false,
    };
    board
}

#[test]
fn starting_position_is_balanced() {
    let board = Board::new();
    assert_eq!(Evaluator::evaluate_absolute(&board), 0);
    assert_eq!(Evaluator::evaluate(&board, Color::White), 0);
    assert_eq!(Evaluator::evaluate(&board, Color::Black), 0);
}

#[test]
fn evaluation_perspectives_are_opposite() {
    let mut board = Board::new();
    board.make_move(Move::new(1, 4, 3, 4));
    let white = Evaluator::evaluate(&board, Color::White);
    let black = Evaluator::evaluate(&board, Color::Black);
    assert_eq!(white, -black);
    assert_eq!(Evaluator::evaluate_absolute_for(&board, Color::Black), black);
    assert_eq!(Evaluator::evaluate_absolute(&board), white);
}

#[test]
fn evaluation_exact_value() {
    // white king e1, black king e8 (endgame tables), white knight d4
    let mut board = kings_only((0, 4), (7, 4));
    board.set(3, 3, piece(Color::White, PieceType::Knight));
    // knight: 320 + KNIGHT_TABLE[4][3] = 20; kings: END_TABLE[7][4] = -30 each, cancel
    // mobility: knight on d4 reaches 8 squares: 2 * 8
    assert_eq!(Evaluator::evaluate_absolute(&board), 320 + 20 + 16);
}

#[test]
fn checkmate_score_constant() {
    assert_eq!(Evaluator::CHECKMATE_SCORE, 100000);
}

#[test]
fn bot_difficulty_depths_and_names() {
    assert_eq!(BotDifficulty::Easy.depth(), 2);
    assert_eq!(BotDifficulty::Medium.depth(), 3);
    assert_eq!(BotDifficulty::Hard.depth(), 4);
    assert_eq!(BotDifficulty::Easy.name(), "Easy");
    assert_eq!(BotDifficulty::Medium.name(), "Medium");
    assert_eq!(BotDifficulty::Hard.name(), "Hard");
}

#[test]
fn bot_finds_mate_in_one() {
    // White: king g1, rook a1; Black: king g8 behind its pawns. Ra8 mates.
    let mut board = kings_only((0, 6), (7, 6));
    board.set(0, 0, piece(Color::White, PieceType::Rook));
    board.set(6, 5, piece(Color::Black, PieceType::Pawn));
    board.set(6, 6, piece(Color::Black, PieceType::Pawn));
    board.set(6, 7, piece(Color::Black, PieceType::Pawn));
    let mut bot = ChessBot::new(BotDifficulty::Easy);
    bot.set_time_limit(TimeSpan::from_secs(60));
    let mv = bot.find_best_move(&board);
    assert_eq!(mv, Some(Move::new(0, 0, 7, 0)));
    assert!(bot.nodes_searched() > 0);
}

#[test]
fn bot_takes_hanging_queen() {
    let mut board = kings_only((0, 0), (7, 7));
    board.set(3, 3, piece(Color::White, PieceType::Rook));
    board.set(3, 6, piece(Color::Black, PieceType::Queen));
    let mut bot = ChessBot::new(BotDifficulty::Easy);
    let mv = bot.find_best_move(&board);
    assert_eq!(mv, Some(Move::new(3, 3, 3, 6)));
}

#[test]
fn bot_has_no_move_when_mated() {
    let mut board = Board::new();
    board.make_move(Move::new(1, 5, 2, 5));
    board.make_move(Move::new(6, 4, 4, 4));
    board.make_move(Move::new(1, 6, 3, 6));
    board.make_move(Move::new(7, 3, 3, 7));
    let mut bot = ChessBot::new(BotDifficulty::Hard);
    assert_eq!(bot.find_best_move(&board), None);
    assert_eq!(bot.nodes_searched(), 0);
}

#[test]
fn bot_move_is_legal_from_start() {
    let board = Board::new();
    let mut bot = ChessBot::new(BotDifficulty::Easy);
    let mv = bot.find_best_move(&board).unwrap();
    assert!(MoveGenerator::generate_legal_moves(&board).contains(&mv));
}

#[test]
fn bot_new_counts_nothing() {
    let bot = ChessBot::new(BotDifficulty::Medium);
    assert_eq!(bot.nodes_searched(), 0);
}

/// The board seen in a mirror: ranks reversed and colors swapped.
fn mirror(board: &Board) -> Board {
    let mut mirrored = board.clone();
    for rank in 0..8 {
        for file in 0..8 {
            let swapped = board
                .get(7 - rank, file)
                .map(|p| Piece::new(p.color.opposite(), p.piece_type));
            mirrored.set(rank, file, swapped);
        }
    }
    mirrored
}

#[test]
fn mirrored_positions_score_opposite() {
    let mut board = Board::new();
    for (fr, ff, tr, tf) in [(1, 4, 3, 4), (6, 3, 4, 3), (0, 6, 2, 5), (7, 1, 5, 2), (0, 5, 4, 1)] {
        board.make_move(Move::new(fr, ff, tr, tf));
    }
    let score = Evaluator::evaluate_absolute(&board);
    assert_ne!(score, 0);
    assert_eq!(Evaluator::evaluate_absolute(&mirror(&board)), -score);

    let mut sparse = kings_only((0, 6), (6, 2));
    sparse.set(3, 3, piece(Color::White, PieceType::Queen));
    sparse.set(5, 5, piece(Color::Black, PieceType::Rook));
    sparse.set(1, 0, piece(Color::White, PieceType::Pawn));
    let score = Evaluator::evaluate_absolute(&sparse);
    assert_eq!(Evaluator::evaluate_absolute(&mirror(&sparse)), -score);
    assert_eq!(Evaluator::evaluate(&mirror(&sparse), Color::Black), Evaluator::evaluate(&sparse, Color::White));
}
