use chess_engine::board::{Board, CastlingRights};
use chess_engine::moves::{Move, MoveGenerator};
use chess_engine::pieces::{Color, Piece, PieceType};

fn piece(color: Color, kind: PieceType) -> Option<Piece> {
    Some(Piece::new(color, kind))
}

/// A board with only the two kings, on `white_king` and `black_king`, and no castling rights.
fn kings_only(white_king: (usize, usize), black_king: (usize, usize)) -> Board {
    let mut board = Board::new();
    for rank in 0..8 {
        for file in 0..8 {
            board.set(rank, file, None);
        }
    }
    board.set(white_king.0, white_king.1, piece(Color::White, PieceType::King));
    board.set(black_king.0, black_king.1, piece(Color::Black, PieceType::King));
    board.king_positions = [Some(white_king), Some(black_king)];
    board.castling_rights = CastlingRights {
        white_kingside: false,
        white_queenside: false,
        black_kingside: false,
        black_queenside: false,
    };
    board
}

fn same_position(a: &Board, b: &Board) -> bool {
    a.squares == b.squares
        && a.current_turn == b.current_turn
        && a.castling_rights == b.castling_rights
        && a.en_passant == b.en_passant
        && a.halfmove_clock == b.halfmove_clock
        && a.fullmove_number == b.fullmove_number
        && a.king_positions == b.king_positions
        && a.undo_stack.len() == b.undo_stack.len()
}

#[test]
fn new_board_has_starting_position() {
    let board = Board::new();
    assert_eq!(board.get(0, 4), piece(Color::White, PieceType::King));
    assert_eq!(board.get(7, 3), piece(Color::Black, PieceType::Queen));
    assert_eq!(board.get(1, 5), piece(Color::White, PieceType::Pawn));
    assert_eq!(board.get(6, 0), piece(Color::Black, PieceType::Pawn));
    assert_eq!(board.get(0, 1), piece(Color::White, PieceType::Knight));
    assert_eq!(board.get(7, 7), piece(Color::Black, PieceType::Rook));
    assert_eq!(board.get(4, 4), None);
    assert_eq!(board.current_turn, Color::White);
    assert_eq!(board.fullmove_number, 1);
    assert_eq!(board.halfmove_clock, 0);
    assert_eq!(board.en_passant, None);
    assert_eq!(board.castling_rights, CastlingRights::default());
    assert!(board.undo_stack.is_empty());
}

#[test]
fn default_board_is_new_board() {
    let a = Board::default();
    let b = Board::new();
    assert!(same_position(&a, &b));
}

#[test]
fn find_king_uses_cache() {
    let board = Board::new();
    assert_eq!(board.find_king(Color::White), Some((0, 4)));
    assert_eq!(board.find_king(Color::Black), Some((7, 4)));
}

#[test]
fn set_then_get() {
    let mut board = Board::new();
    board.set(3, 3, piece(Color::Black, PieceType::Knight));
    assert_eq!(board.get(3, 3), piece(Color::Black, PieceType::Knight));
    board.set(3, 3, None);
    assert_eq!(board.get(3, 3), None);
}

#[test]
fn attacks_in_starting_position() {
    let board = Board::new();
    // c3 is covered by the b1 knight and the b2 and d2 pawns
    assert!(board.is_square_attacked(2, 2, Color::White));
    // e4 is covered by nothing
    assert!(!board.is_square_attacked(3, 4, Color::White));
    assert!(!board.is_square_attacked(3, 4, Color::Black));
    // f6 is covered by the g8 knight
    assert!(board.is_square_attacked(5, 5, Color::Black));
    assert!(!board.is_in_check(Color::White));
    assert!(!board.is_in_check(Color::Black));
}

#[test]
fn sliding_attack_is_blocked() {
    let mut board = kings_only((0, 0), (7, 7));
    board.set(3, 0, piece(Color::Black, PieceType::Rook));
    assert!(board.is_square_attacked(1, 0, Color::Black));
    assert!(board.is_in_check(Color::White));
    board.set(2, 0, piece(Color::White, PieceType::Bishop));
    assert!(!board.is_square_attacked(1, 0, Color::Black));
    assert!(!board.is_in_check(Color::White));
    // the diagonal queen sees along the open diagonal
    board.set(4, 4, piece(Color::Black, PieceType::Queen));
    assert!(board.is_square_attacked(1, 1, Color::Black));
    assert!(board.is_in_check(Color::White));
    board.set(2, 2, piece(Color::White, PieceType::Pawn));
    assert!(!board.is_square_attacked(1, 1, Color::Black));
    assert!(!board.is_in_check(Color::White));
}

#[test]
fn make_move_updates_state() {
    let mut board = Board::new();
    board.make_move(Move::new(1, 4, 3, 4));
    assert_eq!(board.get(3, 4), piece(Color::White, PieceType::Pawn));
    assert_eq!(board.get(1, 4), None);
    assert_eq!(board.en_passant, Some((2, 4)));
    assert_eq!(board.current_turn, Color::Black);
    assert_eq!(board.halfmove_clock, 0);
    assert_eq!(board.fullmove_number, 1);
    board.make_move(Move::new(7, 6, 5, 5));
    assert_eq!(board.en_passant, None);
    assert_eq!(board.halfmove_clock, 1);
    assert_eq!(board.fullmove_number, 2);
    assert_eq!(board.current_turn, Color::White);
    assert_eq!(board.undo_stack.len(), 2);
}

#[test]
fn undo_restores_every_legal_move() {
    let board = Board::new();
    for mv in MoveGenerator::generate_legal_moves(&board) {
        let mut b = board.clone();
        b.make_move(mv);
        b.undo_move();
        assert!(same_position(&b, &board));
    }
}

#[test]
fn undo_on_empty_history_changes_nothing() {
    let mut board = Board::new();
    let before = board.clone();
    board.undo_move();
    assert!(same_position(&board, &before));
}

#[test]
fn en_passant_capture_and_undo() {
    let mut board = kings_only((0, 4), (7, 4));
    board.set(4, 4, piece(Color::White, PieceType::Pawn));
    board.set(6, 3, piece(Color::Black, PieceType::Pawn));
    board.current_turn = Color::Black;
    board.make_move(Move::new(6, 3, 4, 3));
    assert_eq!(board.en_passant, Some((5, 3)));
    let moves = MoveGenerator::generate_legal_moves(&board);
    let ep = Move::new(4, 4, 5, 3).as_en_passant();
    assert!(moves.contains(&ep));
    let before = board.clone();
    board.make_move(ep);
    assert_eq!(board.get(4, 3), None);
    assert_eq!(board.get(5, 3), piece(Color::White, PieceType::Pawn));
    board.undo_move();
    assert!(same_position(&board, &before));
    assert_eq!(board.get(4, 3), piece(Color::Black, PieceType::Pawn));
}

#[test]
fn castling_moves_rook_and_loses_rights() {
    let mut board = kings_only((0, 4), (7, 4));
    board.set(0, 7, piece(Color::White, PieceType::Rook));
    board.set(0, 0, piece(Color::White, PieceType::Rook));
    board.castling_rights.white_kingside = true;
    board.castling_rights.white_queenside = true;
    let moves = MoveGenerator::generate_legal_moves(&board);
    let short = Move::new(0, 4, 0, 6).as_castling();
    let long = Move::new(0, 4, 0, 2).as_castling();
    assert!(moves.contains(&short));
    assert!(moves.contains(&long));
    let before = board.clone();
    board.make_move(short);
    assert_eq!(board.get(0, 6), piece(Color::White, PieceType::King));
    assert_eq!(board.get(0, 5), piece(Color::White, PieceType::Rook));
    assert_eq!(board.get(0, 7), None);
    assert_eq!(board.find_king(Color::White), Some((0, 6)));
    assert!(!board.castling_rights.white_kingside);
    assert!(!board.castling_rights.white_queenside);
    board.undo_move();
    assert!(same_position(&board, &before));
}

#[test]
fn no_castling_through_attacked_square() {
    let mut board = kings_only((0, 4), (7, 4));
    board.set(0, 7, piece(Color::White, PieceType::Rook));
    board.castling_rights.white_kingside = true;
    board.set(4, 5, piece(Color::Black, PieceType::Rook));
    let moves = MoveGenerator::generate_legal_moves(&board);
    assert!(!moves.contains(&Move::new(0, 4, 0, 6).as_castling()));
}

#[test]
fn promotion_offers_four_pieces() {
    let mut board = kings_only((0, 0), (7, 7));
    board.set(6, 3, piece(Color::White, PieceType::Pawn));
    let moves: Vec<Move> = MoveGenerator::generate_legal_moves(&board)
        .into_iter()
        .filter(|m| m.from_rank == 6 && m.from_file == 3)
        .collect();
    assert_eq!(moves.len(), 4);
    assert_eq!(moves[0], Move::new(6, 3, 7, 3).with_promotion(PieceType::Queen));
    assert_eq!(moves[1], Move::new(6, 3, 7, 3).with_promotion(PieceType::Rook));
    assert_eq!(moves[2], Move::new(6, 3, 7, 3).with_promotion(PieceType::Bishop));
    assert_eq!(moves[3], Move::new(6, 3, 7, 3).with_promotion(PieceType::Knight));
    let before = board.clone();
    board.make_move(moves[3]);
    assert_eq!(board.get(7, 3), piece(Color::White, PieceType::Knight));
    board.undo_move();
    assert!(same_position(&board, &before));
    assert_eq!(board.get(6, 3), piece(Color::White, PieceType::Pawn));
}

#[test]
fn moving_a_rook_loses_its_castling_right() {
    let mut board = Board::new();
    board.set(1, 0, None);
    board.make_move(Move::new(0, 0, 2, 0));
    assert!(!board.castling_rights.white_queenside);
    assert!(board.castling_rights.white_kingside);
    assert!(board.castling_rights.black_kingside);
    // landing on a corner takes the right of that corner
    let mut board = Board::new();
    board.make_move(Move::new(1, 7, 7, 7));
    assert!(!board.castling_rights.black_kingside);
    assert!(board.castling_rights.black_queenside);
}

#[test]
fn capture_resets_halfmove_clock() {
    let mut board = kings_only((0, 0), (7, 7));
    board.set(3, 3, piece(Color::White, PieceType::Rook));
    board.set(3, 6, piece(Color::Black, PieceType::Knight));
    board.halfmove_clock = 17;
    board.make_move(Move::new(3, 3, 3, 4));
    assert_eq!(board.halfmove_clock, 18);
    board.make_move(Move::new(7, 7, 7, 6));
    assert_eq!(board.halfmove_clock, 19);
    board.make_move(Move::new(3, 4, 3, 6));
    assert_eq!(board.halfmove_clock, 0);
}

#[test]
fn attack_ignores_the_square_itself() {
    let mut board = Board::new();
    // e3 is covered by White's d2 and f2 pawns
    assert!(board.is_square_attacked(2, 4, Color::White));
    board.set(2, 4, Some(Piece::new(Color::Black, PieceType::Queen)));
    assert!(board.is_square_attacked(2, 4, Color::White));
    board.set(2, 4, Some(Piece::new(Color::White, PieceType::Knight)));
    assert!(board.is_square_attacked(2, 4, Color::White));
    // e5 is not covered by White at the start, whatever stands there
    assert!(!board.is_square_attacked(4, 4, Color::White));
    board.set(4, 4, Some(Piece::new(Color::Black, PieceType::Pawn)));
    assert!(!board.is_square_attacked(4, 4, Color::White));
}
