use chess_engine::board::{Board, CastlingRights};
use chess_engine::moves::{Move, MoveGenerator};
use chess_engine::pieces::{Color, Piece, PieceType};

fn piece(color: Color, kind: PieceType) -> Option<Piece> {
    Some(Piece::new(color, kind))
}

fn kings_only(white_king: (usize, usize), black_king: (usize, usize)) -> Board {
    let mut board = Board::new();
    for rank in 0..8 {
        for file in 0..8 {
            board.set(rank, file, None);
        }
    }
    board.set(white_king.0, white_king.1, piece(Color::White, PieceType::King));
    board.set(black_king.0, black_king.1, piece(Color::Black, PieceType::King));
    board.king_positions = [Some(white_king), Some(black_king)];
    board.castling_rights = CastlingRights {
        white_kingside: false,
        white_queenside: false,
        black_kingside: false,
        black_queenside: false,
    };
    board
}

#[test]
fn move_builders() {
    let m = Move::new(1, 2, 3, 4);
    assert_eq!((m.from_rank, m.from_file, m.to_rank, m.to_file), (1, 2, 3, 4));
    assert_eq!(m.promotion, None);
    assert!(!m.is_castling && !m.is_en_passant);
    assert_eq!(m.with_promotion(PieceType::Rook).promotion, Some(PieceType::Rook));
    assert!(m.as_castling().is_castling);
    assert!(m.as_en_passant().is_en_passant);
}

#[test]
fn twenty_moves_at_the_start() {
    let board = Board::new();
    assert_eq!(MoveGenerator::generate_pseudo_legal_moves(&board).len(), 20);
    let legal = MoveGenerator::generate_legal_moves(&board);
    assert_eq!(legal.len(), 20);
    // rank by rank, file by file: the b1 knight comes first
    assert_eq!(legal[0], Move::new(0, 1, 2, 0));
    assert_eq!(legal[1], Move::new(0, 1, 2, 2));
    // then the pawns, each with its single and double step
    assert_eq!(legal[4], Move::new(1, 0, 2, 0));
    assert_eq!(legal[5], Move::new(1, 0, 3, 0));
}

#[test]
fn perft_two_plies() {
    let board = Board::new();
    let mut total = 0;
    for mv in MoveGenerator::generate_legal_moves(&board) {
        let mut b = board.clone();
        b.make_move(mv);
        total += MoveGenerator::generate_legal_moves(&b).len();
    }
    assert_eq!(total, 400);
}

#[test]
fn pinned_piece_cannot_move() {
    let mut board = kings_only((0, 4), (7, 7));
    board.set(1, 4, piece(Color::White, PieceType::Knight));
    board.set(5, 4, piece(Color::Black, PieceType::Rook));
    let pseudo = MoveGenerator::generate_pseudo_legal_moves(&board);
    let legal = MoveGenerator::generate_legal_moves(&board);
    assert!(pseudo.iter().any(|m| m.from_rank == 1 && m.from_file == 4));
    assert!(!legal.iter().any(|m| m.from_rank == 1 && m.from_file == 4));
}

#[test]
fn fools_mate_is_checkmate() {
    let mut board = Board::new();
    board.make_move(Move::new(1, 5, 2, 5)); // f3
    board.make_move(Move::new(6, 4, 4, 4)); // e5
    board.make_move(Move::new(1, 6, 3, 6)); // g4
    board.make_move(Move::new(7, 3, 3, 7)); // Qh4#
    assert!(board.is_in_check(Color::White));
    assert!(MoveGenerator::is_checkmate(&board));
    assert!(!MoveGenerator::is_stalemate(&board));
    assert!(MoveGenerator::generate_legal_moves(&board).is_empty());
}

#[test]
fn stalemate_position() {
    // Black king a8, white queen b6, white king c1: Black to move has no moves
    let mut board = kings_only((0, 2), (7, 0));
    board.set(5, 1, piece(Color::White, PieceType::Queen));
    board.current_turn = Color::Black;
    assert!(!board.is_in_check(Color::Black));
    assert!(MoveGenerator::is_stalemate(&board));
    assert!(!MoveGenerator::is_checkmate(&board));
}

#[test]
fn insufficient_material_cases() {
    let board = kings_only((0, 0), (7, 7));
    assert!(MoveGenerator::is_insufficient_material(&board));

    let mut lone_bishop = kings_only((0, 0), (7, 7));
    lone_bishop.set(3, 3, piece(Color::White, PieceType::Bishop));
    assert!(MoveGenerator::is_insufficient_material(&lone_bishop));

    let mut lone_knight = kings_only((0, 0), (7, 7));
    lone_knight.set(3, 3, piece(Color::Black, PieceType::Knight));
    assert!(MoveGenerator::is_insufficient_material(&lone_knight));

    let mut rook = kings_only((0, 0), (7, 7));
    rook.set(3, 3, piece(Color::White, PieceType::Rook));
    assert!(!MoveGenerator::is_insufficient_material(&rook));

    let mut same_shade = kings_only((0, 0), (7, 7));
    same_shade.set(2, 2, piece(Color::White, PieceType::Bishop));
    same_shade.set(5, 3, piece(Color::Black, PieceType::Bishop));
    assert!(MoveGenerator::is_insufficient_material(&same_shade));

    let mut other_shade = kings_only((0, 0), (7, 7));
    other_shade.set(2, 2, piece(Color::White, PieceType::Bishop));
    other_shade.set(5, 2, piece(Color::Black, PieceType::Bishop));
    assert!(!MoveGenerator::is_insufficient_material(&other_shade));

    // a pawn can still promote
    let mut pawns = kings_only((0, 4), (7, 4));
    pawns.set(1, 0, piece(Color::White, PieceType::Pawn));
    assert!(!MoveGenerator::is_insufficient_material(&pawns));

    let mut bishop_and_pawn = kings_only((0, 0), (7, 7));
    bishop_and_pawn.set(3, 3, piece(Color::White, PieceType::Bishop));
    bishop_and_pawn.set(6, 1, piece(Color::Black, PieceType::Pawn));
    assert!(!MoveGenerator::is_insufficient_material(&bishop_and_pawn));

    assert!(!MoveGenerator::is_insufficient_material(&Board::new()));
}

#[test]
fn fifty_move_rule() {
    let mut board = Board::new();
    assert!(!MoveGenerator::is_fifty_move_draw(&board));
    board.halfmove_clock = 99;
    assert!(!MoveGenerator::is_fifty_move_draw(&board));
    board.halfmove_clock = 100;
    assert!(MoveGenerator::is_fifty_move_draw(&board));
}

#[test]
fn rook_moves_stop_at_pieces() {
    let mut board = kings_only((0, 0), (7, 7));
    board.set(3, 3, piece(Color::White, PieceType::Rook));
    board.set(3, 5, piece(Color::Black, PieceType::Pawn));
    board.set(5, 3, piece(Color::White, PieceType::Pawn));
    let moves: Vec<Move> = MoveGenerator::generate_pseudo_legal_moves(&board)
        .into_iter()
        .filter(|m| m.from_rank == 3 && m.from_file == 3)
        .collect();
    // right: e4 and the capture on f4; left: c4, b4, a4; up: d5; down: d3, d2, d1
    assert_eq!(moves.len(), 9);
    assert_eq!(moves[0], Move::new(3, 3, 3, 4));
    assert_eq!(moves[1], Move::new(3, 3, 3, 5));
    assert!(!moves.contains(&Move::new(3, 3, 5, 3)));
}

#[test]
fn generated_moves_never_land_on_own_pieces() {
    let mut board = Board::new();
    for (fr, ff, tr, tf) in [(1, 4, 3, 4), (6, 3, 4, 3), (0, 6, 2, 5), (7, 1, 5, 2), (0, 5, 4, 1)] {
        board.make_move(Move::new(fr, ff, tr, tf));
    }
    let moves = MoveGenerator::generate_pseudo_legal_moves(&board);
    assert!(!moves.is_empty());
    for mv in &moves {
        let mover = board.get(mv.from_rank, mv.from_file).unwrap();
        assert_eq!(mover.color, board.current_turn);
        if let Some(target) = board.get(mv.to_rank, mv.to_file) {
            assert_ne!(target.color, board.current_turn);
        }
    }
}
