use chess_engine::pieces::{Color, Piece, PieceType};
use chess_engine::timer::{format_time, GameTimer, PlayerTimer, TimeControl, TimeSpan};

#[test]
fn color_helpers() {
    assert_eq!(Color::White.opposite(), Color::Black);
    assert_eq!(Color::Black.opposite(), Color::White);
    assert_eq!(Color::White.pawn_direction(), 1);
    assert_eq!(Color::Black.pawn_direction(), -1);
    assert_eq!(Color::White.pawn_start_rank(), 1);
    assert_eq!(Color::Black.pawn_start_rank(), 6);
    assert_eq!(Color::White.promotion_rank(), 7);
    assert_eq!(Color::Black.promotion_rank(), 0);
}

#[test]
fn piece_values() {
    assert_eq!(PieceType::King.value(), 20000);
    assert_eq!(PieceType::Queen.value(), 900);
    assert_eq!(PieceType::Rook.value(), 500);
    assert_eq!(PieceType::Bishop.value(), 330);
    assert_eq!(PieceType::Knight.value(), 320);
    assert_eq!(PieceType::Pawn.value(), 100);
}

#[test]
fn piece_symbols() {
    assert_eq!(Piece::new(Color::White, PieceType::King).symbol(), '\u{2654}');
    assert_eq!(Piece::new(Color::White, PieceType::Pawn).symbol(), '\u{2659}');
    assert_eq!(Piece::new(Color::Black, PieceType::Queen).symbol(), '\u{265B}');
    assert_eq!(Piece::new(Color::Black, PieceType::Knight).symbol(), '\u{265E}');
    let p = Piece::new(Color::Black, PieceType::Rook);
    assert_eq!(p.color, Color::Black);
    assert_eq!(p.piece_type, PieceType::Rook);
}

#[test]
fn time_spans() {
    assert_eq!(TimeSpan::from_secs(2).nanos, 2_000_000_000);
    assert_eq!(TimeSpan::from_millis(1500).nanos, 1_500_000_000);
    assert_eq!(TimeSpan::zero().nanos, 0);
    let a = TimeSpan::from_secs(5);
    let b = TimeSpan::from_secs(7);
    assert_eq!(b.saturating_sub(a), TimeSpan::from_secs(2));
    assert_eq!(a.saturating_sub(b), TimeSpan::zero());
}

#[test]
fn time_controls() {
    assert_eq!(TimeControl::Bullet.duration(), TimeSpan::from_secs(60));
    assert_eq!(TimeControl::Normal.duration(), TimeSpan::from_secs(600));
    assert_eq!(TimeControl::Custom(TimeSpan::from_secs(42)).duration(), TimeSpan::from_secs(42));
    assert_eq!(TimeControl::Bullet.name(), "Bullet (1 min)");
    assert_eq!(TimeControl::Normal.name(), "Normal (10 min)");
    assert_eq!(TimeControl::Custom(TimeSpan::zero()).name(), "Custom");
}

#[test]
fn format_time_cases() {
    assert_eq!(format_time(TimeSpan::from_secs(600)), "10:00");
    assert_eq!(format_time(TimeSpan::from_secs(65)), "1:05");
    assert_eq!(format_time(TimeSpan::from_secs(10)), "0:10");
    assert_eq!(format_time(TimeSpan::from_millis(9_540)), "0:09.5");
    assert_eq!(format_time(TimeSpan::from_millis(250)), "0:00.2");
    assert_eq!(format_time(TimeSpan::zero()), "0:00.0");
    assert_eq!(format_time(TimeSpan::from_secs(3 * 3600 + 7)), "180:07");
}

#[test]
fn player_timer_idle() {
    let mut t = PlayerTimer::new(TimeSpan::from_secs(30));
    assert!(!t.is_running());
    assert_eq!(t.remaining(), TimeSpan::from_secs(30));
    assert!(!t.is_expired());
    t.charge(TimeSpan::from_secs(10));
    // a stopped clock is not charged
    assert_eq!(t.remaining(), TimeSpan::from_secs(30));
    t.reset(TimeSpan::zero());
    assert!(t.is_expired());
}

#[test]
fn player_timer_running() {
    let mut t = PlayerTimer::new(TimeSpan::from_secs(30));
    t.start();
    assert!(t.is_running());
    assert!(t.remaining().nanos <= TimeSpan::from_secs(30).nanos);
    t.charge(TimeSpan::from_secs(10));
    assert!(t.remaining().nanos <= TimeSpan::from_secs(20).nanos);
    assert_eq!(t.remaining_after(TimeSpan::from_secs(25)), TimeSpan::zero());
    t.stop();
    assert!(!t.is_running());
    let left = t.remaining();
    assert_eq!(t.remaining(), left);
    t.reset(TimeSpan::from_secs(5));
    assert_eq!(t.remaining(), TimeSpan::from_secs(5));
}

#[test]
fn game_timer_switches_sides() {
    let mut g = GameTimer::new(TimeControl::Bullet);
    assert_eq!(g.time_control(), TimeControl::Bullet);
    assert_eq!(g.white.remaining(), TimeSpan::from_secs(60));
    g.start_white();
    assert!(g.white.is_running());
    assert!(!g.black.is_running());
    g.start_black();
    assert!(!g.white.is_running());
    assert!(g.black.is_running());
    g.update();
    g.stop_all();
    assert!(!g.white.is_running() && !g.black.is_running());
    assert!(!g.white_flagged());
    assert!(!g.black_flagged());
    g.set_time_control(TimeControl::Custom(TimeSpan::zero()));
    assert!(g.white_flagged());
    assert!(g.black_flagged());
    g.set_time_control(TimeControl::Normal);
    assert_eq!(g.black.remaining(), TimeSpan::from_secs(600));
    g.reset();
    assert_eq!(g.white.remaining(), TimeSpan::from_secs(600));
}
