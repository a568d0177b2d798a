//! Colors, piece kinds and pieces.

use vstd::prelude::*;

verus! {

/// Color of a chess piece
#[derive(Debug, Clone, Copy, PartialEq, Eq, Structural)]
pub enum Color {
    White,
    Black,
}

impl Color {
    pub open spec fn spec_opposite(self) -> Color {
        match self {
            Color::White => Color::Black,
            Color::Black => Color::White,
        }
    }

    pub open spec fn spec_pawn_direction(self) -> i32 {
        match self {
            Color::White => 1i32,
            Color::Black => -1i32,
        }
    }

    pub open spec fn spec_pawn_start_rank(self) -> usize {
        match self {
            Color::White => 1,
            Color::Black => 6,
        }
    }

    pub open spec fn spec_promotion_rank(self) -> usize {
        match self {
            Color::White => 7,
            Color::Black => 0,
        }
    }

    /// Returns the opposite color
    #[verifier::when_used_as_spec(spec_opposite)]
    pub fn opposite(self) -> (c: Color)
        ensures
            c == self.spec_opposite(),
    {
        match self {
            Color::White => Color::Black,
            Color::Black => Color::White,
        }
    }

    /// Returns the direction pawns move (1 for white, -1 for black)
    #[verifier::when_used_as_spec(spec_pawn_direction)]
    pub fn pawn_direction(self) -> (d: i32)
        ensures
            d == self.spec_pawn_direction(),
    {
        match self {
            Color::White => 1,
            Color::Black => -1,
        }
    }

    /// Returns the starting rank for pawns (1 for white, 6 for black)
    #[verifier::when_used_as_spec(spec_pawn_start_rank)]
    pub fn pawn_start_rank(self) -> (r: usize)
        ensures
            r == self.spec_pawn_start_rank(),
    {
        match self {
            Color::White => 1,
            Color::Black => 6,
        }
    }

    /// Returns the promotion rank for pawns (7 for white, 0 for black)
    #[verifier::when_used_as_spec(spec_promotion_rank)]
    pub fn promotion_rank(self) -> (r: usize)
        ensures
            r == self.spec_promotion_rank(),
    {
        match self {
            Color::White => 7,
            Color::Black => 0,
        }
    }
}

/// Opposing twice gives the color back.
pub proof fn lemma_opposite_involutive(c: Color)
    ensures
        c.opposite().opposite() == c,
        c.opposite() != c,
{
}

/// Type of chess piece
#[derive(Debug, Clone, Copy, PartialEq, Eq, Structural)]
pub enum PieceType {
    King,
    Queen,
    Rook,
    Bishop,
    Knight,
    Pawn,
}

impl PieceType {
    pub open spec fn spec_value(self) -> i32 {
        match self {
            PieceType::King => 20000,
            PieceType::Queen => 900,
            PieceType::Rook => 500,
            PieceType::Bishop => 330,
            PieceType::Knight => 320,
            PieceType::Pawn => 100,
        }
    }

    /// Returns the material value of the piece (in centipawns)
    #[verifier::when_used_as_spec(spec_value)]
    pub fn value(self) -> (v: i32)
        ensures
            v == self.spec_value(),
            100 <= v <= 20000,
    {
        match self {
            PieceType::King => 20000,
            PieceType::Queen => 900,
            PieceType::Rook => 500,
            PieceType::Bishop => 330,
            PieceType::Knight => 320,
            PieceType::Pawn => 100,
        }
    }
}

/// A chess piece with color and type
#[derive(Debug, Clone, Copy, PartialEq, Eq, Structural)]
pub struct Piece {
    pub color: Color,
    pub piece_type: PieceType,
}

impl Piece {
    pub fn new(color: Color, piece_type: PieceType) -> (p: Self)
        ensures
            p.color == color,
            p.piece_type == piece_type,
    {
        Piece { color, piece_type }
    }

    pub open spec fn spec_symbol(self) -> char {
        match (self.color, self.piece_type) {
            (Color::White, PieceType::King) => '\u{2654}',
            (Color::White, PieceType::Queen) => '\u{2655}',
            (Color::White, PieceType::Rook) => '\u{2656}',
            (Color::White, PieceType::Bishop) => '\u{2657}',
            (Color::White, PieceType::Knight) => '\u{2658}',
            (Color::White, PieceType::Pawn) => '\u{2659}',
            (Color::Black, PieceType::King) => '\u{265A}',
            (Color::Black, PieceType::Queen) => '\u{265B}',
            (Color::Black, PieceType::Rook) => '\u{265C}',
            (Color::Black, PieceType::Bishop) => '\u{265D}',
            (Color::Black, PieceType::Knight) => '\u{265E}',
            (Color::Black, PieceType::Pawn) => '\u{265F}',
        }
    }

    /// Returns the Unicode symbol for this piece
    pub fn symbol(self) -> (c: char)
        ensures
            c == self.spec_symbol(),
    {
        match (self.color, self.piece_type) {
            (Color::White, PieceType::King) => '\u{2654}',
            (Color::White, PieceType::Queen) => '\u{2655}',
            (Color::White, PieceType::Rook) => '\u{2656}',
            (Color::White, PieceType::Bishop) => '\u{2657}',
            (Color::White, PieceType::Knight) => '\u{2658}',
            (Color::White, PieceType::Pawn) => '\u{2659}',
            (Color::Black, PieceType::King) => '\u{265A}',
            (Color::Black, PieceType::Queen) => '\u{265B}',
            (Color::Black, PieceType::Rook) => '\u{265C}',
            (Color::Black, PieceType::Bishop) => '\u{265D}',
            (Color::Black, PieceType::Knight) => '\u{265E}',
            (Color::Black, PieceType::Pawn) => '\u{265F}',
        }
    }
}

/// Symbols are distinct: the symbol identifies the piece.
pub proof fn lemma_symbol_injective(a: Piece, b: Piece)
    ensures
        a.spec_symbol() == b.spec_symbol() ==> a == b,
{
}

} // verus!
