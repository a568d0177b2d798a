//! A chess engine: board representation, move generation, evaluation,
//! a negamax search bot and chess clocks, with their rules stated and
//! proved as contracts.

pub mod board;
pub mod geometry;
pub mod moves;
pub mod pieces;
pub mod evaluation;
pub mod timer;
pub mod bot;
pub mod gui;
pub mod legality;
