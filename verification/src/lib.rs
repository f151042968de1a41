//! A verified falling-block puzzle game engine.
//!
//! The engine owns a fixed 20 x 10 playfield, a current piece, a queued next
//! piece, and the rules for movement, rotation, gravity, locking, line
//! clearing, scoring and leveling. Every command is specified by a contract
//! over a mathematical model of the game state and proved by Verus.

pub mod board;
pub mod game;
pub mod piece;
pub mod tetromino;
