//! Chess position representation, FEN codec and strictly-legal move generation.
//!
//! - `square`: squares as indices `column + 8 * line` and the sixteen step directions.
//! - `piece`: colors, kinds and their FEN glyphs.
//! - `moves`: moves, their kinds, and UCI move text.
//! - `board`: positions and how a move changes one.
//! - `fen`: reading and writing Forsyth–Edwards Notation.
//! - `move_generation`: attacked squares, pseudo-legal moves and the legality filter.
//! - `laws`: what holds of every legal move once it is played.
use vstd::prelude::*;

pub mod board;
pub mod fen;
pub mod laws;
pub mod move_generation;
pub mod moves;
pub mod piece;
pub mod square;
mod text;

verus! {

} // verus!
