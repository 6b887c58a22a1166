//! Move generation and exhaustive game-tree counting (perft) for English
//! draughts, over a bit-packed board of the 32 playable squares.

pub mod bitboard;
pub mod board;
pub mod game_json;
pub mod move_generator;
pub mod moves;
pub mod perft;
