//! A chess engine library: board representation, move generation, search and
//! the UCI protocol front end.

pub mod bits;
pub mod types;
pub mod tables;
pub mod slider;
pub mod rng;
pub mod zobrist;
pub mod position;
pub mod board;
pub mod movegen;
pub mod tree;
pub mod debug;
pub mod transposition_table;
pub mod search;
pub mod text;
pub mod fen;
pub mod fen_law;
pub mod uci;
pub mod play;
pub mod session;
pub mod magic;
pub mod diagram;
pub mod sound;
