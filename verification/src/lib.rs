//! A headless chess engine: position model, move codec, legal-move
//! generation, static evaluation and a cancellable minimax search.

pub mod board;
pub mod book;
pub mod executor;
pub mod fen;
pub mod moves;
pub mod pick;
pub mod tables;
pub mod text;
pub mod zobrist;
