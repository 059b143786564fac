pub mod attacks;
pub mod bitboard;
pub mod board;
pub mod chess_move;
pub mod coord;
pub mod engine;
pub mod evaluate;
pub mod fen;
pub mod moves;
pub mod piece;
mod text;
