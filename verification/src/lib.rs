//! A chess rules engine.
//!
//! The engine keeps a board state and computes the set of fully legal moves
//! for the side to move, including check avoidance, castling, en passant and
//! pawn promotion.  Every move-generation function carries a contract that
//! pins its result to a mathematical model of the rules of chess, stated over
//! `Map` and `Set` views of the board.

pub mod apply;
pub mod attack;
pub mod board;
pub mod laws;
pub mod legality;
pub mod maps;
pub mod movegen;
pub mod pieces;
pub mod rules;
pub mod sets;
pub mod state;

pub use board::Board;
pub use pieces::Castling;
pub use pieces::PieceColor;
pub use pieces::PieceType;
pub use pieces::Position;
pub use pieces::is_valid_chess_position;
