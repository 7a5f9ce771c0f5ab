//! Chess rules, move generation and notation, with the game-screen logic of
//! a terminal front-end and a random opponent.

pub mod attacks;
pub mod encode;
pub mod bitboard;
pub mod brain;
pub mod fen;
pub mod fen_round;
pub mod game;
pub mod legality;
pub mod model;
pub mod movegen;
pub mod moves;
pub mod perft;
pub mod san;
pub mod screen;
pub mod position;
pub mod text;
pub mod types;
pub mod uci;
pub mod ui;
pub mod zobrist;

pub use bitboard::Bitboard;
pub use moves::{Move, MoveFlags, MoveList};
pub use types::{CastlingRights, Color, Piece, PieceKind, Square};
