//! Rules engine for a two-player chess match.

pub mod chess_error;
pub mod chess_model;
pub mod game;
pub mod laws;
pub mod legality;
pub mod move_generator;
pub mod position;

pub use crate::game::ChessGame;
