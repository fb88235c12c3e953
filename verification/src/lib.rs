//! A verified chess rules engine.
//!
//! A [`BoardState`] is read from a FEN record with `BoardState::from_fen`,
//! asked for the legal moves of a square with `legal_moves`, changed by
//! `make_move`, and written back with `to_fen`. Its model `board@` is a
//! [`rules::Position`], and every contract is stated over that model:
//!
//! - `rules` defines the moves of the pieces, the attack set, legality, the
//!   effect of a move and the status of a game;
//! - `movegen` generates pseudo-legal moves and the attack set;
//! - `executor` filters the legal moves, makes moves and evaluates the status;
//! - `fen` reads and writes FEN records, `text` splits text and reads numbers;
//! - `laws` and `fen_laws` prove what holds of every position, move and record.

pub mod board;
pub mod executor;
pub mod fen;
pub mod fen_laws;
pub mod laws;
pub mod movegen;
pub mod piece;
pub mod rules;
pub mod text;
pub mod utils;

pub use board::{BoardState, STARTING_FEN};
pub use executor::MoveError;
pub use fen::FenError;
pub use piece::{Piece, PieceKind};
pub use rules::Status;
pub use utils::{pack_squares, Quad};
