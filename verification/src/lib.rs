//! Rules engine and turn-management state machine for the game of Othello.

pub mod bits;
pub mod board;
pub mod codec;
pub mod error;
pub mod game;
pub mod player;
pub mod save;

pub use board::{Board, Disc};
pub use codec::{algebric2xy, bitfield_to_indexes, Move};
pub use error::OthelloError;
pub use game::{yes_no, Game, GameSettings, State};
pub use player::{HumanPlayer, PlayerType, RandomPlayer};
pub use save::GameSave;
