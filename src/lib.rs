//! A falling-block puzzle engine: seeded piece randomizer, piece geometry with
//! wall kicks, a tick-driven board state machine, scoring, game termination
//! rules and a compact binary recording format for replays.

mod bag;
mod board;
mod colour;
mod game;
mod input;
mod kicks;
mod piece;
mod point;
mod replay;
mod score;
mod session;

pub use bag::Bag;
pub use board::{Board, BoardState, TickResult, TickType};
pub use colour::Colour;
pub use game::{Game, GameMode, GameType};
pub use input::{Input, InputDirection, InputRotation};
pub use piece::{rotate, rotations, Piece, PieceBody, PieceType};
pub use point::Point;
pub use replay::{Frame, Recorder, RecorderFrame, Replay, ReplayError};
pub use score::Score;
pub use session::Session;
