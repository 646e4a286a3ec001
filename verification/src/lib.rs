//! Verified core of the snake web client: the wire format of the messages
//! sent to the game server, the tile grid and its diffing, the shared game
//! state fed by server messages, and the board that ties them together.

pub mod board;
pub mod game;
pub mod protocol;
pub mod tiles;
