//! Session and lobby logic of a real-time multiplayer tile-clearing game:
//! rooms and their lifecycle, the per-connection command dispatch, the round
//! countdown and the bounded global leaderboard.

pub mod board;
pub mod ws_messages;
pub mod error;
pub mod room_model;
pub mod server_state;
pub mod leaderboard;
pub mod registry;
pub mod session;
pub mod timer;
