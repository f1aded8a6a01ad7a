//! Authoritative rules and orchestration for a turn-based hex-grid conquest game.
//!
//! The rules engine (`session`) is a set of verified state transitions on a
//! [`session::GameSession`]; the surrounding modules hold the map model, lobbies,
//! the lobby store, the session manager with its clock decisions, and the
//! message values exchanged with clients.
pub mod hex;
pub mod model;
pub mod text;
pub mod session;
pub mod lobby;
pub mod laws;
pub mod messages;
pub mod manager;
pub mod store;
pub mod clock;
pub mod state;
