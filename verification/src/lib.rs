//! Engine for ephemeral multiplayer wire-cutting game rooms.
//!
//! Players gather in a lobby identified by a short room code, mark themselves
//! ready, and on start transition into a round-based game in which the
//! investigator team tries to cut every defusing cable before the saboteur
//! team's bomb cable is cut.  This crate holds the room lifecycle and
//! game-state engine: lobby management, team and cable assignment, the
//! per-round cut-resolution protocol, win-condition detection, the per-player
//! mailbox model and the code-to-room registries.  Transport, serialization
//! and timers are left to the embedding application.

pub mod common;
pub mod errors;
pub mod game;
pub mod gameplay;
pub mod lobby;
mod rng;
