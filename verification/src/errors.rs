//! The recoverable error taxonomy.
//!
//! Every error here is an expected condition reported synchronously to the
//! caller that triggered it; none is fatal to the room.

use vstd::prelude::*;

verus! {

/// Why a player could not join a lobby.
#[derive(Clone, Copy, Debug, PartialEq, Eq, Structural)]
pub enum Join {
    /// The lobby already holds the maximum number of players.
    GameFull,
    /// A player with the same id is already in the lobby.
    AlreadyConnected,
}

impl Join {
    /// A human-readable description of the error.
    pub fn message(&self) -> (r: &'static str)
        ensures
            *self == Join::GameFull ==> r@ == "this game is already full"@,
            *self == Join::AlreadyConnected ==> r@ == "you are already connected to this game"@,
    {
        match self {
            Join::GameFull => "this game is already full",
            Join::AlreadyConnected => "you are already connected to this game",
        }
    }
}

/// Why a cut request was rejected by the game rules.
#[derive(Clone, Copy, Debug, PartialEq, Eq, Structural)]
pub enum Cut {
    /// The acting player does not hold the wire cutters.
    DontHaveWireCutter,
    /// A player may not cut one of their own cables.
    CannotSelfCut,
}

impl Cut {
    /// A human-readable description of the error.
    pub fn message(&self) -> (r: &'static str)
        ensures
            *self == Cut::DontHaveWireCutter ==> r@ == "you don't have the wire cutter"@,
            *self == Cut::CannotSelfCut ==> r@ == "you can't cut one of your own card"@,
    {
        match self {
            Cut::DontHaveWireCutter => "you don't have the wire cutter",
            Cut::CannotSelfCut => "you can't cut one of your own card",
        }
    }
}

/// Why a start request failed.
#[derive(Clone, Copy, Debug, PartialEq, Eq, Structural)]
pub enum Start {
    /// No lobby is registered under the given code.
    UnknownRoom,
    /// The lobby is too small or some player is not ready.
    NotReady,
}

/// Why a stream could not be attached to a game player's mailbox.
#[derive(Clone, Copy, Debug, PartialEq, Eq, Structural)]
pub enum Attach {
    /// No game is registered under the given code.
    UnknownRoom,
    /// The game holds no player with the given id.
    UnknownPlayer,
    /// Another live stream already consumes this player's mailbox.
    AlreadyAttached,
}

/// Why a cut request addressed to a room was rejected.
#[derive(Clone, Copy, Debug, PartialEq, Eq, Structural)]
pub enum CutRequest {
    /// No game is registered under the given code.
    UnknownRoom,
    /// The acting player is not part of this game.
    CutterNotInGame,
    /// The targeted player is not part of this game.
    TargetNotInGame,
    /// The acting player does not hold the wire cutters.
    DontHaveWireCutter,
    /// A player may not cut one of their own cables.
    CannotSelfCut,
}

/// Why a join request addressed to a room was rejected.
#[derive(Clone, Copy, Debug, PartialEq, Eq, Structural)]
pub enum JoinRequest {
    /// No lobby is registered under the given code.
    UnknownRoom,
    /// The lobby already holds the maximum number of players.
    GameFull,
    /// A player with the same id is already in the lobby.
    AlreadyConnected,
}

} // verus!
