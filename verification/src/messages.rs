//! The messages that a LiShogi watch socket sends, as plain values.

use vstd::prelude::*;

verus! {

/// Remaining clock time of both players, in seconds.
#[derive(Debug, Clone, Copy, PartialEq, Eq)]
pub struct Clock {
    pub sente: u64,
    pub gote: u64,
}

/// A move that was played.
#[derive(Debug)]
pub struct MoveData {
    pub usi: String,
    pub sfen: String,
    pub ply: u32,
    pub clock: Option<Clock>,
    pub check: Option<bool>,
}

/// How a game ended.
#[derive(Debug)]
pub struct GameStatus {
    pub id: u32,
    pub name: String,
}

/// The end of a game.
#[derive(Debug)]
pub struct EndGameData {
    pub winner: String,
    pub status: GameStatus,
}

/// An announcement of LiShogi itself.
#[derive(Debug)]
pub struct AnnouncementData {
    pub msg: String,
}

/// The payload of a socket message.
#[derive(Debug)]
pub enum MessageData {
    MoveData(MoveData),
    EndGameData(EndGameData),
    AnnouncementData(AnnouncementData),
}

/// A message of the watch socket.
#[derive(Debug)]
pub struct SocketMessage {
    pub t: String,
    pub v: u32,
    pub d: Option<MessageData>,
}

/// How many watch a game.
#[derive(Debug)]
pub struct Watchers {
    pub nb: u32,
}

/// Who is present at a game.
#[derive(Debug)]
pub struct CrowdData {
    pub sente: bool,
    pub gote: bool,
    pub watchers: Watchers,
}

/// A message about who is present at a game.
#[derive(Debug)]
pub struct CrowdMessage {
    pub d: CrowdData,
}

} // verus!
