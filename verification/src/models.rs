//! The stored records: games, their moves and the players.

use vstd::prelude::*;

verus! {

/// A UTC instant: whole seconds since the Unix epoch and the nanoseconds past them.
#[derive(Debug, Clone, Copy, PartialEq, Eq)]
pub struct Timestamp {
    pub secs: i64,
    pub nanos: u32,
}

/// Whether `a` is not later than `b`.
pub open spec fn ts_le(a: Timestamp, b: Timestamp) -> bool {
    a.secs < b.secs || (a.secs == b.secs && a.nanos <= b.nanos)
}

/// A move of a stored game.
#[derive(Debug)]
pub struct ShogiGameMove {
    pub id: String,
    pub turn: i32,
    pub ts: Timestamp,
    pub sfen: String,
}

/// A tracked game.
#[derive(Debug)]
pub struct ShogiGame {
    pub id: String,
    pub sente: Option<String>,
    pub gote: Option<String>,
    pub winner: i32,
    pub win_condition: Option<String>,
}

/// A Discord user with their LiShogi name.
#[derive(Debug)]
pub struct Player {
    pub id: i64,
    pub lishogi_tag: String,
}

/// A game with its latest move and its players.
#[derive(Debug)]
pub struct DetailedShogiGame {
    pub game: ShogiGame,
    pub latest_move: Option<ShogiGameMove>,
    pub sente: Option<Player>,
    pub gote: Option<Player>,
}

} // verus!
