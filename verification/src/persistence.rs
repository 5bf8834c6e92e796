//! What the store writes and reads: new records, the result of a game, and which move
//! of a game is the latest.

use vstd::prelude::*;
use crate::messages::{EndGameData, MoveData};
use crate::models::{ts_le, DetailedShogiGame, Player, ShogiGame, ShogiGameMove, Timestamp};
use crate::text::{copy_text, text_eq};

verus! {

/// The record of a newly tracked game: no winner (0) and no win condition yet.
pub fn new_game(id: String, sente: Option<String>, gote: Option<String>) -> (g: ShogiGame)
    ensures
        g.id == id,
        g.sente == sente,
        g.gote == gote,
        g.winner == 0,
        g.win_condition is None,
{
    ShogiGame { id, sente, gote, winner: 0, win_condition: None }
}

/// The record that ties a Discord user to a LiShogi name.
pub fn new_player(discord: i64, lishogi: String) -> (p: Player)
    ensures
        p.id == discord,
        p.lishogi_tag == lishogi,
{
    Player { id: discord, lishogi_tag: lishogi }
}

/// The record of a move of game `game_id` seen at `ts`: its turn is the ply, as a 32-bit
/// signed number (a ply above `i32::MAX` wraps around).
pub fn move_record(game_id: String, data: MoveData, ts: Timestamp) -> (m: ShogiGameMove)
    ensures
        m.id == game_id,
        m.sfen == data.sfen,
        m.turn == data.ply as i32,
        data.ply <= i32::MAX ==> m.turn == data.ply,
        m.ts == ts,
{
    let turn = data.ply as i32;
    ShogiGameMove { id: game_id, sfen: data.sfen, turn, ts }
}

/// The stored code of a winner: 1 for "sente", 2 for anything else.
pub open spec fn winner_code_of(winner: Seq<char>) -> i32 {
    if winner == "sente"@ {
        1
    } else {
        2
    }
}

/// The stored code of the winner named `winner`.
pub fn winner_code(winner: &str) -> (c: i32)
    ensures
        c == winner_code_of(winner@),
{
    if text_eq(winner, "sente") {
        1
    } else {
        2
    }
}

/// What ending a game writes to its record: the winner's code and the win condition.
pub fn end_game_update(data: &EndGameData) -> (r: (i32, String))
    ensures
        r.0 == winner_code_of(data.winner@),
        r.1@ == data.status.name@,
{
    (winner_code(data.winner.as_str()), copy_text(data.status.name.as_str()))
}

/// Whether move `i` of `moves` is the latest: none is later, and none before it is as late.
pub open spec fn is_latest(moves: Seq<ShogiGameMove>, i: int) -> bool {
    &&& 0 <= i < moves.len()
    &&& forall|j: int| 0 <= j < moves.len() ==> ts_le(#[trigger] moves[j].ts, moves[i].ts)
    &&& forall|j: int| 0 <= j < i ==> !ts_le(moves[i].ts, #[trigger] moves[j].ts)
}

fn ts_before(a: Timestamp, b: Timestamp) -> (r: bool)
    ensures
        r == !ts_le(b, a),
{
    a.secs < b.secs || (a.secs == b.secs && a.nanos < b.nanos)
}

/// The position of the latest move of `moves`, the first of them where several are equally
/// late; none where there is no move.
pub fn latest_move_index(moves: &Vec<ShogiGameMove>) -> (r: Option<usize>)
    ensures
        r is None <==> moves@.len() == 0,
        r matches Some(i) ==> is_latest(moves@, i as int),
{
    if moves.len() == 0 {
        return None;
    }
    let mut best: usize = 0;
    let mut i: usize = 1;
    while i < moves.len()
        invariant
            1 <= i <= moves@.len(),
            best < i,
            forall|j: int| 0 <= j < i ==> ts_le(#[trigger] moves@[j].ts, moves@[best as int].ts),
            forall|j: int| 0 <= j < best ==> !ts_le(moves@[best as int].ts, #[trigger] moves@[j].ts),
        decreases moves@.len() - i,
    {
        if ts_before(moves[best].ts, moves[i].ts) {
            best = i;
        }
        i = i + 1;
    }
    Some(best)
}

/// The latest move is one that no move comes after, comparing the seconds first and then
/// the nanoseconds, and every move listed before it is strictly earlier.
pub proof fn latest_move_is_latest(moves: Seq<ShogiGameMove>, i: int)
    requires
        is_latest(moves, i),
    ensures
        forall|j: int|
            0 <= j < moves.len() ==> (#[trigger] moves[j]).ts.secs < moves[i].ts.secs || (moves[j].ts.secs
                == moves[i].ts.secs && moves[j].ts.nanos <= moves[i].ts.nanos),
        forall|j: int|
            0 <= j < i ==> (#[trigger] moves[j]).ts.secs < moves[i].ts.secs || (moves[j].ts.secs
                == moves[i].ts.secs && moves[j].ts.nanos < moves[i].ts.nanos),
{
    assert forall|j: int| 0 <= j < moves.len() implies (#[trigger] moves[j]).ts.secs < moves[i].ts.secs || (moves[j].ts.secs
        == moves[i].ts.secs && moves[j].ts.nanos <= moves[i].ts.nanos) by {
        assert(ts_le(moves[j].ts, moves[i].ts));
    }
    assert forall|j: int| 0 <= j < i implies (#[trigger] moves[j]).ts.secs < moves[i].ts.secs || (moves[j].ts.secs
        == moves[i].ts.secs && moves[j].ts.nanos < moves[i].ts.nanos) by {
        assert(ts_le(moves[j].ts, moves[i].ts));
        assert(!ts_le(moves[i].ts, moves[j].ts));
    }
}

/// A game with the latest of its moves and its players.
pub fn game_details(
    game: ShogiGame,
    moves: Vec<ShogiGameMove>,
    sente: Option<Player>,
    gote: Option<Player>,
) -> (d: DetailedShogiGame)
    ensures
        d.game == game,
        d.sente == sente,
        d.gote == gote,
        d.latest_move is None <==> moves@.len() == 0,
        d.latest_move matches Some(m) ==> exists|i: int| is_latest(moves@, i) && moves@[i] == m,
{
    let mut moves = moves;
    let latest = match latest_move_index(&moves) {
        Some(i) => {
            let ghost all = moves@;
            let m = moves.remove(i);
            assert(is_latest(all, i as int) && all[i as int] == m);
            Some(m)
        },
        None => None,
    };
    DetailedShogiGame { game, latest_move: latest, sente, gote }
}

} // verus!
