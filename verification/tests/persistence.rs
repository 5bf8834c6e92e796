use kanshi::messages::{EndGameData, GameStatus, MoveData};
use kanshi::models::{Player, ShogiGame, ShogiGameMove, Timestamp};
use kanshi::persistence::{
    end_game_update, game_details, latest_move_index, move_record, new_game, new_player,
    winner_code,
};

#[test]
fn winner_codes() {
    assert_eq!(1, winner_code("sente"));
    assert_eq!(2, winner_code("gote"));
    assert_eq!(2, winner_code("Sente"));
}

#[test]
fn end_update() {
    let e = EndGameData { winner: "gote".to_string(), status: GameStatus { id: 30, name: "mate".to_string() } };
    assert_eq!((2, "mate".to_string()), end_game_update(&e));
}

#[test]
fn new_records() {
    let g = new_game("abcdefgh".to_string(), Some("a".to_string()), None);
    assert_eq!("abcdefgh", g.id);
    assert_eq!(0, g.winner);
    assert!(g.win_condition.is_none());
    let p = new_player(42, "tag".to_string());
    assert_eq!(42, p.id);
    assert_eq!("tag", p.lishogi_tag);
}

fn mv(turn: i32, secs: i64, nanos: u32) -> ShogiGameMove {
    ShogiGameMove { id: "g".to_string(), turn, ts: Timestamp { secs, nanos }, sfen: String::new() }
}

#[test]
fn move_record_wraps_large_ply() {
    let ts = Timestamp { secs: 5, nanos: 0 };
    let data = |ply| MoveData { usi: String::new(), sfen: "s".to_string(), ply, clock: None, check: None };
    assert_eq!(7, move_record("g".to_string(), data(7), ts).turn);
    assert_eq!(i32::MIN, move_record("g".to_string(), data(1 << 31), ts).turn);
}

#[test]
fn latest_move_is_found() {
    assert_eq!(None, latest_move_index(&vec![]));
    let moves = vec![mv(1, 10, 0), mv(3, 30, 5), mv(2, 30, 1), mv(4, 30, 5)];
    assert_eq!(Some(1), latest_move_index(&moves));
    let d = game_details(
        ShogiGame { id: "g".to_string(), sente: None, gote: None, winner: 0, win_condition: None },
        moves,
        Some(Player { id: 1, lishogi_tag: "s".to_string() }),
        None,
    );
    assert_eq!(3, d.latest_move.unwrap().turn);
}
