use kanshi::messages::{AnnouncementData, Clock, EndGameData, GameStatus, MessageData, MoveData};
use kanshi::models::{DetailedShogiGame, Player, ShogiGame, ShogiGameMove, Timestamp};
use kanshi::notify::{
    game_thread, plan_update, shogi_channel, user_mention, ChannelInfo, ThreadInfo,
};

#[test]
fn mentions() {
    assert_eq!("<@1234>", user_mention(1234));
    assert_eq!("<@0>", user_mention(0));
}

#[test]
fn finds_shogi_channel() {
    let channels = vec![
        ChannelInfo { id: 1, name: "general".to_string() },
        ChannelInfo { id: 2, name: "将棋".to_string() },
        ChannelInfo { id: 3, name: "将棋".to_string() },
    ];
    assert_eq!(Some(1), shogi_channel(&channels));
    assert_eq!(None, shogi_channel(&channels[..1].iter().map(|c| ChannelInfo { id: c.id, name: c.name.clone() }).collect()));
}

#[test]
fn finds_game_thread_in_channel() {
    let threads = vec![
        ThreadInfo { id: 10, parent_id: Some(1), name: "abc".to_string() },
        ThreadInfo { id: 11, parent_id: Some(2), name: "other".to_string() },
        ThreadInfo { id: 12, parent_id: Some(2), name: "abc".to_string() },
    ];
    assert_eq!(Some(2), game_thread(&threads, 2, "abc"));
    assert_eq!(None, game_thread(&threads, 3, "abc"));
}

fn game(turn: i32, secs: i64) -> DetailedShogiGame {
    DetailedShogiGame {
        game: ShogiGame { id: "dP8exR8A".to_string(), sente: Some("s".to_string()), gote: Some("g".to_string()), winner: 0, win_condition: None },
        latest_move: Some(ShogiGameMove { id: "dP8exR8A".to_string(), turn, ts: Timestamp { secs, nanos: 0 }, sfen: "x".to_string() }),
        sente: Some(Player { id: 111, lishogi_tag: "s".to_string() }),
        gote: Some(Player { id: 222, lishogi_tag: "g".to_string() }),
    }
}

fn move_data() -> MoveData {
    MoveData {
        usi: "7g7f".to_string(),
        sfen: "lnsgkgsnl/1r5b1/ppppppppp/9/9/2P6/PP1PPPPPP/1B5R1/LNSGKGSNL w -".to_string(),
        ply: 1,
        clock: Some(Clock { sente: 1_209_600, gote: 1_209_000 }),
        check: Some(true),
    }
}

#[test]
fn move_after_sente_pings_gote() {
    let previous = Some(ShogiGameMove { id: "dP8exR8A".to_string(), turn: 0, ts: Timestamp { secs: 1000, nanos: 0 }, sfen: String::new() });
    let plan = plan_update(&game(1, 1090), &previous, &Some(MessageData::MoveData(move_data())), true);
    assert_eq!(Some("Tracking Game: <@111> vs <@222>".to_string()), plan.intro);
    assert!(!plan.archive);
    let post = plan.post.unwrap();
    assert_eq!(Some("<@222>".to_string()), post.content);
    assert_eq!("Game #dP8exR8A", post.embed.title);
    assert_eq!(Some("https://lishogi.org/dP8exR8A".to_string()), post.embed.url);
    assert_eq!(
        "Turn #1\nlnsgkgsnl/1r5b1/ppppppppp/9/9/2P6/PP1PPPPPP/1B5R1/LNSGKGSNL w -",
        post.embed.description
    );
    assert!(post.embed.check);
    assert_eq!(0xff8000, post.embed.color);
    let time = post.embed.time.unwrap();
    assert_eq!("☗ 1m 30s / 14d", time.prefix);
    assert_eq!(90, time.elapsed);
    assert_eq!(1_209_600, time.clock);
}

#[test]
fn move_after_gote_pings_sente_and_no_time_without_previous() {
    let plan = plan_update(&game(2, 50), &None, &Some(MessageData::MoveData(move_data())), false);
    assert_eq!(None, plan.intro);
    let post = plan.post.unwrap();
    assert_eq!(Some("<@111>".to_string()), post.content);
    assert!(post.embed.time.is_none());
}

#[test]
fn time_between_moves_is_absolute() {
    let previous = Some(ShogiGameMove { id: "g".to_string(), turn: 1, ts: Timestamp { secs: 100, nanos: 0 }, sfen: String::new() });
    let plan = plan_update(&game(2, 40), &previous, &Some(MessageData::MoveData(move_data())), false);
    let time = plan.post.unwrap().embed.time.unwrap();
    assert_eq!(60, time.elapsed);
    assert_eq!("☖ 1m / 13d 23h 50m", time.prefix);
}

#[test]
fn move_without_stored_move_posts_nothing() {
    let mut g = game(1, 0);
    g.latest_move = None;
    let plan = plan_update(&g, &None, &Some(MessageData::MoveData(move_data())), true);
    assert!(plan.intro.is_none() && plan.post.is_none() && !plan.archive);
}

#[test]
fn unknown_players() {
    let mut g = game(1, 0);
    g.sente = None;
    g.gote = None;
    let plan = plan_update(&g, &None, &Some(MessageData::MoveData(move_data())), true);
    assert_eq!(Some("Tracking Game: <unknown> vs <unknown>".to_string()), plan.intro);
    assert_eq!(None, plan.post.unwrap().content);
}

#[test]
fn end_of_game_archives() {
    let e = EndGameData { winner: "sente".to_string(), status: GameStatus { id: 31, name: "resign".to_string() } };
    let plan = plan_update(&game(5, 0), &None, &Some(MessageData::EndGameData(e)), false);
    assert!(plan.archive);
    let post = plan.post.unwrap();
    assert_eq!("Game Ended!\nWinner: sente\nWin Condition: resign", post.embed.description);
    assert_eq!(0x004e00, post.embed.color);
    assert!(post.content.is_none());
}

#[test]
fn announcement_is_forwarded() {
    let a = AnnouncementData { msg: "Server restart".to_string() };
    let plan = plan_update(&game(5, 0), &None, &Some(MessageData::AnnouncementData(a)), false);
    let post = plan.post.unwrap();
    assert_eq!("Server restart", post.embed.description);
    assert_eq!(0x8000ff, post.embed.color);
}

#[test]
fn no_payload_no_post() {
    let plan = plan_update(&game(5, 0), &None, &None, true);
    assert!(plan.intro.is_none() && plan.post.is_none() && !plan.archive);
}

#[test]
fn negative_turn_is_signed() {
    let plan = plan_update(&game(-3, 0), &None, &Some(MessageData::MoveData(move_data())), false);
    assert!(plan.post.unwrap().embed.description.starts_with("Turn #-3\n"));
}
