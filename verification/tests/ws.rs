use kanshi::messages::{
    AnnouncementData, Clock, EndGameData, GameStatus, MessageData, MoveData, SocketMessage,
};
use kanshi::ws::{
    classify_frame, connect_url, gen_sri, keepalive_messages, plan_store, react, watch_url, Frame,
    FrameAction, Keepalive, PingCollector, StoreCommand,
};

#[test]
fn sri_has_requested_length_and_is_alphanumeric() {
    for n in [0usize, 1, 12, 40] {
        let s = gen_sri(n);
        assert_eq!(n, s.chars().count());
        assert!(s.chars().all(|c| c.is_ascii_alphanumeric()));
    }
}

#[test]
fn watch_url_layout() {
    assert_eq!(
        "wss://socket1.lishogi.org/watch/dP8exR8A/sente/v6?sri=abc",
        watch_url("dP8exR8A", "abc")
    );
}

#[test]
fn connect_url_has_fresh_sri() {
    let url = connect_url("dP8exR8A");
    let prefix = "wss://socket1.lishogi.org/watch/dP8exR8A/sente/v6?sri=";
    assert!(url.starts_with(prefix));
    let sri = &url[prefix.len()..];
    assert_eq!(12, sri.len());
    assert!(sri.chars().all(|c| c.is_ascii_alphanumeric()));
}

#[test]
fn keepalive_sends_version_check_on_second_and_every_twentieth_tick() {
    let mut k = Keepalive::new();
    let mut checks = vec![];
    for tick in 1..=45 {
        if k.tick() {
            checks.push(tick);
        }
    }
    assert_eq!(vec![2, 22, 42], checks);
}

#[test]
fn keepalive_texts() {
    assert_eq!(vec!["{ \"t\": \"version_check\" }".to_string(), "null".to_string()], keepalive_messages(true));
    assert_eq!(vec!["null".to_string()], keepalive_messages(false));
}

#[test]
fn ping_collector_stops_at_max() {
    let mut c = PingCollector::new(2);
    assert!(!c.observe(&Frame::Text("0".to_string()), false));
    assert!(!c.observe(&Frame::Text("x".to_string()), false));
    assert!(!c.observe(&Frame::Binary, false));
    assert!(c.observe(&Frame::Text("0".to_string()), false));
    assert_eq!(2, c.count);
}

#[test]
fn ping_collector_stops_on_timeout() {
    let mut c = PingCollector::new(5);
    assert!(c.observe(&Frame::Text("0".to_string()), true));
    assert_eq!(1, c.count);
}

#[test]
fn frames_are_classified() {
    assert!(matches!(classify_frame(&Frame::Text("0".to_string())), FrameAction::Heartbeat));
    assert!(matches!(classify_frame(&Frame::Text("{\"t\":\"versionCheck\"}".to_string())), FrameAction::Ignore));
    assert!(matches!(classify_frame(&Frame::Text("versionCheck".to_string())), FrameAction::Decode));
    assert!(matches!(classify_frame(&Frame::Text("{\"t\":\"usi\"}".to_string())), FrameAction::Decode));
    assert!(matches!(classify_frame(&Frame::Close), FrameAction::Stop));
    assert!(matches!(classify_frame(&Frame::Ping), FrameAction::Ignore));
    assert!(matches!(classify_frame(&Frame::Pong), FrameAction::Ignore));
    assert!(matches!(classify_frame(&Frame::Binary), FrameAction::Ignore));
}

fn msg(d: Option<MessageData>) -> SocketMessage {
    SocketMessage { t: "x".to_string(), v: 1, d }
}

#[test]
fn store_plan_for_each_payload() {
    assert!(matches!(plan_store(&msg(None)), StoreCommand::Nothing));
    let m = MoveData {
        usi: "7g7f".to_string(),
        sfen: "s".to_string(),
        ply: 1,
        clock: Some(Clock { sente: 1, gote: 2 }),
        check: None,
    };
    match plan_store(&msg(Some(MessageData::MoveData(m)))) {
        StoreCommand::AddMove(r) => {
            assert_eq!("7g7f", r.usi);
            assert_eq!(1, r.ply);
            assert_eq!(Some(Clock { sente: 1, gote: 2 }), r.clock);
        }
        _ => panic!("expected a move"),
    }
    let e = EndGameData {
        winner: "sente".to_string(),
        status: GameStatus { id: 31, name: "resign".to_string() },
    };
    match plan_store(&msg(Some(MessageData::EndGameData(e)))) {
        StoreCommand::EndGame(w, c) => {
            assert_eq!(1, w);
            assert_eq!("resign", c);
        }
        _ => panic!("expected an end"),
    }
    let a = AnnouncementData { msg: "hi".to_string() };
    match plan_store(&msg(Some(MessageData::AnnouncementData(a)))) {
        StoreCommand::Announce(t) => assert_eq!("hi", t),
        _ => panic!("expected an announcement"),
    }
}

#[test]
fn reactions() {
    let end = StoreCommand::EndGame(2, "mate".to_string());
    let r = react(&end, false, true);
    assert!(r.notify && r.stop);
    let mv = StoreCommand::AddMove(MoveData {
        usi: String::new(),
        sfen: String::new(),
        ply: 3,
        clock: None,
        check: None,
    });
    let dup = react(&mv, false, true);
    assert!(!dup.notify && !dup.stop);
    let fresh = react(&mv, true, true);
    assert!(fresh.notify && !fresh.stop);
    assert!(!react(&mv, true, false).notify);
    assert!(react(&StoreCommand::Nothing, false, true).notify);
}

#[test]
fn ping_collector_never_counts_past_max() {
    let mut c = PingCollector::new(0);
    assert!(c.observe(&Frame::Text("0".to_string()), false));
    assert_eq!(0, c.count);
    let mut d = PingCollector::new(1);
    assert!(d.observe(&Frame::Text("0".to_string()), false));
    assert!(d.observe(&Frame::Text("0".to_string()), false));
    assert_eq!(1, d.count);
}

#[test]
fn one_listener_per_game() {
    let mut r = kanshi::ws::ListenerRegistry::new();
    assert!(!r.is_listening("abc"));
    assert!(r.claim("abc"));
    assert!(!r.claim("abc"));
    assert!(r.claim("xyz"));
    assert!(r.is_listening("abc"));
    r.release("abc");
    assert!(!r.is_listening("abc"));
    assert!(r.is_listening("xyz"));
    assert!(r.claim("abc"));
    r.release("nothing");
    assert!(r.is_listening("abc"));
}
