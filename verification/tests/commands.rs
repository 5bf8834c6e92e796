use kanshi::commands::{announces_ready, link_reply, link_target, ready_notice, track_reply};

#[test]
fn link_replies() {
    assert_eq!("Associated Lishogi ID 'abc' with <@1>", link_reply("abc", "<@1>", true));
    assert_eq!(
        "Couldn't associate Lishogi ID 'abc' with <@1> (maybe already associated w/ something else).",
        link_reply("abc", "<@1>", false)
    );
    assert_eq!(5, link_target(Some(5), 9));
    assert_eq!(9, link_target(None, 9));
}

#[test]
fn track_replies() {
    assert_eq!("Now tracking game with ID 'dP8exR8A'.", track_reply("dP8exR8A", true));
    assert_eq!("Failed to add game 'dP8exR8A'.\nMaybe it already exists?", track_reply("dP8exR8A", false));
}

#[test]
fn ready_notices() {
    assert!(!announces_ready("develop"));
    assert!(announces_ready("production"));
    assert_eq!("> *initialized*", ready_notice(true));
    assert_eq!("> *rebooted*", ready_notice(false));
}
