//! The replies of the bot's slash commands and its start-up notice.

use vstd::prelude::*;
use vstd::string::*;
use crate::text::text_eq;

verus! {

/// The user that `/shogi user` links: the one named, or else the author of the command.
pub fn link_target(named: Option<u64>, author: u64) -> (id: u64)
    ensures
        id == (match named {
            Some(n) => n,
            None => author,
        }),
{
    match named {
        Some(n) => n,
        None => author,
    }
}

/// The reply of `/shogi user` to linking LiShogi name `tag` with the user mentioned as
/// `mention`.
pub open spec fn link_reply_text(tag: Seq<char>, mention: Seq<char>, linked: bool) -> Seq<char> {
    if linked {
        "Associated Lishogi ID '"@ + tag + "' with "@ + mention
    } else {
        "Couldn't associate Lishogi ID '"@ + tag + "' with "@ + mention
            + " (maybe already associated w/ something else)."@
    }
}

/// The reply of `/shogi user`, where `linked` tells whether the link was stored.
pub fn link_reply(tag: &str, mention: &str, linked: bool) -> (s: String)
    ensures
        s@ == link_reply_text(tag@, mention@, linked),
{
    let mut s = if linked {
        String::from_str("Associated Lishogi ID '")
    } else {
        String::from_str("Couldn't associate Lishogi ID '")
    };
    s.append(tag);
    s.append("' with ");
    s.append(mention);
    if !linked {
        s.append(" (maybe already associated w/ something else).");
    }
    s
}

/// The reply of `/shogi track` for game `game_id`.
pub open spec fn track_reply_text(game_id: Seq<char>, added: bool) -> Seq<char> {
    if added {
        "Now tracking game with ID '"@ + game_id + "'."@
    } else {
        "Failed to add game '"@ + game_id + "'.\nMaybe it already exists?"@
    }
}

/// The reply of `/shogi track`, where `added` tells whether the game was stored.
pub fn track_reply(game_id: &str, added: bool) -> (s: String)
    ensures
        s@ == track_reply_text(game_id@, added),
{
    let mut s = if added {
        String::from_str("Now tracking game with ID '")
    } else {
        String::from_str("Failed to add game '")
    };
    s.append(game_id);
    if added {
        s.append("'.");
    } else {
        s.append("'.\nMaybe it already exists?");
    }
    s
}

/// Whether the bot posts a notice in the log channel when it is ready: everywhere but in
/// the "develop" environment.
pub fn announces_ready(environment: &str) -> (r: bool)
    ensures
        r == (environment@ != "develop"@),
{
    !text_eq(environment, "develop")
}

/// The notice the bot posts when it is ready, given whether a reboot flag was found.
pub fn ready_notice(rebooted: bool) -> (s: String)
    ensures
        s@ == (if rebooted {
            "> *initialized*"@
        } else {
            "> *rebooted*"@
        }),
{
    if rebooted {
        String::from_str("> *initialized*")
    } else {
        String::from_str("> *rebooted*")
    }
}

} // verus!
