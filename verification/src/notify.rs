//! What to post on Discord when a tracked game changes: in which thread, which embed,
//! and whom to ping.

use vstd::prelude::*;
use vstd::string::*;
use crate::messages::{AnnouncementData, EndGameData, MessageData, MoveData};
use crate::models::{DetailedShogiGame, Player, ShogiGameMove};
use crate::text::{decimal, decimal_string, text_eq};
use crate::time::{duration_text, format_duration};

verus! {

/// A channel of the server.
pub struct ChannelInfo {
    pub id: u64,
    pub name: String,
}

/// An active thread of the server.
pub struct ThreadInfo {
    pub id: u64,
    pub parent_id: Option<u64>,
    pub name: String,
}

/// The name of the channel that holds the game threads.
pub open spec fn shogi_channel_name() -> Seq<char> {
    "将棋"@
}

/// The first channel named "将棋".
pub fn shogi_channel(channels: &Vec<ChannelInfo>) -> (r: Option<usize>)
    ensures
        r matches Some(i) ==> i < channels@.len() && channels@[i as int].name@ == shogi_channel_name()
            && forall|j: int| 0 <= j < i ==> #[trigger] channels@[j].name@ != shogi_channel_name(),
        r is None ==> forall|j: int| 0 <= j < channels@.len() ==> #[trigger] channels@[j].name@
            != shogi_channel_name(),
{
    let mut i: usize = 0;
    while i < channels.len()
        invariant
            i <= channels@.len(),
            forall|j: int| 0 <= j < i ==> #[trigger] channels@[j].name@ != shogi_channel_name(),
        decreases channels@.len() - i,
    {
        if text_eq(channels[i].name.as_str(), "将棋") {
            return Some(i);
        }
        i = i + 1;
    }
    None
}

/// Whether `t` is the thread of game `game_id` in channel `channel`.
pub open spec fn is_game_thread(t: ThreadInfo, channel: u64, game_id: Seq<char>) -> bool {
    t.parent_id == Some(channel) && t.name@ == game_id
}

/// The first thread of channel `channel` named after game `game_id`.
pub fn game_thread(threads: &Vec<ThreadInfo>, channel: u64, game_id: &str) -> (r: Option<usize>)
    ensures
        r matches Some(i) ==> i < threads@.len() && is_game_thread(threads@[i as int], channel, game_id@)
            && forall|j: int| 0 <= j < i ==> !is_game_thread(#[trigger] threads@[j], channel, game_id@),
        r is None ==> forall|j: int| 0 <= j < threads@.len() ==> !is_game_thread(
            #[trigger] threads@[j],
            channel,
            game_id@,
        ),
{
    let mut i: usize = 0;
    while i < threads.len()
        invariant
            i <= threads@.len(),
            forall|j: int| 0 <= j < i ==> !is_game_thread(#[trigger] threads@[j], channel, game_id@),
        decreases threads@.len() - i,
    {
        let t = &threads[i];
        if t.parent_id == Some(channel) && text_eq(t.name.as_str(), game_id) {
            return Some(i);
        }
        i = i + 1;
    }
    None
}

/// How Discord writes a mention of user `id`.
pub open spec fn mention_text(id: u64) -> Seq<char> {
    "<@"@ + decimal(id as nat) + ">"@
}

/// A mention of user `id`.
pub fn user_mention(id: u64) -> (s: String)
    ensures
        s@ == mention_text(id),
{
    let mut s = String::from_str("<@");
    let digits = decimal_string(id);
    s.append(digits.as_str());
    s.append(">");
    s
}

/// A mention of a player, or "<unknown>" where the game has none.
pub open spec fn player_text(p: Option<Player>) -> Seq<char> {
    match p {
        Some(player) => mention_text(player.id as u64),
        None => "<unknown>"@,
    }
}

fn player_mention(p: &Option<Player>) -> (s: String)
    ensures
        s@ == player_text(*p),
{
    match p {
        Some(player) => user_mention(player.id as u64),
        None => String::from_str("<unknown>"),
    }
}

/// An integer in decimal, with a minus sign where it is negative.
pub open spec fn signed_decimal(i: int) -> Seq<char> {
    if i < 0 {
        "-"@ + decimal((-i) as nat)
    } else {
        decimal(i as nat)
    }
}

fn signed_decimal_string(i: i32) -> (s: String)
    ensures
        s@ == signed_decimal(i as int),
{
    if i < 0 {
        let magnitude = (-(i as i64)) as u64;
        let mut s = String::from_str("-");
        let digits = decimal_string(magnitude);
        s.append(digits.as_str());
        s
    } else {
        decimal_string(i as u64)
    }
}

/// The time field of a move embed: the prefix of its value, and the numbers whose ratio
/// (as a percentage with two decimals, in brackets) ends it.
pub struct TimeField {
    pub prefix: String,
    pub elapsed: u64,
    pub clock: u64,
}

/// A Discord embed about a game.
pub struct Embed {
    pub title: String,
    pub url: Option<String>,
    pub description: String,
    /// Whether a "Status" field says "王手" (check).
    pub check: bool,
    pub time: Option<TimeField>,
    pub color: u32,
}

/// A message to post in a game thread.
pub struct Post {
    pub content: Option<String>,
    pub embed: Embed,
}

/// What to do in a game thread after a message of the game.
pub struct UpdatePlan {
    pub intro: Option<String>,
    pub post: Option<Post>,
    pub archive: bool,
}

/// The colour of move embeds.
pub open spec fn move_color() -> u32 {
    0xff8000
}

/// The colour of game-end embeds.
pub open spec fn end_color() -> u32 {
    0x004e00
}

/// The colour of announcement embeds.
pub open spec fn announcement_color() -> u32 {
    0x8000ff
}

/// The title of the embeds of game `id`.
pub open spec fn game_title(id: Seq<char>) -> Seq<char> {
    "Game #"@ + id
}

/// The LiShogi page of game `id`.
pub open spec fn game_link(id: Seq<char>) -> Seq<char> {
    "https://lishogi.org/"@ + id
}

/// The first message of a new game thread.
pub open spec fn intro_text(game: DetailedShogiGame) -> Seq<char> {
    "Tracking Game: "@ + player_text(game.sente) + " vs "@ + player_text(game.gote)
}

/// Whether, after move `turn`, it is sente's turn: after an even turn.
pub open spec fn sente_to_move(turn: i32) -> bool {
    turn % 2 == 0
}

/// The seconds between two moves, whichever came first.
pub open spec fn seconds_between(a: ShogiGameMove, b: ShogiGameMove) -> nat {
    if a.ts.secs >= b.ts.secs {
        (a.ts.secs - b.ts.secs) as nat
    } else {
        (b.ts.secs - a.ts.secs) as nat
    }
}

/// Whether `post` is the post for move `m`, where `latest` is the game's latest stored move
/// and `previous` the latest one before the message came.
pub open spec fn is_move_post(
    post: Post,
    game: DetailedShogiGame,
    latest: ShogiGameMove,
    previous: Option<ShogiGameMove>,
    m: MoveData,
) -> bool {
    let sente_turn = sente_to_move(latest.turn);
    &&& post.embed.title@ == game_title(game.game.id@)
    &&& post.embed.url matches Some(u) && u@ == game_link(game.game.id@)
    &&& post.embed.description@ == "Turn #"@ + signed_decimal(latest.turn as int) + "\n"@ + m.sfen@
    &&& post.embed.check == (m.check == Some(true))
    &&& post.embed.color == move_color()
    &&& (post.embed.time is Some) == (m.clock is Some && previous is Some)
    &&& post.embed.time matches Some(tf) ==> {
        let clock = if sente_turn {
            m.clock->0.gote
        } else {
            m.clock->0.sente
        };
        let elapsed = seconds_between(latest, previous->0);
        &&& tf.clock == clock
        &&& tf.elapsed == elapsed
        &&& tf.prefix@ == (if sente_turn {
            "☖ "@
        } else {
            "☗ "@
        }) + duration_text(elapsed) + " / "@ + duration_text(clock as nat)
    }
    &&& post.content is Some == (if sente_turn {
        game.sente is Some
    } else {
        game.gote is Some
    })
    &&& post.content matches Some(c) ==> c@ == (if sente_turn {
        mention_text(game.sente->0.id as u64)
    } else {
        mention_text(game.gote->0.id as u64)
    })
}

/// Whether `post` is the post for the end of the game `e`.
pub open spec fn is_end_post(post: Post, game: DetailedShogiGame, e: EndGameData) -> bool {
    &&& post.embed.title@ == game_title(game.game.id@)
    &&& post.embed.url matches Some(u) && u@ == game_link(game.game.id@)
    &&& post.embed.description@ == "Game Ended!\nWinner: "@ + e.winner@ + "\nWin Condition: "@
        + e.status.name@
    &&& !post.embed.check
    &&& post.embed.time is None
    &&& post.embed.color == end_color()
    &&& post.content is None
}

/// Whether `post` forwards the announcement `a`.
pub open spec fn is_announcement_post(post: Post, game: DetailedShogiGame, a: AnnouncementData) -> bool {
    &&& post.embed.title@ == game_title(game.game.id@)
    &&& post.embed.url matches Some(u) && u@ == game_link(game.game.id@)
    &&& post.embed.description@ == a.msg@
    &&& !post.embed.check
    &&& post.embed.time is None
    &&& post.embed.color == announcement_color()
    &&& post.content is None
}

fn title_and_link(id: &str) -> (r: (String, String))
    ensures
        r.0@ == game_title(id@),
        r.1@ == game_link(id@),
{
    let mut title = String::from_str("Game #");
    title.append(id);
    let mut link = String::from_str("https://lishogi.org/");
    link.append(id);
    (title, link)
}

fn seconds_apart(a: &ShogiGameMove, b: &ShogiGameMove) -> (s: u64)
    ensures
        s == seconds_between(*a, *b),
{
    let d = (a.ts.secs as i128) - (b.ts.secs as i128);
    if d >= 0 {
        d as u64
    } else {
        (-d) as u64
    }
}

fn move_post(
    game: &DetailedShogiGame,
    latest: &ShogiGameMove,
    previous: &Option<ShogiGameMove>,
    m: &MoveData,
) -> (post: Post)
    ensures
        is_move_post(post, *game, *latest, *previous, *m),
{
    let sente_turn = latest.turn % 2 == 0;
    let (title, link) = title_and_link(game.game.id.as_str());
    let mut description = String::from_str("Turn #");
    let turn = signed_decimal_string(latest.turn);
    description.append(turn.as_str());
    description.append("\n");
    description.append(m.sfen.as_str());
    let check = match m.check {
        Some(c) => c,
        None => false,
    };
    let time = match (m.clock, previous) {
        (Some(clock), Some(prev)) => {
            let player_clock = if sente_turn { clock.gote } else { clock.sente };
            let elapsed = seconds_apart(latest, prev);
            let mut prefix = if sente_turn {
                String::from_str("☖ ")
            } else {
                String::from_str("☗ ")
            };
            let elapsed_text = format_duration(elapsed);
            prefix.append(elapsed_text.as_str());
            prefix.append(" / ");
            let clock_text = format_duration(player_clock);
            prefix.append(clock_text.as_str());
            Some(TimeField { prefix, elapsed, clock: player_clock })
        },
        _ => None,
    };
    let content = if sente_turn {
        match &game.sente {
            Some(p) => Some(user_mention(p.id as u64)),
            None => None,
        }
    } else {
        match &game.gote {
            Some(p) => Some(user_mention(p.id as u64)),
            None => None,
        }
    };
    Post {
        content,
        embed: Embed { title, url: Some(link), description, check, time, color: 0xff8000 },
    }
}

/// A move's post says "check" exactly when the move data carries `check == Some(true)`: a
/// move whose check flag is missing or false gets no check status.
pub proof fn check_shown_only_on_check(
    post: Post,
    game: DetailedShogiGame,
    latest: ShogiGameMove,
    previous: Option<ShogiGameMove>,
    m: MoveData,
)
    requires
        is_move_post(post, game, latest, previous, m),
    ensures
        m.check is None ==> !post.embed.check,
        m.check == Some(false) ==> !post.embed.check,
        m.check == Some(true) ==> post.embed.check,
{
}

/// What to post in the thread of `game` for the message payload `data`, where `previous` is
/// the game's latest move from before the message and `new_thread` tells whether the
/// thread was just created.
///
/// A move is posted only where the game has a stored latest move: an embed with the turn
/// and the position, a check status, the time taken against the clock where both are known,
/// and a ping of the player to move; a new thread first gets an introduction of the players.
/// The end of a game is posted and the thread archived. An announcement is forwarded.
pub fn plan_update(
    game: &DetailedShogiGame,
    previous: &Option<ShogiGameMove>,
    data: &Option<MessageData>,
    new_thread: bool,
) -> (plan: UpdatePlan)
    ensures
        *data is None ==> plan.intro is None && plan.post is None && !plan.archive,
        *data matches Some(MessageData::MoveData(m)) ==> {
            &&& !plan.archive
            &&& game.latest_move is None ==> plan.intro is None && plan.post is None
            &&& game.latest_move matches Some(latest) ==> {
                &&& (plan.intro is Some) == new_thread
                &&& plan.intro matches Some(t) ==> t@ == intro_text(*game)
                &&& plan.post matches Some(p) && is_move_post(p, *game, latest, *previous, m)
            }
        },
        *data matches Some(MessageData::EndGameData(e)) ==> {
            &&& plan.intro is None
            &&& plan.archive
            &&& plan.post matches Some(p) && is_end_post(p, *game, e)
        },
        *data matches Some(MessageData::AnnouncementData(a)) ==> {
            &&& plan.intro is None
            &&& !plan.archive
            &&& plan.post matches Some(p) && is_announcement_post(p, *game, a)
        },
{
    match data {
        None => UpdatePlan { intro: None, post: None, archive: false },
        Some(MessageData::MoveData(m)) => {
            match &game.latest_move {
                None => UpdatePlan { intro: None, post: None, archive: false },
                Some(latest) => {
                    let intro = if new_thread {
                        let mut t = String::from_str("Tracking Game: ");
                        let sente = player_mention(&game.sente);
                        let gote = player_mention(&game.gote);
                        t.append(sente.as_str());
                        t.append(" vs ");
                        t.append(gote.as_str());
                        Some(t)
                    } else {
                        None
                    };
                    let post = move_post(game, latest, previous, m);
                    UpdatePlan { intro, post: Some(post), archive: false }
                },
            }
        },
        Some(MessageData::EndGameData(e)) => {
            let (title, link) = title_and_link(game.game.id.as_str());
            let mut description = String::from_str("Game Ended!\nWinner: ");
            description.append(e.winner.as_str());
            description.append("\nWin Condition: ");
            description.append(e.status.name.as_str());
            let embed = Embed {
                title,
                url: Some(link),
                description,
                check: false,
                time: None,
                color: 0x004e00,
            };
            UpdatePlan { intro: None, post: Some(Post { content: None, embed }), archive: true }
        },
        Some(MessageData::AnnouncementData(a)) => {
            let (title, link) = title_and_link(game.game.id.as_str());
            let embed = Embed {
                title,
                url: Some(link),
                description: crate::text::copy_text(a.msg.as_str()),
                check: false,
                time: None,
                color: 0x8000ff,
            };
            UpdatePlan { intro: None, post: Some(Post { content: None, embed }), archive: false }
        },
    }
}

} // verus!
