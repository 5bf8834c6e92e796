//! The decisions of a watch-socket listener: the address it connects to, the keepalive
//! it sends, how it treats each frame, and what it stores and announces.

use vstd::prelude::*;
use vstd::string::*;
use rand::RngExt;
use crate::messages::{MessageData, MoveData, SocketMessage};
use crate::persistence::{end_game_update, winner_code_of};
use crate::text::{chars_of, contains_text, copy_text, find_from, text_eq, views};

verus! {

#[verifier::external_type_specification]
#[verifier::external_body]
pub struct ExThreadRng(rand::rngs::ThreadRng);

/// Whether `b` is an ASCII letter or digit.
pub open spec fn is_alphanumeric_byte(b: u8) -> bool {
    (48 <= b <= 57) || (65 <= b <= 90) || (97 <= b <= 122)
}

/// Whether `c` is an ASCII letter or digit.
pub open spec fn is_alphanumeric_char(c: char) -> bool {
    ('0' <= c <= '9') || ('A' <= c <= 'Z') || ('a' <= c <= 'z')
}

/// `rand::rng()`: the thread's random number generator. Nothing is claimed of it; rand
/// documents that it panics where the operating system's seed source fails at first use.
#[verifier::external_body]
fn thread_rng() -> (r: rand::rngs::ThreadRng) {
    rand::rng()
}

/// `RngExt::sample` with `rand::distr::Alphanumeric`: a random byte that is an ASCII letter
/// or digit, as the distribution documents; which one is left to chance.
#[verifier::external_body]
fn sample_alphanumeric(rng: &mut rand::rngs::ThreadRng) -> (b: u8)
    ensures
        is_alphanumeric_byte(b),
{
    rng.sample(rand::distr::Alphanumeric)
}

/// A random socket-request id of `n` ASCII letters and digits.
pub fn gen_sri(n: usize) -> (s: String)
    ensures
        s@.len() == n,
        forall|i: int| 0 <= i < n ==> is_alphanumeric_char(#[trigger] s@[i]),
{
    let mut rng = thread_rng();
    let mut s = String::new();
    let mut i: usize = 0;
    while i < n
        invariant
            i <= n,
            s@.len() == i,
            forall|j: int| 0 <= j < i ==> is_alphanumeric_char(#[trigger] s@[j]),
        decreases n - i,
    {
        let b = sample_alphanumeric(&mut rng);
        let c = b as char;
        s.push(c);
        i = i + 1;
    }
    s
}

/// The address of the watch socket of game `game_id`, for request id `sri`.
pub open spec fn watch_url_text(game_id: Seq<char>, sri: Seq<char>) -> Seq<char> {
    "wss://socket1.lishogi.org/watch/"@ + game_id + "/sente/v6?sri="@ + sri
}

/// The address of the watch socket of game `game_id`, for request id `sri`.
pub fn watch_url(game_id: &str, sri: &str) -> (url: String)
    ensures
        url@ == watch_url_text(game_id@, sri@),
{
    let mut url = String::from_str("wss://socket1.lishogi.org/watch/");
    url.append(game_id);
    url.append("/sente/v6?sri=");
    url.append(sri);
    url
}

/// The address to connect to for watching game `game_id`, with a fresh random request id
/// of twelve ASCII letters and digits.
pub fn connect_url(game_id: &str) -> (url: String)
    ensures
        exists|sri: Seq<char>|
            sri.len() == 12 && (forall|i: int| 0 <= i < 12 ==> is_alphanumeric_char(#[trigger] sri[i]))
                && url@ == watch_url_text(game_id@, sri),
{
    let sri = gen_sri(12);
    let url = watch_url(game_id, sri.as_str());
    assert(sri@.len() == 12 && (forall|i: int| 0 <= i < 12 ==> is_alphanumeric_char(#[trigger] sri@[i])));
    url
}

/// The keepalive schedule of a socket: every tick sends "null", and every twentieth tick,
/// starting with the second, sends a version check before it.
pub struct Keepalive {
    counter: i32,
}

/// The counter after one tick from `c`.
pub open spec fn keepalive_next(c: int) -> int {
    if c == 19 {
        0
    } else {
        c + 1
    }
}

/// The counter after `k` ticks of a new keepalive.
pub open spec fn keepalive_after(k: nat) -> int
    decreases k,
{
    if k == 0 {
        18
    } else {
        keepalive_next(keepalive_after((k - 1) as nat))
    }
}

impl Keepalive {
    /// The keepalive's counter.
    pub closed spec fn counter(&self) -> int {
        self.counter as int
    }

    #[verifier::type_invariant]
    closed spec fn counter_in_range(&self) -> bool {
        0 <= self.counter <= 19
    }

    /// A keepalive that has not ticked yet.
    pub fn new() -> (k: Keepalive)
        ensures
            k.counter() == 18,
    {
        Keepalive { counter: 18 }
    }

    /// One tick: whether this tick sends a version check (before the "null").
    pub fn tick(&mut self) -> (version_check: bool)
        ensures
            version_check == (old(self).counter() == 19),
            final(self).counter() == keepalive_next(old(self).counter()),
    {
        proof {
            use_type_invariant(&*self);
        }
        if self.counter == 19 {
            self.counter = 0;
            true
        } else {
            self.counter = self.counter + 1;
            false
        }
    }
}

/// Over its ticks, a new keepalive's counter is `(18 + k) % 20` after `k` ticks, so tick
/// number `k + 1` sends a version check exactly when `k % 20 == 1`: on the second tick and
/// on every twentieth after it.
pub proof fn keepalive_schedule(k: nat)
    ensures
        keepalive_after(k) == (18 + k) % 20,
        (keepalive_after(k) == 19) == (k % 20 == 1),
    decreases k,
{
    if k > 0 {
        keepalive_schedule((k - 1) as nat);
    }
}

/// The texts a keepalive tick sends, in order.
pub fn keepalive_messages(version_check: bool) -> (msgs: Vec<String>)
    ensures
        version_check ==> msgs@.len() == 2 && msgs@[0]@ == "{ \"t\": \"version_check\" }"@ && msgs@[1]@
            == "null"@,
        !version_check ==> msgs@.len() == 1 && msgs@[0]@ == "null"@,
{
    let mut msgs: Vec<String> = Vec::new();
    if version_check {
        msgs.push(String::from_str("{ \"t\": \"version_check\" }"));
    }
    msgs.push(String::from_str("null"));
    msgs
}

/// A frame received on the socket.
pub enum Frame {
    Text(String),
    Binary,
    Ping,
    Pong,
    Close,
    Other,
}

/// Counts the server's heartbeats ("0") until enough were seen or time is up.
pub struct PingCollector {
    pub count: usize,
    pub max_pings: usize,
}

impl PingCollector {
    /// A collector that wants `max_pings` heartbeats.
    pub fn new(max_pings: usize) -> (c: PingCollector)
        ensures
            c.count == 0,
            c.max_pings == max_pings,
    {
        PingCollector { count: 0, max_pings }
    }

    /// Takes in one frame, and whether the time allowed has passed since the start; returns
    /// whether to stop. A heartbeat counts while fewer than `max_pings` were seen; collecting
    /// stops at a heartbeat once `max_pings` heartbeats were seen, or else once the time is up.
    pub fn observe(&mut self, frame: &Frame, timed_out: bool) -> (stop: bool)
        ensures
            final(self).max_pings == old(self).max_pings,
            final(self).count == (if frame matches Frame::Text(t) && t@ == "0"@ && old(self).count
                < old(self).max_pings {
                old(self).count + 1
            } else {
                old(self).count as int
            }),
            old(self).count <= old(self).max_pings ==> final(self).count <= final(self).max_pings,
            stop == ((frame matches Frame::Text(t) && t@ == "0"@ && final(self).count
                >= final(self).max_pings) || timed_out),
    {
        if let Frame::Text(t) = frame {
            if text_eq(t.as_str(), "0") {
                if self.count < self.max_pings {
                    self.count = self.count + 1;
                }
                if self.count >= self.max_pings {
                    return true;
                }
            }
        }
        timed_out
    }
}

/// What a listener does with a frame.
pub enum FrameAction {
    /// A server heartbeat: nothing to do.
    Heartbeat,
    /// Nothing to do.
    Ignore,
    /// Decode the text as a message.
    Decode,
    /// The socket closed: stop listening.
    Stop,
}

/// What a listener does with a frame: heartbeats ("0") and version-check replies (a JSON
/// object that mentions "versionCheck") are skipped, other texts are decoded, a close
/// ends the listening, and everything else is ignored.
pub open spec fn frame_action_of(frame: Frame) -> FrameAction {
    match frame {
        Frame::Text(t) => if t@ == "0"@ {
            FrameAction::Heartbeat
        } else if t@.len() > 0 && t@[0] == '{' && contains_text(t@, "versionCheck"@) {
            FrameAction::Ignore
        } else {
            FrameAction::Decode
        },
        Frame::Close => FrameAction::Stop,
        _ => FrameAction::Ignore,
    }
}

/// What a listener does with `frame`.
pub fn classify_frame(frame: &Frame) -> (a: FrameAction)
    ensures
        a == frame_action_of(*frame),
{
    match frame {
        Frame::Text(t) => {
            if text_eq(t.as_str(), "0") {
                return FrameAction::Heartbeat;
            }
            let chars = chars_of(t.as_str());
            let pattern = chars_of("versionCheck");
            if chars.len() > 0 && chars[0] == '{' {
                let found = find_from(&chars, &pattern, 0);
                proof {
                    if contains_text(t@, "versionCheck"@) {
                        let i = choose|i: int| crate::text::occurs_at(t@, "versionCheck"@, i);
                        assert(i >= 0);
                    }
                }
                if found.is_some() {
                    return FrameAction::Ignore;
                }
            }
            FrameAction::Decode
        },
        Frame::Close => FrameAction::Stop,
        _ => FrameAction::Ignore,
    }
}

/// A copy of a move.
pub fn copy_move(m: &MoveData) -> (r: MoveData)
    ensures
        r.usi@ == m.usi@,
        r.sfen@ == m.sfen@,
        r.ply == m.ply,
        r.clock == m.clock,
        r.check == m.check,
{
    MoveData {
        usi: copy_text(m.usi.as_str()),
        sfen: copy_text(m.sfen.as_str()),
        ply: m.ply,
        clock: m.clock,
        check: m.check,
    }
}

/// What to store for a decoded message.
pub enum StoreCommand {
    /// Nothing to store.
    Nothing,
    /// Only to be logged: an announcement of LiShogi.
    Announce(String),
    /// Store this move.
    AddMove(MoveData),
    /// Mark the game as ended, with this winner code and win condition.
    EndGame(i32, String),
}

/// What to store for `msg`: its move, the end of its game, or (for an announcement)
/// nothing but a log line.
pub fn plan_store(msg: &SocketMessage) -> (c: StoreCommand)
    ensures
        msg.d is None ==> c is Nothing,
        msg.d matches Some(MessageData::AnnouncementData(a)) ==> c matches StoreCommand::Announce(
            text,
        ) && text@ == a.msg@,
        msg.d matches Some(MessageData::MoveData(m)) ==> c matches StoreCommand::AddMove(r)
            && r.usi@ == m.usi@ && r.sfen@ == m.sfen@ && r.ply == m.ply && r.clock == m.clock
            && r.check == m.check,
        msg.d matches Some(MessageData::EndGameData(e)) ==> c matches StoreCommand::EndGame(
            w,
            cond,
        ) && w == winner_code_of(e.winner@) && cond@ == e.status.name@,
{
    match &msg.d {
        None => StoreCommand::Nothing,
        Some(MessageData::AnnouncementData(a)) => StoreCommand::Announce(copy_text(a.msg.as_str())),
        Some(MessageData::MoveData(m)) => StoreCommand::AddMove(copy_move(m)),
        Some(MessageData::EndGameData(e)) => {
            let (w, cond) = end_game_update(e);
            StoreCommand::EndGame(w, cond)
        },
    }
}

/// What a listener does after storing: whether to hand the message on, and whether to stop.
pub struct Reaction {
    pub notify: bool,
    pub stop: bool,
}

/// After executing `command` (where storing a move reports `stored`): the message is handed
/// on to the callback, where there is one, unless it was a move that could not be stored
/// (such as one stored before); the listener stops after the end of the game.
pub fn react(command: &StoreCommand, stored: bool, has_callback: bool) -> (r: Reaction)
    ensures
        r.notify == (has_callback && !(command is AddMove && !stored)),
        r.stop == command is EndGame,
{
    let update = match command {
        StoreCommand::AddMove(_) => stored,
        _ => true,
    };
    let stop = match command {
        StoreCommand::EndGame(_, _) => true,
        _ => false,
    };
    Reaction { notify: update && has_callback, stop }
}

/// Whether a listener is to be started for game `g` while the games `listening` have one,
/// and the games that have one afterwards: it starts only where none runs yet.
pub open spec fn claim_outcome(listening: Set<Seq<char>>, g: Seq<char>) -> (bool, Set<Seq<char>>) {
    (!listening.contains(g), listening.insert(g))
}

/// The games that have a running listener, each once.
pub struct ListenerRegistry {
    games: Vec<String>,
}

impl ListenerRegistry {
    /// The games that have a running listener.
    pub closed spec fn listening(&self) -> Set<Seq<char>> {
        views(self.games@).to_set()
    }

    #[verifier::type_invariant]
    closed spec fn each_once(&self) -> bool {
        views(self.games@).no_duplicates()
    }

    /// A registry with no listener.
    pub fn new() -> (r: ListenerRegistry)
        ensures
            r.listening() == Set::<Seq<char>>::empty(),
    {
        let r = ListenerRegistry { games: Vec::new() };
        assert(r.listening() =~= Set::<Seq<char>>::empty());
        r
    }

    fn position(&self, game_id: &str) -> (r: Option<usize>)
        ensures
            r matches Some(i) ==> i < self.games@.len() && self.games@[i as int]@ == game_id@,
            r is None ==> !self.listening().contains(game_id@),
    {
        let mut i: usize = 0;
        while i < self.games.len()
            invariant
                i <= self.games@.len(),
                forall|j: int| 0 <= j < i ==> #[trigger] self.games@[j]@ != game_id@,
            decreases self.games@.len() - i,
        {
            if text_eq(self.games[i].as_str(), game_id) {
                return Some(i);
            }
            i = i + 1;
        }
        proof {
            if views(self.games@).contains(game_id@) {
                let k = choose|k: int| 0 <= k < views(self.games@).len() && views(self.games@)[k] == game_id@;
                assert(self.games@[k]@ == game_id@);
            }
        }
        None
    }

    /// Whether this game is listened to.
    pub fn is_listening(&self, game_id: &str) -> (r: bool)
        ensures
            r == self.listening().contains(game_id@),
    {
        match self.position(game_id) {
            Some(i) => {
                assert(views(self.games@)[i as int] == game_id@);
                true
            },
            None => false,
        }
    }

    /// Whether to start a listener for `game_id`: only where none runs yet. The game then
    /// counts as listened to.
    pub fn claim(&mut self, game_id: &str) -> (start: bool)
        ensures
            (start, final(self).listening()) == claim_outcome(old(self).listening(), game_id@),
    {
        proof {
            use_type_invariant(&*self);
        }
        match self.position(game_id) {
            Some(i) => {
                assert(views(self.games@)[i as int] == game_id@);
                assert(self.listening().insert(game_id@) =~= self.listening());
                false
            },
            None => {
                let ghost before = views(self.games@);
                let mut games = Vec::new();
                std::mem::swap(&mut games, &mut self.games);
                games.push(copy_text(game_id));
                let ghost after = before.push(game_id@);
                assert(views(games@) =~= after);
                assert forall|x: Seq<char>| #[trigger] after.to_set().contains(x) <==> before.to_set().insert(game_id@).contains(x) by {
                    if after.contains(x) {
                        let k = choose|k: int| 0 <= k < after.len() && after[k] == x;
                        if k < before.len() {
                            assert(before[k] == x);
                        }
                    }
                    if before.contains(x) {
                        let k = choose|k: int| 0 <= k < before.len() && before[k] == x;
                        assert(after[k] == x);
                    }
                    if x == game_id@ {
                        assert(after[before.len() as int] == x);
                    }
                }
                assert(after.to_set() =~= before.to_set().insert(game_id@));
                assert forall|a: int, b: int| 0 <= a < after.len() && 0 <= b < after.len() && a != b implies after[a] != after[b] by {
                    if a == before.len() as int {
                        assert(after[b] == before[b]);
                    } else if b == before.len() as int {
                        assert(after[a] == before[a]);
                    }
                }
                self.games = games;
                true
            },
        }
    }

    /// The listener of `game_id` has ended.
    pub fn release(&mut self, game_id: &str)
        ensures
            final(self).listening() == old(self).listening().remove(game_id@),
    {
        proof {
            use_type_invariant(&*self);
        }
        match self.position(game_id) {
            Some(i) => {
                let ghost before = views(self.games@);
                assert(before.no_duplicates());
                assert(before[i as int] == game_id@);
                let mut games = Vec::new();
                std::mem::swap(&mut games, &mut self.games);
                games.remove(i);
                assert(views(games@) =~= before.remove(i as int));
                assert forall|x: Seq<char>| #[trigger] views(games@).to_set().contains(x) <==> before.to_set().remove(game_id@).contains(x) by {
                    if views(games@).contains(x) {
                        let k = choose|k: int| 0 <= k < views(games@).len() && views(games@)[k] == x;
                        if k < i {
                            assert(before[k] == x);
                            assert(k != i);
                        } else {
                            assert(before[k + 1] == x);
                            assert(k + 1 != i);
                        }
                    }
                    if before.to_set().remove(game_id@).contains(x) {
                        let k = choose|k: int| 0 <= k < before.len() && before[k] == x;
                        assert(k != i);
                        if k < i {
                            assert(views(games@)[k] == x);
                        } else {
                            assert(views(games@)[k - 1] == x);
                        }
                    }
                }
                assert(views(games@).to_set() =~= before.to_set().remove(game_id@));
                self.games = games;
            },
            None => {
                assert(self.listening().remove(game_id@) =~= self.listening());
            },
        }
    }
}

/// At most one listener runs per game: once a listener was started for a game, asking
/// again starts none, until that listener has ended.
pub proof fn one_listener_per_game(listening: Set<Seq<char>>, g: Seq<char>)
    ensures
        !claim_outcome(claim_outcome(listening, g).1, g).0,
        claim_outcome(claim_outcome(listening, g).1.remove(g), g).0,
{
}

} // verus!
