# kanshi

A Discord bot that follows LiShogi games: it watches each game's socket, stores the
moves in SQLite, and posts every move, the end of the game and LiShogi's announcements to
a thread per game. It also answers `/shogi user`, `/shogi track`, `/changelog`, `/debug`
and `/reboot`.

## Layout

- `src/` is the library, verified with Verus. It holds the decisions of the bot:
  - `ws`: the socket address, the keepalive schedule, how each frame is treated, what is
    stored for a message, when a listener stops, and that each game has one listener;
  - `persistence`: the records that are written and which move of a game is the latest;
  - `notify`: which channel and thread a game's news goes to, and what is posted;
  - `changelog` and `discord`: reading `CHANGELOG.md` and fitting it into an embed;
  - `commands`, `time`, `img`, `error`, `text`: replies, durations, picture paths, the
    error type and the text helpers they share.
- `app/` is the program around it: Discord (poise, serenity), the sockets
  (tokio-tungstenite), the database (diesel), logging (fern) and the JSON messages (serde).
  It performs the I/O and hands plain values to the library.
- `tests/` exercises the library.

The database schema is applied from a `migrations` directory next to the program, found at
start-up.
