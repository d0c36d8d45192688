# Spotijay

Spotijay lets people listen to music together: listeners join a room, some
of them become DJs, and the DJs take turns playing the tracks they queued on
everyone's Spotify. Listeners can vote the playing track down; once half of
the room did, it is skipped.

The logic of the rooms, of the server and of the web client is a library
verified with Verus (`src/`); the WebSocket server around it is ordinary Rust
(`app/`).

## Layout

- `src/shared.rs`: the room model shared with the web client. The DJs are a
  double-ended queue whose front is on turn; `next_djs` hands the turn on,
  `prune_djs_without_queue` drops the DJs with nothing to play. Downvotes are
  a vector of user ids: `add_downvote` adds an id only when it is absent, and
  its contract (with `law_downvote_counts_once` and `law_votes_are_voters`)
  shows that a vector without repeats stays without repeats. The skip
  threshold counts the distinct ids of the vector (`count_voters`, and
  `law_voter_count_is_set_size`), so a repeated id still counts once.
- `src/room.rs`: the server's room, whose DJs are a zipper around the DJ on
  turn, and everything the server does to it: the requests of the clients
  (`handle_input`), starting and skipping tracks, queueing the next one,
  timing users out, telling whether a closed connection was a user's last.
  Each operation is specified by a function on `RoomView`.
- `src/laws.rs`: what holds across these operations, proved: the turn moves
  cyclically without changing the DJs and comes back after a full round,
  pruning and removals keep everyone else in the room, joining and starting
  are idempotent, a user's downvote counts once, the track queued next is
  the one that plays next.
- `src/web.rs`: the web client as a state machine: from its model and a
  message to its next model and what it has to do (send a request, drive
  Spotify, store a login), and what it shows: the list of DJs, and the
  playlist panel (`panel`: the login button, the search results or the
  user's queue).
- `src/login.rs`: reading the access token and its lifetime from the
  address Spotify's login sends the client back to, with the `url` crate
  parsing the address and decoding its query.
- `src/pages.rs`, `src/spotify.rs`: routing from the URL hash, and the
  Spotify API's types with the conversion of its tracks.
- `src/types.rs`: the simpler room and messages of the command-line client.
- `app/`: the server. It reads and writes the room in SQLite, speaks JSON
  over WebSockets, runs the timers, and asks the library what to do.
