//! The messages and room of the command-line client: a simpler room whose
//! tracks are only a URI and a duration.
use vstd::prelude::*;

verus! {

/// A listener with its queue of tracks.
#[derive(Debug, PartialEq, Clone)]
pub struct User {
    pub id: String,
    pub queue: Vec<Track>,
}

/// A track: where to play it from, and for how long.
#[derive(Debug, PartialEq, Clone)]
pub struct Track {
    pub uri: String,
    pub duration_ms: u32,
}

/// The track being played and when it started.
#[derive(Debug, PartialEq, Clone)]
pub struct Playing {
    pub uri: String,
    pub duration_ms: u32,
    pub started: u64,
}

/// The DJs around the one on turn.
#[derive(Debug, PartialEq, Clone)]
pub struct Djs {
    pub before: Vec<User>,
    pub current: User,
    pub after: Vec<User>,
}

/// The room of the command-line client.
#[derive(Debug, PartialEq, Clone)]
pub struct Room {
    pub id: String,
    pub users: Vec<User>,
    pub djs: Option<Djs>,
    pub playing: Option<Playing>,
    pub next_up: Option<Track>,
}

/// What the command-line client asks.
#[derive(Debug, PartialEq, Clone)]
pub enum Input {
    Authenticate(User),
    JoinRoom(User),
    AddTrack(String, String, u32),
}

/// What the command-line client is told.
#[derive(Debug, PartialEq, Clone)]
pub enum Output {
    RoomState(Room),
    RoomJoined(User),
    TrackAdded(Track),
}

/// The command-line client.
#[derive(Debug, PartialEq, Clone)]
pub struct ClientApp {}

} // verus!
