//! What the web client does with the room it is shown: finding the signed-in
//! user in it, and following what the server reports.
use crate::pages::{contains_text, hash_text, is_logging_in, page_of_path, split_on_slash, Page, Url};
use crate::shared::{
    add_downvote, copy_user, is_listed, prune_djs_without_queue, pruned_djs, same_track, same_user,
    texts, with_vote, Input, Output, Room, Track, User,
};
use crate::spotify::{
    artist_names, converted_track, joined_names, track_from_spotify, SpotifyImage, SpotifySearchResult,
    SpotifyTrack,
};
use vstd::prelude::*;

verus! {

/// `i` is the first index of `s` whose user has the id `id`.
pub open spec fn is_first_user(s: Seq<User>, id: Seq<char>, i: int) -> bool {
    &&& 0 <= i < s.len()
    &&& s[i].id@ == id
    &&& forall|j: int| 0 <= j < i ==> s[j].id@ != id
}

/// The DJs in turn order, then the listeners.
pub open spec fn djs_then_users(room: Room) -> Seq<User> {
    room.djs@ + room.users@
}

/// The user `user_id` of the room, looked for among the DJs first and then
/// among the listeners: a copy of its first entry, or `None` if it is not in
/// the room.
pub fn current_user(user_id: &str, room: &Room) -> (user: Option<User>)
    ensures
        match user {
            Some(u) => exists|i: int|
                is_first_user(djs_then_users(*room), user_id@, i) && same_user(
                    u,
                    #[trigger] djs_then_users(*room)[i],
                ),
            None => forall|j: int|
                0 <= j < djs_then_users(*room).len() ==> djs_then_users(*room)[j].id@ != user_id@,
        },
{
    let id = String::from_str(user_id);
    let ghost all = djs_then_users(*room);
    let nd = room.djs.len();
    let mut i: usize = 0;
    while i < nd
        invariant
            i <= nd,
            nd == room.djs@.len(),
            all == djs_then_users(*room),
            id@ == user_id@,
            forall|j: int| 0 <= j < i ==> all[j].id@ != user_id@,
        decreases nd - i,
    {
        if room.djs[i].id == id {
            assert(all[i as int] == room.djs@[i as int]);
            assert(is_first_user(all, user_id@, i as int));
            return Some(copy_user(&room.djs[i]));
        }
        assert(all[i as int] == room.djs@[i as int]);
        i = i + 1;
    }
    let nu = room.users.len();
    let mut k: usize = 0;
    while k < nu
        invariant
            k <= nu,
            nd == room.djs@.len(),
            nu == room.users@.len(),
            all == djs_then_users(*room),
            id@ == user_id@,
            forall|j: int| 0 <= j < nd + k ==> all[j].id@ != user_id@,
        decreases nu - k,
    {
        if room.users[k].id == id {
            assert(all[nd + k] == room.users@[k as int]);
            assert(is_first_user(all, user_id@, nd + k));
            return Some(copy_user(&room.users[k]));
        }
        assert(all[nd + k] == room.users@[k as int]);
        k = k + 1;
    }
    None
}

/// `new` is the room the client shows after the report `output` on the
/// room `old` (see `update_room_from_output`).
pub open spec fn room_followed(old: Option<Room>, output: Output, new: Option<Room>) -> bool {
    match output {
        Output::RoomState(r) => new == Some(r),
        Output::TrackPlayed(p) => match old {
            Some(r) => new matches Some(r2) && {
                &&& r2.playing == p
                &&& r2.djs@ == pruned_djs(r.djs@, p is Some)
                &&& r2.id == r.id
                &&& r2.users == r.users
                &&& r2.next_up == r.next_up
            },
            None => new == old,
        },
        Output::Downvoted(id) => match old {
            Some(r) => match r.playing {
                Some(p) => new matches Some(r2) && {
                    &&& r2.playing is Some
                    &&& r2.playing->0@ == with_vote(p@, id@)
                    &&& r2.playing->0.id == p.id
                    &&& r2.playing->0.started == p.started
                    &&& r2.id == r.id
                    &&& r2.users == r.users
                    &&& r2.djs == r.djs
                    &&& r2.next_up == r.next_up
                },
                None => new == old,
            },
            None => new == old,
        },
        _ => new == old,
    }
}

/// Follows a report of the server on the room the client shows: a new room
/// state replaces it; a played track (or none) becomes the playing one and
/// the DJs without tracks are pruned; a downvote is counted on the playing
/// track. Without a room, only a room state changes anything; the other
/// reports change nothing.
pub fn update_room_from_output(room: &mut Option<Room>, output: Output)
    ensures
        room_followed(*old(room), output, *final(room)),

{
    match output {
        Output::RoomState(r) => {
            *room = Some(r);
        },
        Output::TrackPlayed(p) => {
            let current = room.take();
            match current {
                Some(mut r) => {
                    r.playing = p;
                    prune_djs_without_queue(&mut r);
                    *room = Some(r);
                },
                None => {},
            }
        },
        Output::Downvoted(id) => {
            let current = room.take();
            match current {
                Some(mut r) => {
                    let playing = r.playing.take();
                    match playing {
                        Some(mut p) => {
                            add_downvote(&mut p, id);
                            r.playing = Some(p);
                        },
                        None => {},
                    }
                    *room = Some(r);
                },
                None => {},
            }
        },
        _ => {},
    }
}


/// The Spotify login of the signed-in user: its token and when it expires.
#[derive(Debug, PartialEq, Clone)]
pub struct SpotifyAuth {
    pub access_token: String,
    pub expires_epoch: u64,
}

/// The signed-in user.
#[derive(Debug, PartialEq, Clone)]
pub struct Session {
    pub user_id: String,
}

/// What the client knows once the user has signed in.
#[derive(Debug, PartialEq, Clone)]
pub struct AuthedModel {
    pub session: Session,
    pub auth: Option<SpotifyAuth>,
    pub search: String,
    pub room: Option<Room>,
    pub search_result: Option<SpotifySearchResult>,
}

/// What happens to a signed-in client.
#[derive(Debug, PartialEq, Clone)]
pub enum AuthenticatedMsg {
    Downvote,
    LoggedInSpotify(SpotifyAuth),
    SpotifyLogout,
    WebSocketConnected,
    BecomeDj,
    AddTrack(String),
    RemoveTrack(String),
    ServerMessage(Output),
    SearchChange(String),
    SearchFetched(SpotifySearchResult),
}

/// What the client has to do after handling a message.
#[derive(Debug, PartialEq, Clone)]
pub enum Command {
    /// Send a request to the server.
    Send(Input),
    /// Go to the home page.
    GoHome,
    /// Forget the stored Spotify login.
    ForgetSpotifyAuth,
    /// Have Spotify play `uri` from `position_ms` on.
    Play { auth: SpotifyAuth, uri: String, position_ms: u32 },
    /// Have Spotify skip to its next track.
    Next { auth: SpotifyAuth },
    /// Have Spotify queue `uri`.
    Queue { auth: SpotifyAuth, uri: String },
    /// Search Spotify for `query`.
    Search { auth: SpotifyAuth, query: String },
}

impl AuthedModel {
    /// A signed-in client that knows nothing more yet.
    pub fn new(session: Session) -> (model: Self)
        ensures
            model.session == session,
            model.auth is None,
            model.search@.len() == 0,
            model.room is None,
            model.search_result is None,
    {
        AuthedModel { session: session, auth: None, search: String::new(), room: None, search_result: None }
    }
}

/// The logins hold the same token and expiry.
pub open spec fn same_auth(a: SpotifyAuth, b: SpotifyAuth) -> bool {
    a.access_token@ == b.access_token@ && a.expires_epoch == b.expires_epoch
}

fn copy_auth(a: &SpotifyAuth) -> (c: SpotifyAuth)
    ensures
        same_auth(c, *a),
{
    SpotifyAuth { access_token: a.access_token.clone(), expires_epoch: a.expires_epoch }
}

/// `cmd` sends a request of the user `id`, as `request` builds it from a
/// copy of the id.
pub open spec fn sends(cmd: Option<Command>, request: spec_fn(String) -> Input, id: Seq<char>) -> bool {
    cmd matches Some(Command::Send(input)) && exists|s: String| s@ == id && input == request(s)
}

/// `cmd` has Spotify play `uri` from `position` on, with the login `auth`.
pub open spec fn plays(cmd: Option<Command>, auth: SpotifyAuth, uri: Seq<char>, position: u32) -> bool {
    cmd matches Some(Command::Play { auth: a, uri: u, position_ms }) && same_auth(a, auth) && u@ == uri
        && position_ms == position
}

/// Where a track that started at `started` is at `now`, in milliseconds cut
/// to 32 bits.
pub open spec fn position_at(now: u64, started: u64) -> u32 {
    (now - started) as u32
}

/// What a report of the server asks of Spotify, for a client with the
/// login `auth` that showed the room `room`.
pub open spec fn spotify_follows(room: Option<Room>, auth: Option<SpotifyAuth>, output: Output, now: u64, cmd: Option<Command>) -> bool {
    match output {
        Output::RoomState(r) => if room is None && r.playing is Some && auth is Some {
            plays(cmd, auth->0, r.playing->0.uri@, position_at(now, r.playing->0.started))
        } else {
            cmd is None
        },
        Output::TrackPlayed(p) => match auth {
            Some(a) => match p {
                Some(pl) => plays(cmd, a, pl.uri@, position_at(now, pl.started)),
                None => cmd matches Some(Command::Next { auth: na }) && same_auth(na, a),
            },
            None => cmd is None,
        },
        Output::NextTrackQueued(t) => match auth {
            Some(a) => cmd matches Some(Command::Queue { auth: qa, uri }) && same_auth(qa, a) && uri@ == t.uri@,
            None => cmd is None,
        },
        _ => cmd is None,
    }
}

/// The first index of the search results with the track id `id`.
pub open spec fn is_first_result(r: SpotifySearchResult, id: Seq<char>, i: int) -> bool {
    &&& 0 <= i < r.tracks.items@.len()
    &&& r.tracks.items@[i].id@ == id
    &&& forall|j: int| 0 <= j < i ==> r.tracks.items@[j].id@ != id
}

/// The tracks played by Spotify start no later than `now`, so their
/// position is defined.
pub open spec fn started_by(msg: AuthenticatedMsg, now: u64) -> bool {
    match msg {
        AuthenticatedMsg::ServerMessage(Output::RoomState(r)) => r.playing matches Some(p) ==> p.started <= now,
        AuthenticatedMsg::ServerMessage(Output::TrackPlayed(Some(p))) => p.started <= now,
        _ => true,
    }
}

/// A message the client can handle: a track to add is one of the search
/// results, and played tracks started by `now`.
pub open spec fn handles(model: AuthedModel, msg: AuthenticatedMsg, now: u64) -> bool {
    &&& started_by(msg, now)
    &&& msg matches AuthenticatedMsg::AddTrack(id) ==> (model.search_result matches Some(r) && exists|i: int|
        0 <= i < r.tracks.items@.len() && r.tracks.items@[i].id@ == id@)
}

fn find_result(r: &SpotifySearchResult, id: &String) -> (i: usize)
    requires
        exists|i: int| 0 <= i < r.tracks.items@.len() && r.tracks.items@[i].id@ == id@,
    ensures
        is_first_result(*r, id@, i as int),
{
    let n = r.tracks.items.len();
    let mut i: usize = 0;
    while i < n
        invariant
            i <= n,
            n == r.tracks.items@.len(),
            forall|j: int| 0 <= j < i ==> r.tracks.items@[j].id@ != id@,
            exists|i: int| 0 <= i < r.tracks.items@.len() && r.tracks.items@[i].id@ == id@,
        decreases n - i,
    {
        if r.tracks.items[i].id == *id {
            return i;
        }
        i = i + 1;
    }
    proof {
        let k = choose|k: int| 0 <= k < r.tracks.items@.len() && r.tracks.items@[k].id@ == id@;
        assert(r.tracks.items@[k].id@ != id@);
    }
    0
}

/// What Spotify is asked on a report of the server.
fn spotify_command(room: &Option<Room>, auth: &Option<SpotifyAuth>, output: &Output, now: u64) -> (cmd: Option<Command>)
    requires
        started_by(AuthenticatedMsg::ServerMessage(*output), now),
    ensures
        spotify_follows(*room, *auth, *output, now, cmd),
{
    match output {
        Output::RoomState(r) => {
            if room.is_none() {
                match (&r.playing, auth) {
                    (Some(p), Some(a)) => Some(
                        Command::Play { auth: copy_auth(a), uri: p.uri.clone(), position_ms: (now - p.started) as u32 },
                    ),
                    _ => None,
                }
            } else {
                None
            }
        },
        Output::TrackPlayed(p) => match auth {
            Some(a) => match p {
                Some(pl) => Some(
                    Command::Play { auth: copy_auth(a), uri: pl.uri.clone(), position_ms: (now - pl.started) as u32 },
                ),
                None => Some(Command::Next { auth: copy_auth(a) }),
            },
            None => None,
        },
        Output::NextTrackQueued(t) => match auth {
            Some(a) => Some(Command::Queue { auth: copy_auth(a), uri: t.uri.clone() }),
            None => None,
        },
        _ => None,
    }
}

/// `m2`, `page2` and `cmd` are the model, the page and the command after
/// a signed-in client with the model `m` on the page `page` handles `msg`
/// at `now` (see `authed_update`).
pub open spec fn authed_updated(m: AuthedModel, page: Page, msg: AuthenticatedMsg, now: u64, m2: AuthedModel, page2: Page, cmd: Option<Command>) -> bool {
    match msg {
        AuthenticatedMsg::Downvote => m2 == m && page2 == page
            && sends(cmd, |s: String| Input::Downvote(s), m.session.user_id@),
        AuthenticatedMsg::LoggedInSpotify(a) => m2 == (AuthedModel { auth: Some(a), ..m })
            && page2 == Page::Home && cmd == Some(Command::GoHome),
        AuthenticatedMsg::SpotifyLogout => m2 == (AuthedModel { auth: None, ..m })
            && page2 == page && cmd == Some(Command::ForgetSpotifyAuth),
        AuthenticatedMsg::WebSocketConnected => m2 == m && page2 == page
            && sends(cmd, |s: String| Input::Authenticate(s), m.session.user_id@),
        AuthenticatedMsg::BecomeDj => m2 == m && page2 == page
            && sends(cmd, |s: String| Input::BecomeDj(s), m.session.user_id@),
        AuthenticatedMsg::AddTrack(id) => {
            &&& m2.session == m.session
            &&& m2.auth == m.auth
            &&& m2.room == m.room
            &&& m2.search@.len() == 0
            &&& m2.search_result is None
            &&& page2 == page
            &&& exists|i: int, s: String, t: Track| {
                &&& is_first_result(m.search_result->0, id@, i)
                &&& s@ == m.session.user_id@
                &&& converted_track(m.search_result->0.tracks.items@[i], t)
                &&& cmd == Some(Command::Send(Input::AddTrack(s, t)))
            }
        },
        AuthenticatedMsg::RemoveTrack(id) => m2 == m && page2 == page
            && sends(cmd, |s: String| Input::RemoveTrack(s, id), m.session.user_id@),
        AuthenticatedMsg::ServerMessage(output) => {
            &&& m2.session == m.session
            &&& m2.auth == m.auth
            &&& m2.search == m.search
            &&& m2.search_result == m.search_result
            &&& page2 == page
            &&& match output {
                Output::RoomState(r) => m2.room == Some(r),
                Output::NextTrackQueued(_) | Output::Authenticated(_) => m2.room == m.room,
                _ => room_followed(m.room, output, m2.room),
            }
            &&& spotify_follows(m.room, m.auth, output, now, cmd)
        },
        AuthenticatedMsg::SearchChange(val) => {
            &&& m2.session == m.session
            &&& m2.auth == m.auth
            &&& m2.room == m.room
            &&& m2.search == val
            &&& page2 == page
            &&& if val@.len() == 0 {
                m2.search_result is None && cmd is None
            } else {
                &&& m2.search_result == m.search_result
                &&& match m.auth {
                    Some(a) => cmd matches Some(Command::Search { auth: sa, query }) && same_auth(sa, a) && query@ == val@,
                    None => cmd is None,
                }
            }
        },
        AuthenticatedMsg::SearchFetched(r) => m2 == (AuthedModel { search_result: Some(r), ..m })
            && page2 == page && cmd is None,
    }
}

/// Handles a message of a signed-in client: changes what it knows and its
/// page, and tells what to do.
pub fn authed_update(msg: AuthenticatedMsg, model: &mut AuthedModel, page: &mut Page, now: u64) -> (cmd: Option<Command>)
    requires
        handles(*old(model), msg, now),
    ensures
        authed_updated(*old(model), *old(page), msg, now, *final(model), *final(page), cmd),

{
    match msg {
        AuthenticatedMsg::Downvote => {
            let s = model.session.user_id.clone();
            let cmd = Some(Command::Send(Input::Downvote(s)));
            assert((|s: String| Input::Downvote(s))(s) == Input::Downvote(s));
            cmd
        },
        AuthenticatedMsg::LoggedInSpotify(spotify_auth) => {
            model.auth = Some(spotify_auth);
            *page = Page::Home;
            Some(Command::GoHome)
        },
        AuthenticatedMsg::SpotifyLogout => {
            model.auth = None;
            Some(Command::ForgetSpotifyAuth)
        },
        AuthenticatedMsg::WebSocketConnected => {
            let s = model.session.user_id.clone();
            assert((|s: String| Input::Authenticate(s))(s) == Input::Authenticate(s));
            Some(Command::Send(Input::Authenticate(s)))
        },
        AuthenticatedMsg::BecomeDj => {
            let s = model.session.user_id.clone();
            assert((|s: String| Input::BecomeDj(s))(s) == Input::BecomeDj(s));
            Some(Command::Send(Input::BecomeDj(s)))
        },
        AuthenticatedMsg::AddTrack(track_id) => {
            let result = model.search_result.take().unwrap();
            let i = find_result(&result, &track_id);
            let ghost items = result.tracks.items@;
            let mut items_vec = result.tracks.items;
            let spotify_track = items_vec.remove(i);
            let track = track_from_spotify(spotify_track);
            let s = model.session.user_id.clone();
            model.search = String::new();
            let cmd = Some(Command::Send(Input::AddTrack(s, track)));
            assert(converted_track(items[i as int], track));
            cmd
        },
        AuthenticatedMsg::RemoveTrack(track_id) => {
            let s = model.session.user_id.clone();
            let ghost tid = track_id;
            let cmd = Some(Command::Send(Input::RemoveTrack(s, track_id)));
            assert((|s: String| Input::RemoveTrack(s, tid))(s) == Input::RemoveTrack(s, tid));
            cmd
        },
        AuthenticatedMsg::ServerMessage(output) => {
            let cmd = spotify_command(&model.room, &model.auth, &output, now);
            match output {
                Output::RoomState(room) => {
                    model.room = Some(room);
                },
                Output::NextTrackQueued(_) | Output::Authenticated(_) => {},
                _ => {
                    update_room_from_output(&mut model.room, output);
                },
            }
            cmd
        },
        AuthenticatedMsg::SearchChange(val) => {
            let empty = val.as_str().is_empty();
            let cmd = if !empty {
                match &model.auth {
                    Some(a) => Some(Command::Search { auth: copy_auth(a), query: val.clone() }),
                    None => None,
                }
            } else {
                model.search_result = None;
                None
            };
            model.search = val;
            cmd
        },
        AuthenticatedMsg::SearchFetched(search_results) => {
            model.search_result = Some(search_results);
            None
        },
    }
}

/// The server took the request to remove a track: the search results are
/// dropped.
pub fn track_removal_sent(model: &mut AuthedModel)
    ensures
        *final(model) == (AuthedModel { search_result: None, ..*old(model) }),
{
    model.search_result = None;
}


/// What the client knows before the user signs in: the name being typed.
#[derive(Debug, PartialEq, Clone)]
pub struct UnauthedModel {
    pub user_id: String,
}

impl Default for UnauthedModel {
    fn default() -> (model: Self)
        ensures
            model.user_id@.len() == 0,
    {
        UnauthedModel { user_id: String::new() }
    }
}

/// The client, signed in or not.
#[derive(Debug, PartialEq, Clone)]
pub enum Data {
    Authed(AuthedModel),
    UnAuthed(UnauthedModel),
}

/// The whole client: who it is, the page it shows, whether it is connected.
#[derive(Debug, PartialEq, Clone)]
pub struct Model {
    pub data: Data,
    pub page: Page,
    pub connected: bool,
}

/// What happens to the client. A message of the server comes parsed, with
/// the Spotify login stored in the browser; a Spotify login comes with its
/// token and how many seconds it lasts.
#[derive(Debug, PartialEq, Clone)]
pub enum Msg {
    Authenticate,
    LoggingInToSpotify,
    LoggedInSpotify { access_token: String, expires_in: u64 },
    Authenticated(AuthenticatedMsg),
    UsernameChange(String),
    WebSocketConnected,
    ServerMessage { output: Output, stored_auth: Option<SpotifyAuth> },
    Closed,
    Error,
    ChangePage(Page),
    Queued,
    Played,
    LogError(String),
}

/// What the client has to do after handling a message.
#[derive(Debug, PartialEq, Clone)]
pub enum Effect {
    /// A command of the signed-in client.
    Do(Command),
    /// Start sending heartbeats to the server.
    StartHeartbeat,
    /// Go to the Spotify login page.
    GoToSpotifyLogin,
    /// Store the Spotify login in the browser.
    StoreSpotifyAuth(SpotifyAuth),
    /// Store the session of the user in the browser.
    StoreSession(String),
    /// Show the route of a page.
    PushRoute(Page),
}

/// The effects of the command of a signed-in client.
pub open spec fn effects_of(cmd: Option<Command>) -> Seq<Effect> {
    match cmd {
        Some(c) => seq![Effect::Do(c)],
        None => Seq::empty(),
    }
}

/// The Spotify login that lasts `expires_in` seconds from `now`.
pub open spec fn login_of(access_token: String, expires_in: u64, now: u64) -> SpotifyAuth {
    SpotifyAuth { access_token: access_token, expires_epoch: (now + expires_in * 1000) as u64 }
}

/// A message the client can handle at `now`.
pub open spec fn update_handles(model: Model, msg: Msg, now: u64) -> bool {
    match msg {
        Msg::LoggedInSpotify { access_token, expires_in } => now + expires_in * 1000 <= u64::MAX,
        Msg::Authenticated(sub) => model.data matches Data::Authed(m) ==> handles(m, sub, now),
        Msg::ServerMessage { output, stored_auth } => model.data matches Data::Authed(m)
            ==> started_by(AuthenticatedMsg::ServerMessage(output), now),
        _ => true,
    }
}

/// The client signed in as a user whose id is `id`: with that session, the
/// stored Spotify login when its token is not empty, and nothing more.
pub open spec fn signed_in(m: AuthedModel, id: Seq<char>, stored_auth: Option<SpotifyAuth>) -> bool {
    &&& m.session.user_id@ == id
    &&& m.auth == (match stored_auth {
        Some(a) => if a.access_token@.len() > 0 { Some(a) } else { None },
        None => None,
    })
    &&& m.search@.len() == 0
    &&& m.room is None
    &&& m.search_result is None
}

/// The client after a signed-in message `sub` on the client `m` (the
/// client unchanged, and no effect, when it is not signed in).
pub open spec fn routed_to_authed(m: Model, sub: AuthenticatedMsg, now: u64, m2: Model, effects: Seq<Effect>) -> bool {
    match m.data {
        Data::Authed(am) => m2.data matches Data::Authed(am2) && m2.connected == m.connected && exists|cmd: Option<Command>|
            authed_updated(am, m.page, sub, now, am2, m2.page, cmd) && effects == effects_of(cmd),
        Data::UnAuthed(_) => m2 == m && effects == Seq::<Effect>::empty(),
    }
}

fn take_data(model: &mut Model) -> (data: Data)
    ensures
        data == old(model).data,
        final(model).page == old(model).page,
        final(model).connected == old(model).connected,
{
    let mut data = Data::UnAuthed(UnauthedModel { user_id: String::new() });
    std::mem::swap(&mut data, &mut model.data);
    data
}

/// Hands a signed-in message to the signed-in client, if it is signed in.
fn route_to_authed(model: &mut Model, sub: AuthenticatedMsg, now: u64) -> (effects: Vec<Effect>)
    requires
        old(model).data matches Data::Authed(m) ==> handles(m, sub, now),
    ensures
        routed_to_authed(*old(model), sub, now, *final(model), effects@),
{
    let data = take_data(model);
    let mut effects: Vec<Effect> = Vec::new();
    match data {
        Data::Authed(mut am) => {
            let cmd = authed_update(sub, &mut am, &mut model.page, now);
            model.data = Data::Authed(am);
            match cmd {
                Some(c) => {
                    effects.push(Effect::Do(c));
                },
                None => {},
            }
            assert(effects@ =~= effects_of(cmd));
        },
        Data::UnAuthed(um) => {
            model.data = Data::UnAuthed(um);
        },
    }
    effects
}

/// Handles a message of the client: changes what it knows, and tells what
/// to do.
pub fn update(msg: Msg, model: &mut Model, now: u64) -> (effects: Vec<Effect>)
    requires
        update_handles(*old(model), msg, now),
    ensures
        match msg {
            Msg::WebSocketConnected => {
                let m1 = Model { connected: true, ..*old(model) };
                effects.len() >= 1 && effects@[0] == Effect::StartHeartbeat
                    && routed_to_authed(m1, AuthenticatedMsg::WebSocketConnected, now, *final(model), effects@.drop_first())
            },
            Msg::Closed => *final(model) == (Model { connected: false, ..*old(model) }) && effects@.len() == 0,
            Msg::ChangePage(page) => *final(model) == (Model { page: page, ..*old(model) })
                && effects@ == seq![Effect::PushRoute(page)],
            Msg::LoggingInToSpotify => *final(model) == *old(model) && effects@ == seq![Effect::GoToSpotifyLogin],
            Msg::LoggedInSpotify { access_token, expires_in } => {
                let auth = login_of(access_token, expires_in, now);
                effects.len() >= 1 && (effects@[0] matches Effect::StoreSpotifyAuth(a) && same_auth(a, auth))
                    && exists|auth2: SpotifyAuth| same_auth(auth2, auth) && routed_to_authed(
                        *old(model),
                        AuthenticatedMsg::LoggedInSpotify(auth2),
                        now,
                        *final(model),
                        effects@.drop_first(),
                    )
            },
            Msg::ServerMessage { output, stored_auth } => match output {
                Output::Authenticated(id) => {
                    &&& final(model).page == old(model).page
                    &&& final(model).connected == old(model).connected
                    &&& final(model).data matches Data::Authed(am) && signed_in(am, id@, stored_auth)
                    &&& effects@.len() == 2
                    &&& effects@[0] matches Effect::StoreSession(s) && s@ == id@
                    &&& effects@[1] matches Effect::Do(Command::Send(Input::JoinRoom(u))) && u.id@ == id@
                        && u.queue@.len() == 0 && u.last_disconnect is None
                },
                _ => routed_to_authed(*old(model), AuthenticatedMsg::ServerMessage(output), now, *final(model), effects@),
            },
            Msg::Authenticated(sub) => routed_to_authed(*old(model), sub, now, *final(model), effects@),
            _ => match old(model).data {
                Data::Authed(_) => *final(model) == *old(model) && effects@.len() == 0,
                Data::UnAuthed(um) => match msg {
                    Msg::Authenticate => *final(model) == *old(model) && effects@.len() == 1
                        && (effects@[0] matches Effect::Do(Command::Send(Input::Authenticate(s))) && s@ == um.user_id@),
                    Msg::UsernameChange(id) => *final(model) == (Model {
                        data: Data::UnAuthed(UnauthedModel { user_id: id }),
                        ..*old(model)
                    }) && effects@.len() == 0,
                    _ => *final(model) == *old(model) && effects@.len() == 0,
                },
            },
        },
{
    match msg {
        Msg::WebSocketConnected => {
            model.connected = true;
            let mut effects: Vec<Effect> = Vec::new();
            effects.push(Effect::StartHeartbeat);
            let mut rest = route_to_authed(model, AuthenticatedMsg::WebSocketConnected, now);
            let ghost r = rest@;
            effects.append(&mut rest);
            assert(effects@.drop_first() =~= r);
            effects
        },
        Msg::Closed => {
            model.connected = false;
            Vec::new()
        },
        Msg::ChangePage(page) => {
            model.page = page;
            let mut effects: Vec<Effect> = Vec::new();
            effects.push(Effect::PushRoute(page));
            effects
        },
        Msg::LoggingInToSpotify => {
            let mut effects: Vec<Effect> = Vec::new();
            effects.push(Effect::GoToSpotifyLogin);
            effects
        },
        Msg::LoggedInSpotify { access_token, expires_in } => {
            let auth = SpotifyAuth { access_token: access_token, expires_epoch: now + expires_in * 1000 };
            let mut effects: Vec<Effect> = Vec::new();
            effects.push(Effect::StoreSpotifyAuth(copy_auth(&auth)));
            let ghost a = auth;
            let mut rest = route_to_authed(model, AuthenticatedMsg::LoggedInSpotify(auth), now);
            let ghost r = rest@;
            effects.append(&mut rest);
            assert(effects@.drop_first() =~= r);
            assert(same_auth(a, login_of(access_token, expires_in, now)));
            effects
        },
        Msg::ServerMessage { output, stored_auth } => {
            match output {
                Output::Authenticated(user_id) => {
                    let auth = match stored_auth {
                        Some(a) => if !a.access_token.as_str().is_empty() {
                            Some(a)
                        } else {
                            None
                        },
                        None => None,
                    };
                    let mut am = AuthedModel::new(Session { user_id: user_id.clone() });
                    am.auth = auth;
                    model.data = Data::Authed(am);
                    let mut effects: Vec<Effect> = Vec::new();
                    effects.push(Effect::StoreSession(user_id.clone()));
                    effects.push(
                        Effect::Do(Command::Send(Input::JoinRoom(User { id: user_id, queue: Vec::new(), last_disconnect: None }))),
                    );
                    effects
                },
                _ => route_to_authed(model, AuthenticatedMsg::ServerMessage(output), now),
            }
        },
        Msg::Authenticated(sub) => route_to_authed(model, sub, now),
        _ => {
            let data = take_data(model);
            let mut effects: Vec<Effect> = Vec::new();
            match data {
                Data::Authed(am) => {
                    model.data = Data::Authed(am);
                },
                Data::UnAuthed(mut um) => {
                    match msg {
                        Msg::Authenticate => {
                            effects.push(Effect::Do(Command::Send(Input::Authenticate(um.user_id.clone()))));
                        },
                        Msg::UsernameChange(user_id) => {
                            um.user_id = user_id;
                        },
                        _ => {},
                    }
                    model.data = Data::UnAuthed(um);
                },
            }
            effects
        },
    }
}


/// The client when it starts: signed in when a session is stored, with the
/// stored Spotify login when its token is not empty (unless the page comes
/// back from the Spotify login), on the home page, not connected yet.
pub fn initial_model(session: Option<Session>, stored_auth: Option<SpotifyAuth>, logging_in: bool) -> (model: Model)
    ensures
        model.page == Page::Home,
        !model.connected,
        match session {
            Some(s) => model.data matches Data::Authed(m) && m.session == s && m.search@.len() == 0
                && m.room is None && m.search_result is None && m.auth == (match stored_auth {
                Some(a) => if !logging_in && a.access_token@.len() > 0 {
                    Some(a)
                } else {
                    None
                },
                None => None,
            }),
            None => model.data matches Data::UnAuthed(u) && u.user_id@.len() == 0,
        },
{
    let data = match session {
        Some(session) => {
            let mut m = AuthedModel::new(session);
            if !logging_in {
                match stored_auth {
                    Some(a) => {
                        if !a.access_token.as_str().is_empty() {
                            m.auth = Some(a);
                        }
                    },
                    None => {},
                }
            }
            Data::Authed(m)
        },
        None => Data::UnAuthed(UnauthedModel::default()),
    };
    Model { data: data, page: Page::Home, connected: false }
}

/// Where a URL leads the client.
#[derive(Debug, PartialEq, Clone)]
pub enum Route {
    /// Back from the Spotify login.
    LoggedInSpotify,
    /// To a page.
    ChangePage(Page),
}

/// Where a URL leads: back from the Spotify login when its hash holds an
/// access token, else to the page of its hash, if any.
pub fn routes(url: Url) -> (route: Option<Route>)
    ensures
        route == (if url.hash is Some && contains_text(url.hash->0@, "access_token"@) {
            Some(Route::LoggedInSpotify)
        } else {
            match page_of_path(split_on_slash(hash_text(url))) {
                Some(p) => Some(Route::ChangePage(p)),
                None => None,
            }
        }),
{
    if is_logging_in(&url) {
        Some(Route::LoggedInSpotify)
    } else {
        match Page::from_url(url) {
            Some(p) => Some(Route::ChangePage(p)),
            None => None,
        }
    }
}


/// The server's answer to a heartbeat.
pub fn is_pong(text: &str) -> (pong: bool)
    ensures
        pong == (text@ == "pong"@),
{
    String::from_str(text) == String::from_str("pong")
}

/// `q` holds copies of the tracks of the queue of the first entry of the
/// user `id` among the DJs and then the listeners of `r`.
pub open spec fn shows_queue_of(r: Room, id: Seq<char>, q: Seq<Track>) -> bool {
    exists|i: int|
        is_first_user(djs_then_users(r), id, i) && q.len() == (#[trigger] djs_then_users(
            r,
        )[i]).queue@.len() && forall|k: int|
            0 <= k < q.len() ==> same_track(#[trigger] q[k], djs_then_users(r)[i].queue@[k])
}

/// No DJ and no listener of `r` has the id `id`.
pub open spec fn not_in_room(r: Room, id: Seq<char>) -> bool {
    forall|j: int| 0 <= j < djs_then_users(r).len() ==> djs_then_users(r)[j].id@ != id
}

/// The queue of the user `user_id` in the room the client shows, as the
/// user's playlist: copies of the tracks of its first entry among the DJs
/// and then the listeners; `None` without a room or without such a user.
pub fn playlist(user_id: &str, room: &Option<Room>) -> (tracks: Option<Vec<Track>>)
    ensures
        match room {
            None => tracks is None,
            Some(r) => match tracks {
                Some(q) => shows_queue_of(*r, user_id@, q@),
                None => not_in_room(*r, user_id@),
            },
        },
{
    match room {
        None => None,
        Some(r) => match current_user(user_id, r) {
            Some(u) => Some(u.queue),
            None => None,
        },
    }
}

/// A track found by a search, as the client lists it: its id and name, the
/// names of its artists joined with ", ", and the last image of its album,
/// if it has any.
#[derive(Debug, PartialEq, Clone)]
pub struct SearchItem {
    pub id: String,
    pub name: String,
    pub artists: String,
    pub image: Option<SpotifyImage>,
}

/// What the playlist panel of a signed-in client shows.
#[derive(Debug, PartialEq, Clone)]
pub enum Panel {
    /// The button to log in to Spotify.
    LoginButton,
    /// Nothing: the client has no room, or the user is not in it.
    Hidden,
    /// The tracks found by the last search, to be added to the queue.
    SearchResults(Vec<SearchItem>),
    /// The user's own queue.
    Playlist(Vec<Track>),
}

/// The images hold the same size and address.
pub open spec fn same_image(a: SpotifyImage, b: SpotifyImage) -> bool {
    a.url@ == b.url@ && a.width == b.width && a.height == b.height
}

/// `item` lists the Spotify track `t` (see `SearchItem`).
pub open spec fn lists_track(t: SpotifyTrack, item: SearchItem) -> bool {
    &&& item.id@ == t.id@
    &&& item.name@ == t.name@
    &&& item.artists@ == joined_names(t.artists@)
    &&& if t.album.images@.len() > 0 {
        item.image matches Some(im) && same_image(im, t.album.images@.last())
    } else {
        item.image is None
    }
}

/// The items of a search, one per track found, in order.
pub open spec fn lists_result(r: SpotifySearchResult, items: Seq<SearchItem>) -> bool {
    &&& items.len() == r.tracks.items@.len()
    &&& forall|k: int| 0 <= k < items.len() ==> lists_track(r.tracks.items@[k], #[trigger] items[k])
}

/// The item that lists a Spotify track.
fn search_item(t: &SpotifyTrack) -> (item: SearchItem)
    ensures
        lists_track(*t, item),
{
    let n = t.album.images.len();
    let image = if n > 0 {
        let im = &t.album.images[n - 1];
        Some(SpotifyImage { height: im.height, width: im.width, url: im.url.clone() })
    } else {
        None
    };
    SearchItem { id: t.id.clone(), name: t.name.clone(), artists: artist_names(&t.artists), image: image }
}

/// The items of a search (see `lists_result`).
fn search_items(r: &SpotifySearchResult) -> (items: Vec<SearchItem>)
    ensures
        lists_result(*r, items@),
{
    let mut items: Vec<SearchItem> = Vec::new();
    let n = r.tracks.items.len();
    let mut i: usize = 0;
    while i < n
        invariant
            i <= n,
            n == r.tracks.items@.len(),
            items@.len() == i,
            forall|k: int| 0 <= k < i ==> lists_track(r.tracks.items@[k], #[trigger] items@[k]),
        decreases n - i,
    {
        items.push(search_item(&r.tracks.items[i]));
        i = i + 1;
    }
    items
}

/// What the playlist panel shows to the signed-in client `model`: the
/// Spotify login button without a Spotify login; nothing without a room or
/// when the user is not in it; else the results of the last search, when
/// there are any, and the user's queue otherwise.
pub fn panel(model: &AuthedModel) -> (p: Panel)
    ensures
        match model.auth {
            None => p is LoginButton,
            Some(_) => match model.room {
                None => p is Hidden,
                Some(r) => if not_in_room(r, model.session.user_id@) {
                    p is Hidden
                } else {
                    match model.search_result {
                        Some(res) => p matches Panel::SearchResults(items) && lists_result(res, items@),
                        None => p matches Panel::Playlist(q) && shows_queue_of(r, model.session.user_id@, q@),
                    }
                },
            },
        },
{
    if model.auth.is_none() {
        return Panel::LoginButton;
    }
    let queue = match playlist(model.session.user_id.as_str(), &model.room) {
        Some(q) => q,
        None => return Panel::Hidden,
    };
    proof {
        if model.room is Some {
            let r = model.room->0;
            if not_in_room(r, model.session.user_id@) {
                let i = choose|i: int| is_first_user(djs_then_users(r), model.session.user_id@, i)
                    && queue@.len() == (#[trigger] djs_then_users(r)[i]).queue@.len()
                    && forall|k: int| 0 <= k < queue@.len() ==> same_track(#[trigger] queue@[k], djs_then_users(r)[i].queue@[k]);
                assert(djs_then_users(r)[i].id@ == model.session.user_id@);
            }
        }
    }
    match &model.search_result {
        Some(res) => Panel::SearchResults(search_items(res)),
        None => Panel::Playlist(queue),
    }
}

/// A DJ as the client lists it: its id, whether it has the turn (its id is
/// that of the DJ on turn), and whether the signed-in user voted the playing
/// track down (shown on the DJ with the turn only).
#[derive(Debug, PartialEq, Clone)]
pub struct DjItem {
    pub id: String,
    pub on_turn: bool,
    pub downvoted: bool,
}

/// The list of DJs the client shows: the DJs in turn order, the name of the
/// playing track (or "Nothing!"), and whether to offer to become a DJ.
#[derive(Debug, PartialEq, Clone)]
pub struct DjList {
    pub items: Vec<DjItem>,
    pub playing: String,
    pub become_dj: bool,
}

/// The DJs of the room the client shows, none without a room.
pub open spec fn shown_djs(room: Option<Room>) -> Seq<User> {
    match room {
        Some(r) => r.djs@,
        None => Seq::empty(),
    }
}

/// The user `me` voted the playing track of the room down.
pub open spec fn voted_down(room: Option<Room>, me: Seq<char>) -> bool {
    room matches Some(r) && r.playing matches Some(p) && texts(p.downvotes@).contains(me)
}

/// The list of DJs of the room the client shows, for the signed-in user
/// `me` (see `DjItem` and `DjList`). Becoming a DJ is offered when there are
/// no DJs or some DJ is another user.
pub fn dj_list(room: &Option<Room>, me: &String) -> (list: DjList)
    ensures
        list.items@.len() == shown_djs(*room).len(),
        forall|i: int|
            0 <= i < list.items@.len() ==> {
                let item = #[trigger] list.items@[i];
                &&& item.id@ == shown_djs(*room)[i].id@
                &&& item.on_turn == (shown_djs(*room)[i].id@ == shown_djs(*room)[0].id@)
                &&& item.downvoted == (item.on_turn && voted_down(*room, me@))
            },
        list.playing@ == (match room {
            Some(r) => match r.playing {
                Some(p) => p.name@,
                None => "Nothing!"@,
            },
            None => "Nothing!"@,
        }),
        list.become_dj == (shown_djs(*room).len() == 0 || exists|i: int|
            0 <= i < shown_djs(*room).len() && #[trigger] shown_djs(*room)[i].id@ != me@),
{
    let ghost djs = shown_djs(*room);
    let voted = match room {
        Some(r) => match &r.playing {
            Some(p) => is_listed(&p.downvotes, me),
            None => false,
        },
        None => false,
    };
    let playing = match room {
        Some(r) => match &r.playing {
            Some(p) => p.name.clone(),
            None => String::from_str("Nothing!"),
        },
        None => String::from_str("Nothing!"),
    };
    let mut items: Vec<DjItem> = Vec::new();
    let mut other = false;
    match room {
        Some(r) => {
            let n = r.djs.len();
            let mut i: usize = 0;
            while i < n
                invariant
                    i <= n,
                    n == djs.len(),
                    djs == r.djs@,
                    voted == voted_down(*room, me@),
                    items@.len() == i,
                    forall|k: int|
                        0 <= k < i ==> {
                            let item = #[trigger] items@[k];
                            &&& item.id@ == djs[k].id@
                            &&& item.on_turn == (djs[k].id@ == djs[0].id@)
                            &&& item.downvoted == (item.on_turn && voted)
                        },
                    other == exists|k: int| 0 <= k < i && #[trigger] djs[k].id@ != me@,
                decreases n - i,
            {
                let on_turn = r.djs[i].id == r.djs[0].id;
                if !(r.djs[i].id == *me) {
                    other = true;
                }
                items.push(DjItem { id: r.djs[i].id.clone(), on_turn: on_turn, downvoted: on_turn && voted });
                proof {
                    if !other {
                        assert forall|k: int| 0 <= k < i + 1 implies !(djs[k].id@ != me@) by {
                            if k == i {
                            } else {
                                assert(!(exists|k: int| 0 <= k < i && #[trigger] djs[k].id@ != me@));
                            }
                        }
                    } else if r.djs@[i as int].id@ != me@ {
                        assert(djs[i as int].id@ != me@);
                    }
                }
                i = i + 1;
            }
        },
        None => {},
    }
    let count: usize = match room {
        Some(r) => r.djs.len(),
        None => 0,
    };
    DjList { items: items, playing: playing, become_dj: count == 0 || other }
}

} // verus!
