use spotijay::pages::Page;
use spotijay::shared::{Input, Output, Playing, Room, Track, TrackArt, User};
use spotijay::spotify::{SpotifyAlbum, SpotifyArtist, SpotifySearchResult, SpotifyTrack, SpotifyTrackList};
use spotijay::pages::Url;
use spotijay::web::{
    authed_update, initial_model, routes, track_removal_sent, update, AuthedModel,
    AuthenticatedMsg, Command, Data, Effect, Model, Msg, Route, Session, SpotifyAuth,
    UnauthedModel,
};
use std::collections::VecDeque;

fn auth() -> SpotifyAuth {
    SpotifyAuth { access_token: "token".into(), expires_epoch: 99 }
}

fn model(with_auth: bool) -> AuthedModel {
    let mut m = AuthedModel::new(Session { user_id: "me".into() });
    if with_auth {
        m.auth = Some(auth());
    }
    m
}

fn track(id: &str) -> Track {
    Track {
        id: id.into(),
        name: id.into(),
        artist: "".into(),
        uri: format!("spotify:track:{}", id),
        duration_ms: 10,
        artwork: TrackArt::default(),
    }
}

fn room_playing(started: u64) -> Room {
    let mut p = Playing::new(track("p"), started);
    p.downvotes = vec![];
    Room {
        id: "r".into(),
        users: vec![],
        djs: VecDeque::from(vec![User { id: "dj".into(), queue: vec![], last_disconnect: None }]),
        playing: Some(p),
        next_up: None,
    }
}

fn search_result() -> SpotifySearchResult {
    let t = |id: &str| SpotifyTrack {
        id: id.into(),
        name: format!("song {}", id),
        uri: format!("spotify:track:{}", id),
        duration_ms: 100,
        artists: vec![SpotifyArtist { name: "Band".into() }],
        album: SpotifyAlbum { id: "a".into(), name: "A".into(), images: vec![] },
    };
    SpotifySearchResult { tracks: SpotifyTrackList { items: vec![t("x"), t("y")] } }
}

#[test]
fn requests_carry_the_user_id() {
    let mut m = model(false);
    let mut page = Page::Home;
    assert_eq!(
        authed_update(AuthenticatedMsg::Downvote, &mut m, &mut page, 0),
        Some(Command::Send(Input::Downvote("me".into())))
    );
    assert_eq!(
        authed_update(AuthenticatedMsg::WebSocketConnected, &mut m, &mut page, 0),
        Some(Command::Send(Input::Authenticate("me".into())))
    );
    assert_eq!(
        authed_update(AuthenticatedMsg::BecomeDj, &mut m, &mut page, 0),
        Some(Command::Send(Input::BecomeDj("me".into())))
    );
    assert_eq!(
        authed_update(AuthenticatedMsg::RemoveTrack("t".into()), &mut m, &mut page, 0),
        Some(Command::Send(Input::RemoveTrack("me".into(), "t".into())))
    );
    assert_eq!(m, model(false));
}

#[test]
fn spotify_login_and_logout() {
    let mut m = model(false);
    let mut page = Page::Home;
    assert_eq!(authed_update(AuthenticatedMsg::LoggedInSpotify(auth()), &mut m, &mut page, 0), Some(Command::GoHome));
    assert_eq!(m.auth, Some(auth()));
    assert_eq!(authed_update(AuthenticatedMsg::SpotifyLogout, &mut m, &mut page, 0), Some(Command::ForgetSpotifyAuth));
    assert_eq!(m.auth, None);
}

#[test]
fn adding_a_found_track_sends_it_and_clears_the_search() {
    let mut m = model(true);
    m.search = "song".into();
    m.search_result = Some(search_result());
    let mut page = Page::Home;
    let cmd = authed_update(AuthenticatedMsg::AddTrack("y".into()), &mut m, &mut page, 0);
    let expected = Track {
        id: "y".into(),
        name: "song y".into(),
        artist: "Band".into(),
        uri: "spotify:track:y".into(),
        duration_ms: 100,
        artwork: TrackArt::default(),
    };
    assert_eq!(cmd, Some(Command::Send(Input::AddTrack("me".into(), expected))));
    assert_eq!(m.search, "");
    assert_eq!(m.search_result, None);
}

#[test]
fn searching() {
    let mut m = model(true);
    let mut page = Page::Home;
    assert_eq!(
        authed_update(AuthenticatedMsg::SearchChange("abc".into()), &mut m, &mut page, 0),
        Some(Command::Search { auth: auth(), query: "abc".into() })
    );
    assert_eq!(m.search, "abc");
    assert_eq!(authed_update(AuthenticatedMsg::SearchFetched(search_result()), &mut m, &mut page, 0), None);
    assert_eq!(m.search_result, Some(search_result()));
    assert_eq!(authed_update(AuthenticatedMsg::SearchChange("".into()), &mut m, &mut page, 0), None);
    assert_eq!(m.search_result, None);
    let mut no_auth = model(false);
    assert_eq!(authed_update(AuthenticatedMsg::SearchChange("abc".into()), &mut no_auth, &mut page, 0), None);
    m.search_result = Some(search_result());
    track_removal_sent(&mut m);
    assert_eq!(m.search_result, None);
}

#[test]
fn the_first_room_state_plays_along() {
    let mut m = model(true);
    let mut page = Page::Home;
    let cmd = authed_update(AuthenticatedMsg::ServerMessage(Output::RoomState(room_playing(1_000))), &mut m, &mut page, 4_000);
    assert_eq!(cmd, Some(Command::Play { auth: auth(), uri: "spotify:track:p".into(), position_ms: 3_000 }));
    assert_eq!(m.room, Some(room_playing(1_000)));
    // Later room states do not restart the track.
    let cmd = authed_update(AuthenticatedMsg::ServerMessage(Output::RoomState(room_playing(1_000))), &mut m, &mut page, 5_000);
    assert_eq!(cmd, None);
}

#[test]
fn played_and_queued_tracks_go_to_spotify() {
    let mut m = model(true);
    m.room = Some(room_playing(0));
    let mut page = Page::Home;
    let p = Playing::new(track("n"), 10);
    assert_eq!(
        authed_update(AuthenticatedMsg::ServerMessage(Output::TrackPlayed(Some(p.clone()))), &mut m, &mut page, 15),
        Some(Command::Play { auth: auth(), uri: "spotify:track:n".into(), position_ms: 5 })
    );
    assert_eq!(m.room.as_ref().unwrap().playing, Some(p));
    assert_eq!(
        authed_update(AuthenticatedMsg::ServerMessage(Output::TrackPlayed(None)), &mut m, &mut page, 15),
        Some(Command::Next { auth: auth() })
    );
    // Nothing plays and the DJ has no track: the DJs are pruned.
    assert!(m.room.as_ref().unwrap().djs.is_empty());
    assert_eq!(
        authed_update(AuthenticatedMsg::ServerMessage(Output::NextTrackQueued(track("q"))), &mut m, &mut page, 15),
        Some(Command::Queue { auth: auth(), uri: "spotify:track:q".into() })
    );
    let mut no_auth = model(false);
    assert_eq!(
        authed_update(AuthenticatedMsg::ServerMessage(Output::NextTrackQueued(track("q"))), &mut no_auth, &mut page, 15),
        None
    );
}

#[test]
fn downvotes_are_shown() {
    let mut m = model(true);
    m.room = Some(room_playing(0));
    let mut page = Page::Home;
    assert_eq!(authed_update(AuthenticatedMsg::ServerMessage(Output::Downvoted("x".into())), &mut m, &mut page, 1), None);
    assert_eq!(m.room.as_ref().unwrap().playing.as_ref().unwrap().downvotes, vec!["x".to_string()]);
}

#[test]
fn signing_in_joins_the_room() {
    let mut m = Model { data: Data::UnAuthed(UnauthedModel::default()), page: Page::Home, connected: false };
    assert_eq!(update(Msg::UsernameChange("me".into()), &mut m, 0), vec![]);
    assert_eq!(
        update(Msg::Authenticate, &mut m, 0),
        vec![Effect::Do(Command::Send(Input::Authenticate("me".into())))]
    );
    let effects = update(
        Msg::ServerMessage { output: Output::Authenticated("me".into()), stored_auth: Some(auth()) },
        &mut m,
        0,
    );
    assert_eq!(
        effects,
        vec![
            Effect::StoreSession("me".into()),
            Effect::Do(Command::Send(Input::JoinRoom(User { id: "me".into(), queue: vec![], last_disconnect: None }))),
        ]
    );
    match &m.data {
        Data::Authed(am) => {
            assert_eq!(am.session.user_id, "me");
            assert_eq!(am.auth, Some(auth()));
        }
        Data::UnAuthed(_) => panic!("should be signed in"),
    }
}

#[test]
fn an_empty_stored_token_is_no_login() {
    let mut m = Model { data: Data::UnAuthed(UnauthedModel::default()), page: Page::Home, connected: true };
    let empty = SpotifyAuth { access_token: "".into(), expires_epoch: 5 };
    update(Msg::ServerMessage { output: Output::Authenticated("me".into()), stored_auth: Some(empty) }, &mut m, 0);
    match &m.data {
        Data::Authed(am) => assert_eq!(am.auth, None),
        Data::UnAuthed(_) => panic!("should be signed in"),
    }
}

#[test]
fn connecting_and_logging_in() {
    let mut m = Model { data: Data::Authed(model(false)), page: Page::Home, connected: false };
    assert_eq!(
        update(Msg::WebSocketConnected, &mut m, 0),
        vec![Effect::StartHeartbeat, Effect::Do(Command::Send(Input::Authenticate("me".into())))]
    );
    assert!(m.connected);
    let effects = update(Msg::LoggedInSpotify { access_token: "t".into(), expires_in: 3600 }, &mut m, 1_000);
    let login = SpotifyAuth { access_token: "t".into(), expires_epoch: 3_601_000 };
    assert_eq!(effects, vec![Effect::StoreSpotifyAuth(login.clone()), Effect::Do(Command::GoHome)]);
    match &m.data {
        Data::Authed(am) => assert_eq!(am.auth, Some(login)),
        Data::UnAuthed(_) => panic!("should be signed in"),
    }
    assert_eq!(update(Msg::Closed, &mut m, 0), vec![]);
    assert!(!m.connected);
    assert_eq!(update(Msg::LoggingInToSpotify, &mut m, 0), vec![Effect::GoToSpotifyLogin]);
    assert_eq!(update(Msg::ChangePage(Page::Home), &mut m, 0), vec![Effect::PushRoute(Page::Home)]);
    // Messages for a client that is not signed in do nothing here.
    let before = m.clone();
    assert_eq!(update(Msg::Authenticate, &mut m, 0), vec![]);
    assert_eq!(m, before);
}

#[test]
fn unauthed_clients_ignore_room_messages() {
    let mut m = Model { data: Data::UnAuthed(UnauthedModel::default()), page: Page::Home, connected: true };
    let before = m.clone();
    assert_eq!(update(Msg::ServerMessage { output: Output::Downvoted("x".into()), stored_auth: None }, &mut m, 0), vec![]);
    assert_eq!(update(Msg::Authenticated(AuthenticatedMsg::Downvote), &mut m, 0), vec![]);
    assert_eq!(m, before);
}

#[test]
fn the_client_starts_from_what_is_stored() {
    let m = initial_model(None, Some(auth()), false);
    assert_eq!(m, Model { data: Data::UnAuthed(UnauthedModel::default()), page: Page::Home, connected: false });
    let m = initial_model(Some(Session { user_id: "me".into() }), Some(auth()), false);
    assert_eq!(m.data, Data::Authed(model(true)));
    let m = initial_model(Some(Session { user_id: "me".into() }), Some(auth()), true);
    assert_eq!(m.data, Data::Authed(model(false)));
    let empty = SpotifyAuth { access_token: "".into(), expires_epoch: 1 };
    let m = initial_model(Some(Session { user_id: "me".into() }), Some(empty), false);
    assert_eq!(m.data, Data::Authed(model(false)));
}

#[test]
fn urls_are_routed() {
    assert_eq!(routes(Url { hash: Some("access_token=x".into()) }), Some(Route::LoggedInSpotify));
    assert_eq!(routes(Url { hash: None }), Some(Route::ChangePage(Page::Home)));
    assert_eq!(routes(Url { hash: Some("elsewhere".into()) }), None);
}
