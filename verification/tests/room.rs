use spotijay::room::{
    add_track, become_dj, downvote, handle_input, is_last_connection, join_room, mark_all_disconnected,
    mark_user_disconnected, next_djs, peer_is_alive, play, play_from_next_up,
    prune_djs_without_queue, remove_track, remove_user_from_room, set_next_up_from_queue,
    start_playing_if_theres_a_dj, still_playing, timed_out_users, DownvoteOutcome, Reaction,
    Room, Zipper,
};
use spotijay::shared::{count_voters, Input, Playing, Track, TrackArt, User};

fn track(id: &str, name: &str, duration_ms: u32) -> Track {
    Track {
        id: id.into(),
        name: name.into(),
        artist: "".into(),
        uri: format!("spotify:track:{}", id),
        duration_ms,
        artwork: TrackArt::default(),
    }
}

fn user(id: &str, queue: Vec<Track>) -> User {
    User { id: id.into(), queue, last_disconnect: None }
}

fn empty_room() -> Room {
    Room { id: "test_room".into(), users: Vec::new(), djs: None, playing: None, next_up: None }
}

fn dj_ids(room: &Room) -> Option<(Vec<String>, String, Vec<String>)> {
    room.djs.as_ref().map(|z| {
        (
            z.before.iter().map(|u| u.id.clone()).collect(),
            z.current.id.clone(),
            z.after.iter().map(|u| u.id.clone()).collect(),
        )
    })
}

fn user_ids(room: &Room) -> Vec<String> {
    room.users.iter().map(|u| u.id.clone()).collect()
}

fn s(v: &[&str]) -> Vec<String> {
    v.iter().map(|x| x.to_string()).collect()
}

#[test]
fn server_test_start_playing_if_theres_a_dj() {
    let track = Track {
        id: "sa67saf64s".into(),
        name: "Cool jazz stuff".into(),
        artist: "".into(),
        uri: "spotify:track:sa67saf64s".into(),
        duration_ms: 16345340,
        artwork: TrackArt::default(),
    };

    let dj = User { id: "test_dj".into(), queue: vec![track.clone()], last_disconnect: None };

    let mut room = Room {
        id: "test_room".into(),
        users: Vec::new(),
        djs: Some(Zipper::singleton(dj)),
        playing: None,
        next_up: None,
    };

    start_playing_if_theres_a_dj(&mut room, 5678);

    assert_eq!(room.playing, Some(Playing::new(track, 5678)));
}

#[test]
fn main_test_start_playing_if_theres_a_dj() {
    let track = Track {
        id: "sa67saf64s".into(),
        name: "Cool jazz stuff".into(),
        artist: "".into(),
        uri: "spotify:track:sa67saf64s".into(),
        duration_ms: 16345340,
        artwork: TrackArt::default(),
    };

    let dj = User { id: "test_dj".into(), queue: vec![track.clone()], last_disconnect: Some(1234) };

    let mut room = Room {
        id: "test_room".into(),
        users: Vec::new(),
        djs: Some(Zipper::singleton(dj)),
        playing: None,
        next_up: None,
    };

    start_playing_if_theres_a_dj(&mut room, 5678);

    assert_eq!(room.playing, Some(Playing::new(track, 5678)));
}

#[test]
fn test_downvote() {
    let playing = Playing {
        id: "currenttrack".into(),
        name: "Cool jazz stuff".into(),
        artist: "".into(),
        uri: "spotify:track:currenttrack".into(),
        duration_ms: 16345340,
        started: 12345,
        downvotes: Vec::new(),
    };

    let next_track = Track {
        id: "nexttrack".into(),
        name: "Rockin stuff".into(),
        artist: "".into(),
        uri: "spotify:track:nexttrack".into(),
        duration_ms: 7364629,
        artwork: TrackArt::default(),
    };

    let other_user = User { id: "other_user".into(), queue: vec![], last_disconnect: Some(1234) };

    let current_dj = User { id: "current_dj".into(), queue: vec![], last_disconnect: Some(1234) };

    let next_dj = User { id: "next_dj".into(), queue: vec![next_track], last_disconnect: Some(1234) };

    let mut room = Room {
        id: "test_room".into(),
        users: vec![other_user.clone()],
        djs: Some(Zipper { before: vec![], current: current_dj.clone(), after: vec![next_dj.clone()] }),
        playing: Some(playing.clone()),
        next_up: None,
    };

    downvote("test_dj".into(), &mut room, 734);
    downvote("other_dj".into(), &mut room, 734);

    let expected_playing = Playing {
        id: "nexttrack".into(),
        name: "Rockin stuff".into(),
        artist: "".into(),
        uri: "spotify:track:nexttrack".into(),
        duration_ms: 7364629,
        started: 734,
        downvotes: Vec::new(),
    };

    let expected_room = Room {
        id: "test_room".into(),
        users: vec![other_user, current_dj],
        djs: Some(Zipper {
            before: vec![],
            current: User { queue: vec![], ..next_dj },
            after: vec![],
        }),
        playing: Some(expected_playing.clone()),
        next_up: None,
    };

    assert_eq!(room, expected_room);
}

#[test]
fn downvote_outcome_tells_what_changed() {
    let mut room = empty_room();
    room.users = vec![user("a", vec![]), user("b", vec![]), user("c", vec![])];
    room.djs = Some(Zipper::singleton(user("dj", vec![])));
    room.playing = Some(Playing::new(track("t", "T", 1000), 1));
    // 4 in the room: two votes skip the track.
    assert_eq!(downvote("a".into(), &mut room, 5), DownvoteOutcome { song_changed: false, started: false });
    assert_eq!(downvote("a".into(), &mut room, 5), DownvoteOutcome { song_changed: false, started: false });
    assert_eq!(room.playing.as_ref().unwrap().downvotes, s(&["a"]));
    assert_eq!(downvote("b".into(), &mut room, 5), DownvoteOutcome { song_changed: true, started: false });
    assert_eq!(room.playing, None);
    // The DJ without tracks went back to the listeners.
    assert_eq!(room.djs, None);
    assert_eq!(user_ids(&room), s(&["a", "b", "c", "dj"]));
}

#[test]
fn downvote_without_a_track_changes_nothing() {
    let mut room = empty_room();
    room.users = vec![user("a", vec![])];
    let before = room.clone();
    assert_eq!(downvote("a".into(), &mut room, 5), DownvoteOutcome { song_changed: false, started: false });
    assert_eq!(room, before);
}

#[test]
fn zipper_next_djs_moves_the_focus() {
    let mut z = Zipper { before: vec![user("a", vec![])], current: user("b", vec![]), after: vec![user("c", vec![])] };
    next_djs(&mut z);
    assert_eq!(z.current.id, "c");
    assert_eq!(z.before.iter().map(|u| u.id.clone()).collect::<Vec<_>>(), s(&["a", "b"]));
    assert!(z.after.is_empty());
    next_djs(&mut z);
    assert_eq!(z.current.id, "a");
    assert!(z.before.is_empty());
    assert_eq!(z.after.iter().map(|u| u.id.clone()).collect::<Vec<_>>(), s(&["b", "c"]));
    let mut single = Zipper::singleton(user("x", vec![]));
    next_djs(&mut single);
    assert_eq!(single.current.id, "x");
}

#[test]
fn prune_sends_idle_djs_back_to_the_listeners() {
    let mut room = empty_room();
    room.users = vec![user("l", vec![])];
    room.djs = Some(Zipper {
        before: vec![user("b1", vec![]), user("b2", vec![track("1", "one", 1)])],
        current: user("c", vec![track("2", "two", 1)]),
        after: vec![user("a1", vec![]), user("a2", vec![track("3", "three", 1)])],
    });
    prune_djs_without_queue(&mut room);
    assert_eq!(user_ids(&room), s(&["l", "b1", "a1"]));
    assert_eq!(dj_ids(&room), Some((s(&["b2"]), "c".to_string(), s(&["a2"]))));
}

#[test]
fn prune_hands_the_turn_on_from_an_idle_dj() {
    let mut room = empty_room();
    room.djs = Some(Zipper {
        before: vec![],
        current: user("c", vec![]),
        after: vec![user("a", vec![track("1", "one", 1)])],
    });
    prune_djs_without_queue(&mut room);
    assert_eq!(user_ids(&room), s(&["c"]));
    assert_eq!(dj_ids(&room), Some((s(&[]), "a".to_string(), s(&[]))));
}

#[test]
fn prune_keeps_an_idle_dj_on_turn_with_no_dj_after_it() {
    // The idle DJ goes to the listeners and stays at the end of the turn.
    let mut room = empty_room();
    room.djs = Some(Zipper {
        before: vec![user("b", vec![track("1", "one", 1)])],
        current: user("c", vec![]),
        after: vec![],
    });
    prune_djs_without_queue(&mut room);
    assert_eq!(user_ids(&room), s(&["c"]));
    assert_eq!(dj_ids(&room), Some((s(&[]), "b".to_string(), s(&["c"]))));
}

#[test]
fn prune_drops_the_last_idle_dj() {
    let mut room = empty_room();
    room.djs = Some(Zipper::singleton(user("c", vec![])));
    prune_djs_without_queue(&mut room);
    assert_eq!(room.djs, None);
    assert_eq!(user_ids(&room), s(&["c"]));
}

#[test]
fn removed_users_leave_the_room() {
    let mut room = empty_room();
    room.users = vec![user("l1", vec![]), user("gone", vec![]), user("l2", vec![])];
    room.djs = Some(Zipper {
        before: vec![user("b", vec![])],
        current: user("c", vec![]),
        after: vec![user("gone2", vec![]), user("a", vec![])],
    });
    remove_user_from_room(&mut room, s(&["gone", "gone2", "c"]));
    assert_eq!(user_ids(&room), s(&["l1", "l2"]));
    assert_eq!(dj_ids(&room), Some((s(&["b"]), "a".to_string(), s(&[]))));
}

#[test]
fn removing_the_only_dj_leaves_no_djs() {
    let mut room = empty_room();
    room.djs = Some(Zipper::singleton(user("c", vec![])));
    remove_user_from_room(&mut room, s(&["c"]));
    assert_eq!(room.djs, None);
    assert!(room.users.is_empty());
}

#[test]
fn removing_the_dj_on_turn_at_the_end_keeps_it_in_the_turn() {
    let mut room = empty_room();
    room.djs = Some(Zipper { before: vec![user("b", vec![])], current: user("c", vec![]), after: vec![] });
    remove_user_from_room(&mut room, s(&["c"]));
    assert_eq!(dj_ids(&room), Some((s(&[]), "b".to_string(), s(&["c"]))));
}

#[test]
fn joining_twice_is_joining_once() {
    let mut room = empty_room();
    let mut known = user("u", vec![]);
    known.last_disconnect = Some(99);
    room.users = vec![known];
    join_room(&mut room, user("u", vec![]));
    assert_eq!(room.users.len(), 1);
    assert_eq!(room.users[0].last_disconnect, None);
    join_room(&mut room, user("new", vec![]));
    let once = room.clone();
    join_room(&mut room, user("new", vec![]));
    assert_eq!(room, once);
    assert_eq!(user_ids(&room), s(&["u", "new"]));
}

#[test]
fn a_dj_joining_stays_a_dj() {
    let mut room = empty_room();
    let mut dj = user("dj", vec![]);
    dj.last_disconnect = Some(3);
    room.djs = Some(Zipper::singleton(dj));
    join_room(&mut room, user("dj", vec![]));
    assert!(room.users.is_empty());
    assert_eq!(room.djs.as_ref().unwrap().current.last_disconnect, None);
}

#[test]
fn becoming_a_dj_needs_tracks() {
    let mut room = empty_room();
    room.users = vec![user("u", vec![])];
    assert!(!become_dj(&mut room, &"u".to_string(), 10));
    assert_eq!(user_ids(&room), s(&["u"]));
    assert_eq!(room.djs, None);
}

#[test]
fn becoming_a_dj_starts_playing() {
    let mut room = empty_room();
    room.users = vec![user("u", vec![track("1", "one", 1000), track("2", "two", 1000)]), user("v", vec![])];
    assert!(become_dj(&mut room, &"u".to_string(), 10));
    assert_eq!(user_ids(&room), s(&["v"]));
    let z = room.djs.as_ref().unwrap();
    assert_eq!(z.current.id, "u");
    assert_eq!(z.current.queue.len(), 1);
    assert_eq!(room.playing, Some(Playing::new(track("1", "one", 1000), 10)));
    // A second DJ joins at the end of the turn and nothing else starts.
    room.users.push(user("w", vec![track("3", "three", 5)]));
    assert!(!become_dj(&mut room, &"w".to_string(), 11));
    assert_eq!(dj_ids(&room), Some((s(&[]), "u".to_string(), s(&["w"]))));
}

#[test]
fn tracks_are_added_to_listeners_and_djs() {
    let mut room = empty_room();
    room.users = vec![user("l", vec![])];
    room.djs = Some(Zipper { before: vec![user("b", vec![])], current: user("c", vec![]), after: vec![user("a", vec![])] });
    assert!(!add_track(&mut room, &"l".to_string(), track("1", "one", 1), 0));
    assert_eq!(room.users[0].queue.len(), 1);
    assert!(!add_track(&mut room, &"a".to_string(), track("2", "two", 1), 0));
    assert_eq!(room.djs.as_ref().unwrap().after[0].queue.len(), 1);
    assert!(!add_track(&mut room, &"b".to_string(), track("3", "three", 1), 0));
    assert_eq!(room.djs.as_ref().unwrap().before[0].queue.len(), 1);
    // The DJ on turn gets a track: it starts.
    assert!(add_track(&mut room, &"c".to_string(), track("4", "four", 1), 7));
    assert_eq!(room.playing, Some(Playing::new(track("4", "four", 1), 7)));
    assert!(room.djs.as_ref().unwrap().current.queue.is_empty());
    // Nobody with that id: nothing changes.
    let before = room.clone();
    assert!(!add_track(&mut room, &"nobody".to_string(), track("5", "five", 1), 7));
    assert_eq!(room, before);
}

#[test]
fn removing_a_track_prunes_and_starts() {
    let mut room = empty_room();
    room.djs = Some(Zipper {
        before: vec![],
        current: user("c", vec![track("1", "one", 1)]),
        after: vec![user("a", vec![track("2", "two", 1)])],
    });
    room.playing = None;
    // Removing the only track of the DJ on turn hands the turn to the next.
    assert!(remove_track(&mut room, &"c".to_string(), "1".to_string(), 20));
    assert_eq!(user_ids(&room), s(&["c"]));
    assert_eq!(room.playing, Some(Playing::new(track("2", "two", 1), 20)));
    assert_eq!(dj_ids(&room), Some((s(&[]), "a".to_string(), s(&[]))));
}

#[test]
fn removing_a_track_keeps_the_others() {
    let mut room = empty_room();
    room.users = vec![user("l", vec![track("1", "one", 1), track("2", "two", 1), track("1", "one", 1)])];
    remove_track(&mut room, &"l".to_string(), "1".to_string(), 0);
    assert_eq!(room.users[0].queue, vec![track("2", "two", 1)]);
}

#[test]
fn next_up_comes_from_the_next_dj() {
    let mut room = empty_room();
    room.djs = Some(Zipper {
        before: vec![],
        current: user("c", vec![]),
        after: vec![user("a", vec![track("2", "two", 1), track("3", "three", 1)])],
    });
    room.playing = Some(Playing::new(track("1", "one", 1), 0));
    set_next_up_from_queue(&mut room);
    assert_eq!(room.next_up, Some(track("2", "two", 1)));
    assert_eq!(dj_ids(&room), Some((s(&["c"]), "a".to_string(), s(&[]))));
    assert!(play_from_next_up(&mut room, 100));
    assert_eq!(room.playing, Some(Playing::new(track("2", "two", 1), 100)));
    assert_eq!(room.next_up, None);
    // The idle DJ "c" went back to the listeners.
    assert_eq!(user_ids(&room), s(&["c"]));
    // Nothing queued: nothing plays.
    assert!(!play_from_next_up(&mut room, 200));
    assert_eq!(room.playing, None);
}

#[test]
fn next_up_is_none_when_the_next_dj_has_no_track() {
    let mut room = empty_room();
    room.next_up = Some(track("old", "old", 1));
    room.djs = Some(Zipper { before: vec![], current: user("c", vec![track("1", "one", 1)]), after: vec![user("a", vec![])] });
    set_next_up_from_queue(&mut room);
    assert_eq!(room.next_up, None);
    assert_eq!(room.djs.as_ref().unwrap().current.id, "a");
}

#[test]
fn play_sets_the_playing_track() {
    let mut room = empty_room();
    play(&mut room, track("1", "one", 1), 3);
    assert_eq!(room.playing, Some(Playing::new(track("1", "one", 1), 3)));
    assert!(still_playing(&room, &"1".to_string()));
    assert!(!still_playing(&room, &"2".to_string()));
    assert!(!still_playing(&empty_room(), &"1".to_string()));
}

#[test]
fn disconnects_are_marked_and_timed_out() {
    let mut room = empty_room();
    room.users = vec![user("l", vec![]), user("m", vec![])];
    room.djs = Some(Zipper { before: vec![user("b", vec![])], current: user("c", vec![]), after: vec![user("l", vec![])] });
    mark_user_disconnected(&mut room, &"l".to_string(), 1_000);
    assert_eq!(room.users[0].last_disconnect, Some(1_000));
    assert_eq!(room.users[1].last_disconnect, None);
    assert_eq!(room.djs.as_ref().unwrap().after[0].last_disconnect, Some(1_000));
    assert_eq!(timed_out_users(&room, 60_999), Vec::<String>::new());
    assert_eq!(timed_out_users(&room, 61_000), s(&["l", "l"]));
    mark_all_disconnected(&mut room, 2_000);
    assert_eq!(timed_out_users(&room, 62_000), s(&["l", "m", "b", "c", "l"]));
    let ids = timed_out_users(&room, 62_000);
    remove_user_from_room(&mut room, ids);
    assert!(room.users.is_empty());
    assert_eq!(room.djs, None);
}

#[test]
fn peers_are_alive_for_five_seconds() {
    assert!(peer_is_alive(10_000, 5_001));
    assert!(!peer_is_alive(10_000, 5_000));
    assert!(peer_is_alive(0, 0));
}

#[test]
fn requests_are_handled() {
    let mut room = empty_room();
    assert_eq!(handle_input(&mut room, Input::Authenticate("u".into()), 0), Reaction::Authenticated("u".into()));
    assert_eq!(room, empty_room());
    assert_eq!(handle_input(&mut room, Input::JoinRoom(user("u", vec![])), 0), Reaction::RoomStateToSender);
    assert_eq!(user_ids(&room), s(&["u"]));
    assert_eq!(
        handle_input(&mut room, Input::AddTrack("u".into(), track("1", "one", 1)), 0),
        Reaction::RoomStateToAll { started: false }
    );
    assert_eq!(handle_input(&mut room, Input::BecomeDj("u".into()), 5), Reaction::RoomStateToAll { started: true });
    assert_eq!(room.playing, Some(Playing::new(track("1", "one", 1), 5)));
    assert_eq!(
        handle_input(&mut room, Input::RemoveTrack("u".into(), "nothing".into()), 6),
        Reaction::RoomStateToAll { started: false }
    );
    assert_eq!(
        handle_input(&mut room, Input::Downvote("u".into()), 7),
        Reaction::Downvoted { user_id: "u".into(), outcome: DownvoteOutcome { song_changed: true, started: false } }
    );
    assert_eq!(room.playing, None);
    assert_eq!(room.djs, None);
    assert_eq!(user_ids(&room), s(&["u"]));
}

#[test]
fn starting_twice_is_starting_once() {
    let mut room = empty_room();
    room.djs = Some(Zipper::singleton(user("dj", vec![track("1", "one", 1), track("2", "two", 1)])));
    assert!(start_playing_if_theres_a_dj(&mut room, 1));
    let once = room.clone();
    assert!(!start_playing_if_theres_a_dj(&mut room, 1));
    assert_eq!(room, once);
    assert_eq!(room.djs.as_ref().unwrap().current.queue, vec![track("2", "two", 1)]);
}

#[test]
fn a_full_round_of_turns_comes_back() {
    let mut z = Zipper {
        before: vec![user("a", vec![])],
        current: user("b", vec![]),
        after: vec![user("c", vec![]), user("d", vec![])],
    };
    let start = z.clone();
    for _ in 0..4 {
        next_djs(&mut z);
    }
    assert_eq!(z, start);
}

#[test]
fn voters_are_counted_once() {
    assert_eq!(count_voters(&s(&[])), 0);
    assert_eq!(count_voters(&s(&["a", "b", "a", "a"])), 2);
    let mut room = empty_room();
    room.users = vec![user("a", vec![]), user("b", vec![]), user("c", vec![])];
    room.djs = Some(Zipper::singleton(user("dj", vec![])));
    let mut playing = Playing::new(track("t", "T", 1000), 1);
    // A vote held twice is one voter: with four in the room, one voter does not skip.
    playing.downvotes = s(&["a", "a"]);
    room.playing = Some(playing);
    assert_eq!(downvote("a".into(), &mut room, 5), DownvoteOutcome { song_changed: false, started: false });
    assert_eq!(room.playing.as_ref().unwrap().downvotes, s(&["a", "a"]));
    assert_eq!(downvote("c".into(), &mut room, 5), DownvoteOutcome { song_changed: true, started: false });
    assert_eq!(room.playing, None);
}

#[test]
fn last_connection_of_a_user() {
    let others = vec![None, Some("b".to_string()), Some("c".to_string())];
    assert!(is_last_connection(&others, &"a".to_string()));
    assert!(!is_last_connection(&others, &"c".to_string()));
    assert!(is_last_connection(&vec![], &"a".to_string()));
    assert!(is_last_connection(&vec![None], &"a".to_string()));
}
