use spotijay::shared::{
    add_downvote, copy_user, current_unix_epoch, epoch_millis, next_djs, prune_djs_without_queue, Playing,
    Room, Track, TrackArt, User,
};
use std::collections::VecDeque;

fn track(id: &str) -> Track {
    Track {
        id: id.into(),
        name: format!("name of {}", id),
        artist: "someone".into(),
        uri: format!("spotify:track:{}", id),
        duration_ms: 1000,
        artwork: TrackArt::default(),
    }
}

fn user(id: &str, tracks: &[&str]) -> User {
    User { id: id.into(), queue: tracks.iter().map(|t| track(t)).collect(), last_disconnect: None }
}

fn ids(djs: &VecDeque<User>) -> Vec<String> {
    djs.iter().map(|u| u.id.clone()).collect()
}

fn room(djs: Vec<User>, playing: Option<Playing>) -> Room {
    Room {
        id: "the_room".into(),
        users: vec![user("listener", &[])],
        djs: djs.into_iter().collect(),
        playing,
        next_up: None,
    }
}

#[test]
fn track_art_default_is_empty() {
    let art = TrackArt::default();
    assert_eq!(art, TrackArt { uri: "".into(), height: 0, width: 0 });
}

#[test]
fn playing_new_copies_the_track() {
    let t = track("abc");
    let p = Playing::new(t.clone(), 42);
    assert_eq!(p.id, "abc");
    assert_eq!(p.name, t.name);
    assert_eq!(p.artist, t.artist);
    assert_eq!(p.uri, t.uri);
    assert_eq!(p.duration_ms, 1000);
    assert_eq!(p.started, 42);
    assert!(p.downvotes.is_empty());
}

#[test]
fn next_djs_rotates_to_the_next_dj_with_tracks() {
    let mut djs: VecDeque<User> = vec![user("a", &["1"]), user("b", &["2"]), user("c", &["3"])].into();
    next_djs(&mut djs);
    assert_eq!(ids(&djs), vec!["b", "c", "a"]);
}

#[test]
fn next_djs_drops_djs_without_tracks_on_their_turn() {
    let mut djs: VecDeque<User> = vec![user("a", &[]), user("b", &[]), user("c", &["3"])].into();
    next_djs(&mut djs);
    assert_eq!(ids(&djs), vec!["c"]);
}

#[test]
fn next_djs_skips_one_after_a_drop() {
    // After a DJ without tracks leaves, the rotation goes on by one more
    // place before the DJ on turn is looked at again.
    let mut djs: VecDeque<User> =
        vec![user("a", &["1"]), user("b", &[]), user("c", &[]), user("d", &["4"])].into();
    next_djs(&mut djs);
    assert_eq!(ids(&djs), vec!["d", "a", "c"]);
}

#[test]
fn next_djs_empties_a_rotation_without_tracks() {
    let mut djs: VecDeque<User> = vec![user("a", &[]), user("b", &[])].into();
    next_djs(&mut djs);
    assert!(djs.is_empty());
    let mut none: VecDeque<User> = VecDeque::new();
    next_djs(&mut none);
    assert!(none.is_empty());
}

#[test]
fn prune_keeps_the_dj_on_turn_while_playing() {
    let p = Playing::new(track("x"), 1);
    let mut r = room(vec![user("a", &[]), user("b", &[]), user("c", &["3"])], Some(p));
    prune_djs_without_queue(&mut r);
    assert_eq!(ids(&r.djs), vec!["a", "c"]);
    assert_eq!(r.users.len(), 1);
}

#[test]
fn prune_drops_the_idle_dj_on_turn_when_nothing_plays() {
    let mut r = room(vec![user("a", &[]), user("b", &[]), user("c", &["3"])], None);
    prune_djs_without_queue(&mut r);
    assert_eq!(ids(&r.djs), vec!["c"]);
    let again = r.clone();
    prune_djs_without_queue(&mut r);
    assert_eq!(r, again);
}

#[test]
fn downvote_counts_once_per_user() {
    let mut p = Playing::new(track("x"), 1);
    add_downvote(&mut p, "u1".into());
    add_downvote(&mut p, "u2".into());
    add_downvote(&mut p, "u1".into());
    assert_eq!(p.downvotes, vec!["u1".to_string(), "u2".to_string()]);
}

#[test]
fn copy_user_copies_everything() {
    let mut u = user("a", &["1", "2"]);
    u.last_disconnect = Some(7);
    assert_eq!(copy_user(&u), u);
}

#[test]
fn current_unix_epoch_is_after_2020() {
    let now = current_unix_epoch().unwrap();
    assert!(now > 1_577_836_800_000);
}

#[test]
fn epoch_millis_cuts_to_64_bits() {
    assert_eq!(epoch_millis(1_700_000_000_000), 1_700_000_000_000);
    assert_eq!(epoch_millis(u64::MAX as u128), u64::MAX);
    assert_eq!(epoch_millis((1u128 << 64) + 5), 5);
}

#[test]
fn later_clock_readings_give_no_smaller_result() {
    let a = current_unix_epoch().unwrap();
    let b = current_unix_epoch().unwrap();
    assert!(a <= b);
}
