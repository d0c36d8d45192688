//! The server's room: listeners, DJs held in a zipper around the DJ on turn,
//! the track being played and the track queued next, and what every client
//! request and every timer does to them.
use crate::shared::{
    add_downvote, count_voters, is_listed, voter_count, playing_of, texts, users_view, with_vote, Input, Playing,
    PlayingView, Track, User, UserView,
};
use vstd::prelude::*;

verus! {

/// A sequence with a focus: the elements `before` it, the `current` one and
/// the elements `after` it. For the DJs, the current one is on turn and the
/// turn goes on to `after` first.
#[derive(Debug, PartialEq, Clone)]
pub struct Zipper<T> {
    pub before: Vec<T>,
    pub current: T,
    pub after: Vec<T>,
}

/// The server's room.
#[derive(Debug, PartialEq, Clone)]
pub struct Room {
    pub id: String,
    pub users: Vec<User>,
    pub djs: Option<Zipper<User>>,
    pub playing: Option<Playing>,
    pub next_up: Option<Track>,
}

/// A zipper as mathematical sequences.
#[verifier::ext_equal]
pub ghost struct ZipperView<T> {
    pub before: Seq<T>,
    pub current: T,
    pub after: Seq<T>,
}

/// The room as the contracts speak of it.
#[verifier::ext_equal]
pub ghost struct RoomView {
    pub id: Seq<char>,
    pub users: Seq<UserView>,
    pub djs: Option<ZipperView<UserView>>,
    pub playing: Option<PlayingView>,
    pub next_up: Option<Track>,
}

impl View for Zipper<User> {
    type V = ZipperView<UserView>;

    open spec fn view(&self) -> ZipperView<UserView> {
        ZipperView {
            before: users_view(self.before@),
            current: self.current@,
            after: users_view(self.after@),
        }
    }
}

/// The view of the DJs of a room, if there are any.
pub open spec fn djs_view(djs: Option<Zipper<User>>) -> Option<ZipperView<UserView>> {
    match djs {
        Some(z) => Some(z@),
        None => None,
    }
}

/// The view of the track being played, if any.
pub open spec fn playing_view(p: Option<Playing>) -> Option<PlayingView> {
    match p {
        Some(p) => Some(p@),
        None => None,
    }
}

impl View for Room {
    type V = RoomView;

    open spec fn view(&self) -> RoomView {
        RoomView {
            id: self.id@,
            users: users_view(self.users@),
            djs: djs_view(self.djs),
            playing: playing_view(self.playing),
            next_up: self.next_up,
        }
    }
}

/// All the elements of a zipper, in order: before, current, after.
pub open spec fn members<T>(z: ZipperView<T>) -> Seq<T> {
    z.before + seq![z.current] + z.after
}

/// A user has tracks left to play.
pub open spec fn has_tracks(u: UserView) -> bool {
    u.queue.len() > 0
}

/// The predicate "has tracks left".
pub open spec fn with_tracks() -> spec_fn(UserView) -> bool {
    |u: UserView| has_tracks(u)
}

/// The predicate "has no track left".
pub open spec fn without_tracks() -> spec_fn(UserView) -> bool {
    |u: UserView| !has_tracks(u)
}

/// The zipper after the turn is handed on: to the first DJ after the current
/// one, or, at the end, back to the first DJ of all.
pub open spec fn next_djs_view<T>(z: ZipperView<T>) -> ZipperView<T> {
    if z.before.len() == 0 && z.after.len() == 0 {
        z
    } else if z.after.len() == 0 {
        ZipperView { before: Seq::empty(), current: z.before[0], after: z.before.drop_first().push(z.current) }
    } else {
        ZipperView { before: z.before.push(z.current), current: z.after[0], after: z.after.drop_first() }
    }
}

/// A sequence without its last element, if it has one.
pub open spec fn pop_last<T>(s: Seq<T>) -> Seq<T> {
    if s.len() > 0 {
        s.drop_last()
    } else {
        s
    }
}

/// The room after the DJs without tracks are sent back to the listeners.
/// The DJs before and after the current one that have no track join the
/// listeners. The current DJ, if it has no track and nothing is playing,
/// joins the listeners too and the turn goes on (the DJs are dropped when no
/// other is left); the zipper then drops its last element before the focus.
pub open spec fn pruned_room(r: RoomView) -> RoomView {
    match r.djs {
        None => r,
        Some(z) => {
            let idle = z.before.filter(without_tracks()) + z.after.filter(without_tracks());
            let users = r.users + idle;
            let kept = ZipperView {
                before: z.before.filter(with_tracks()),
                current: z.current,
                after: z.after.filter(with_tracks()),
            };
            if !has_tracks(z.current) && r.playing is None {
                if kept.before.len() == 0 && kept.after.len() == 0 {
                    RoomView { users: users.push(z.current), djs: None, ..r }
                } else {
                    let n = next_djs_view(kept);
                    RoomView {
                        users: users.push(z.current),
                        djs: Some(ZipperView { before: pop_last(n.before), ..n }),
                        ..r
                    }
                }
            } else {
                RoomView { users: users, djs: Some(kept), ..r }
            }
        },
    }
}

impl<T> Zipper<T> {
    /// A zipper of one element.
    pub fn singleton(item: T) -> (z: Zipper<T>)
        ensures
            z.before@ == Seq::<T>::empty(),
            z.current == item,
            z.after@ == Seq::<T>::empty(),
    {
        Zipper { before: Vec::new(), current: item, after: Vec::new() }
    }
}

proof fn lemma_users_view_push(s: Seq<User>, u: User)
    ensures
        users_view(s.push(u)) == users_view(s).push(u@),
{
    assert(users_view(s.push(u)) =~= users_view(s).push(u@));
}

proof fn lemma_users_view_take_step(s: Seq<User>, k: int)
    requires
        0 <= k < s.len(),
    ensures
        users_view(s.take(k + 1)) == users_view(s.take(k)).push(s[k]@),
{
    assert(s.take(k + 1) =~= s.take(k).push(s[k]));
    lemma_users_view_push(s.take(k), s[k]);
}

proof fn lemma_users_view_add(a: Seq<User>, b: Seq<User>)
    ensures
        users_view(a + b) == users_view(a) + users_view(b),
{
    assert(users_view(a + b) =~= users_view(a) + users_view(b));
}

proof fn lemma_filter_empty<A>(p: spec_fn(A) -> bool)
    ensures
        Seq::<A>::empty().filter(p) == Seq::<A>::empty(),
{
    reveal(Seq::filter);
    assert(Seq::<A>::empty().filter(p) =~= Seq::<A>::empty());
}

/// Splits `v` into the users with tracks and the users without, each in
/// their order.
fn split_by_tracks(v: Vec<User>) -> (res: (Vec<User>, Vec<User>))
    ensures
        users_view(res.0@) == users_view(v@).filter(with_tracks()),
        users_view(res.1@) == users_view(v@).filter(without_tracks()),
{
    let ghost orig = v@;
    let mut rest = v;
    let mut keep: Vec<User> = Vec::new();
    let mut idle: Vec<User> = Vec::new();
    let n = rest.len();
    let mut k: usize = 0;
    proof {
        lemma_filter_empty(with_tracks());
        lemma_filter_empty(without_tracks());
        assert(users_view(orig.take(0)) =~= Seq::<UserView>::empty());
        assert(users_view(keep@) =~= Seq::<UserView>::empty());
        assert(users_view(idle@) =~= Seq::<UserView>::empty());
        assert(orig.skip(0) =~= orig);
    }
    while k < n
        invariant
            k <= n,
            n == orig.len(),
            rest@ == orig.skip(k as int),
            users_view(keep@) == users_view(orig.take(k as int)).filter(with_tracks()),
            users_view(idle@) == users_view(orig.take(k as int)).filter(without_tracks()),
        decreases n - k,
    {
        let u = rest.remove(0);
        proof {
            assert(u == orig[k as int]);
            assert(rest@ =~= orig.skip(k + 1));
            lemma_users_view_take_step(orig, k as int);
            users_view(orig.take(k as int)).lemma_filter_push(u@, with_tracks());
            users_view(orig.take(k as int)).lemma_filter_push(u@, without_tracks());
        }
        if u.queue.len() > 0 {
            proof {
                lemma_users_view_push(keep@, u);
            }
            keep.push(u);
        } else {
            proof {
                lemma_users_view_push(idle@, u);
            }
            idle.push(u);
        }
        k = k + 1;
    }
    proof {
        assert(orig.take(n as int) =~= orig);
    }
    (keep, idle)
}

/// Appends `other` to `v`.
fn append_users(v: &mut Vec<User>, other: Vec<User>)
    ensures
        users_view(final(v)@) == users_view(old(v)@) + users_view(other@),
{
    let mut other = other;
    proof {
        lemma_users_view_add(v@, other@);
    }
    v.append(&mut other);
}

/// A user with the id and the disconnect time of `u`, and no tracks.
fn copy_idle_user(u: &User) -> (c: User)
    requires
        u.queue@.len() == 0,
    ensures
        c@ == u@,
{
    let c = User { id: u.id.clone(), queue: Vec::new(), last_disconnect: u.last_disconnect };
    assert(c.queue@ =~= u.queue@);
    c
}

/// Hands the turn to the next DJ (see `next_djs_view`).
pub fn next_djs(djs: &mut Zipper<User>)
    ensures
        final(djs)@ == next_djs_view(old(djs)@),
{
    if djs.before.len() == 0 && djs.after.len() == 0 {
    } else if djs.after.len() == 0 {
        let ghost b = djs.before@;
        let mut next = djs.before.remove(0);
        let mut rest: Vec<User> = Vec::new();
        std::mem::swap(&mut rest, &mut djs.before);
        std::mem::swap(&mut djs.current, &mut next);
        rest.push(next);
        djs.after = rest;
        proof {
            assert(djs.before@ =~= Seq::<User>::empty());
            assert(users_view(djs.before@) =~= Seq::<UserView>::empty());
            assert(djs.after@ =~= b.drop_first().push(next));
            assert(users_view(djs.after@) =~= users_view(b).drop_first().push(next@));
        }
    } else {
        let ghost a = djs.after@;
        let mut next = djs.after.remove(0);
        std::mem::swap(&mut djs.current, &mut next);
        let ghost bb = djs.before@;
        djs.before.push(next);
        proof {
            lemma_users_view_push(bb, next);
            assert(users_view(djs.after@) =~= users_view(a).drop_first());
        }
    }
}

/// Sends the DJs without tracks back to the listeners (see `pruned_room`).
pub fn prune_djs_without_queue(room: &mut Room)
    ensures
        final(room)@ == pruned_room(old(room)@),
{
    let ghost r = room@;
    let djs = room.djs.take();
    match djs {
        None => {
            assert(room@ =~= r);
        },
        Some(z) => {
            let Zipper { before, current, after } = z;
            let (before_kept, before_idle) = split_by_tracks(before);
            let (after_kept, after_idle) = split_by_tracks(after);
            append_users(&mut room.users, before_idle);
            append_users(&mut room.users, after_idle);
            let mut kept = Zipper { before: before_kept, current: current, after: after_kept };
            if kept.current.queue.len() == 0 && room.playing.is_none() {
                if kept.before.len() == 0 && kept.after.len() == 0 {
                    let ghost us = room.users@;
                    room.users.push(kept.current);
                    proof {
                        lemma_users_view_push(us, kept.current);
                    }
                } else {
                    let c = copy_idle_user(&kept.current);
                    let ghost us = room.users@;
                    room.users.push(c);
                    proof {
                        lemma_users_view_push(us, c);
                    }
                    next_djs(&mut kept);
                    let ghost kb = kept.before@;
                    kept.before.pop();
                    proof {
                        if kb.len() > 0 {
                            assert(kept.before@ =~= kb.drop_last());
                            assert(users_view(kept.before@) =~= users_view(kb).drop_last());
                        }
                    }
                    room.djs = Some(kept);
                }
            } else {
                room.djs = Some(kept);
            }
            assert(room@ =~= pruned_room(r));
        },
    }
}


/// The predicate "is not one of the ids `ids`".
pub open spec fn not_listed(ids: Seq<Seq<char>>) -> spec_fn(UserView) -> bool {
    |u: UserView| !ids.contains(u.id)
}

/// The room after the users with one of the ids `ids` leave it. They leave
/// the listeners and the DJs; if the DJ on turn is one of them, the turn goes
/// on as in `pruned_room` (without sending the DJ back to the listeners).
pub open spec fn room_without_users(r: RoomView, ids: Seq<Seq<char>>) -> RoomView {
    let users = r.users.filter(not_listed(ids));
    match r.djs {
        None => RoomView { users: users, ..r },
        Some(z) => {
            let kept = ZipperView {
                before: z.before.filter(not_listed(ids)),
                current: z.current,
                after: z.after.filter(not_listed(ids)),
            };
            if ids.contains(z.current.id) {
                if kept.before.len() == 0 && kept.after.len() == 0 {
                    RoomView { users: users, djs: None, ..r }
                } else {
                    let n = next_djs_view(kept);
                    RoomView {
                        users: users,
                        djs: Some(ZipperView { before: pop_last(n.before), ..n }),
                        ..r
                    }
                }
            } else {
                RoomView { users: users, djs: Some(kept), ..r }
            }
        },
    }
}

/// Keeps the users of `v` whose id is not one of `ids`, in their order.
fn retain_unlisted(v: Vec<User>, ids: &Vec<String>) -> (res: Vec<User>)
    ensures
        users_view(res@) == users_view(v@).filter(not_listed(texts(ids@))),
{
    let ghost orig = v@;
    let ghost p = not_listed(texts(ids@));
    let mut rest = v;
    let mut keep: Vec<User> = Vec::new();
    let n = rest.len();
    let mut k: usize = 0;
    proof {
        lemma_filter_empty(p);
        assert(users_view(orig.take(0)) =~= Seq::<UserView>::empty());
        assert(users_view(keep@) =~= Seq::<UserView>::empty());
        assert(orig.skip(0) =~= orig);
    }
    while k < n
        invariant
            k <= n,
            n == orig.len(),
            p == not_listed(texts(ids@)),
            rest@ == orig.skip(k as int),
            users_view(keep@) == users_view(orig.take(k as int)).filter(p),
        decreases n - k,
    {
        let u = rest.remove(0);
        proof {
            assert(u == orig[k as int]);
            assert(rest@ =~= orig.skip(k + 1));
            lemma_users_view_take_step(orig, k as int);
            users_view(orig.take(k as int)).lemma_filter_push(u@, p);
        }
        if !is_listed(ids, &u.id) {
            proof {
                lemma_users_view_push(keep@, u);
            }
            keep.push(u);
        }
        k = k + 1;
    }
    proof {
        assert(orig.take(n as int) =~= orig);
    }
    keep
}

/// Removes from the room the users with one of the ids `user_ids` (see
/// `room_without_users`).
pub fn remove_user_from_room(room: &mut Room, user_ids: Vec<String>)
    ensures
        final(room)@ == room_without_users(old(room)@, texts(user_ids@)),
{
    let ghost r = room@;
    let mut users: Vec<User> = Vec::new();
    std::mem::swap(&mut users, &mut room.users);
    room.users = retain_unlisted(users, &user_ids);
    let djs = room.djs.take();
    match djs {
        None => {},
        Some(z) => {
            let Zipper { before, current, after } = z;
            let before = retain_unlisted(before, &user_ids);
            let after = retain_unlisted(after, &user_ids);
            let mut kept = Zipper { before: before, current: current, after: after };
            if is_listed(&user_ids, &kept.current.id) {
                if kept.before.len() == 0 && kept.after.len() == 0 {
                } else {
                    next_djs(&mut kept);
                    let ghost kb = kept.before@;
                    kept.before.pop();
                    proof {
                        if kb.len() > 0 {
                            assert(kept.before@ =~= kb.drop_last());
                            assert(users_view(kept.before@) =~= users_view(kb).drop_last());
                        }
                    }
                    room.djs = Some(kept);
                }
            } else {
                room.djs = Some(kept);
            }
        },
    }
    assert(room@ =~= room_without_users(r, texts(user_ids@)));
}

/// A user with its first track taken off its queue.
pub open spec fn without_first_track(u: UserView) -> UserView {
    UserView { queue: u.queue.drop_first(), ..u }
}

/// Nothing is playing and the DJ on turn has a track to play.
pub open spec fn can_start(r: RoomView) -> bool {
    &&& r.playing is None
    &&& r.djs is Some
    &&& has_tracks(r.djs->0.current)
}

/// The room once the first track of the DJ on turn starts playing at `now`,
/// if nothing is playing and that DJ has a track; else the room unchanged.
pub open spec fn started_room(r: RoomView, now: u64) -> RoomView {
    if can_start(r) {
        let z = r.djs->0;
        RoomView {
            djs: Some(ZipperView { current: without_first_track(z.current), ..z }),
            playing: Some(playing_of(z.current.queue[0], now)),
            ..r
        }
    } else {
        r
    }
}

/// Plays `track` from `now` on.
pub fn play(room: &mut Room, track: Track, now: u64)
    ensures
        final(room)@ == (RoomView { playing: Some(playing_of(track, now)), ..old(room)@ }),
{
    let ghost r = room@;
    room.playing = Some(Playing::new(track, now));
    assert(room@ =~= (RoomView { playing: Some(playing_of(track, now)), ..r }));
}

/// Starts the first track of the DJ on turn if nothing is playing (see
/// `started_room`); tells whether a track started.
pub fn start_playing_if_theres_a_dj(room: &mut Room, now: u64) -> (started: bool)
    ensures
        started == can_start(old(room)@),
        final(room)@ == started_room(old(room)@, now),
{
    let ghost r = room@;
    if room.playing.is_none() {
        let djs = room.djs.take();
        match djs {
            Some(mut z) => {
                if z.current.queue.len() > 0 {
                    let ghost q = z.current.queue@;
                    let track = z.current.queue.remove(0);
                    assert(z.current.queue@ =~= q.drop_first());
                    room.djs = Some(z);
                    play(room, track, now);
                    assert(room@ =~= started_room(r, now));
                    return true;
                } else {
                    room.djs = Some(z);
                }
            },
            None => {},
        }
    }
    assert(room@ =~= r);
    false
}

/// The room once the turn is handed on and the next DJ's first track is
/// queued next (or nothing is, if that DJ has no track).
pub open spec fn next_up_room(r: RoomView) -> RoomView {
    match r.djs {
        None => r,
        Some(z) => {
            let n = next_djs_view(z);
            if has_tracks(n.current) {
                RoomView {
                    djs: Some(ZipperView { current: without_first_track(n.current), ..n }),
                    next_up: Some(n.current.queue[0]),
                    ..r
                }
            } else {
                RoomView { djs: Some(n), next_up: None, ..r }
            }
        },
    }
}

/// Hands the turn on and queues the next DJ's first track (see
/// `next_up_room`).
pub fn set_next_up_from_queue(room: &mut Room)
    ensures
        final(room)@ == next_up_room(old(room)@),
{
    let ghost r = room@;
    let djs = room.djs.take();
    match djs {
        None => {
            assert(room@ =~= r);
        },
        Some(mut z) => {
            next_djs(&mut z);
            if z.current.queue.len() > 0 {
                let ghost q = z.current.queue@;
                let track = z.current.queue.remove(0);
                assert(z.current.queue@ =~= q.drop_first());
                room.next_up = Some(track);
            } else {
                room.next_up = None;
            }
            room.djs = Some(z);
            assert(room@ =~= next_up_room(r));
        },
    }
}

/// The room once the queued track plays from `now` on (or nothing plays, if
/// no track is queued), and the DJs without tracks are pruned.
pub open spec fn next_played_room(r: RoomView, now: u64) -> RoomView {
    let r1 = match r.next_up {
        Some(t) => RoomView { next_up: None, playing: Some(playing_of(t, now)), ..r },
        None => RoomView { playing: None, ..r },
    };
    pruned_room(r1)
}

/// Plays the queued track (see `next_played_room`); tells whether a track
/// started.
pub fn play_from_next_up(room: &mut Room, now: u64) -> (started: bool)
    ensures
        started == (old(room)@.next_up is Some),
        final(room)@ == next_played_room(old(room)@, now),
{
    let ghost r = room@;
    let next = room.next_up.take();
    let started = match next {
        Some(track) => {
            play(room, track, now);
            true
        },
        None => {
            room.playing = None;
            false
        },
    };
    let ghost r1 = room@;
    assert(r1 =~= match r.next_up {
        Some(t) => RoomView { next_up: None, playing: Some(playing_of(t, now)), ..r },
        None => RoomView { playing: None, ..r },
    });
    prune_djs_without_queue(room);
    started
}


/// The number of DJs.
pub open spec fn dj_count(djs: Option<ZipperView<UserView>>) -> int {
    match djs {
        Some(z) => members(z).len() as int,
        None => 0,
    }
}

/// At least half of the listeners and DJs voted the track down (each voter
/// counted once).
pub open spec fn skip_threshold_met(r: RoomView) -> bool {
    &&& r.playing is Some
    &&& 2 * voter_count(r.playing->0.downvotes) >= r.users.len() + dj_count(r.djs)
}

/// The room once the user `id` voted the playing track down.
pub open spec fn voted_room(r: RoomView, id: Seq<char>) -> RoomView {
    match r.playing {
        Some(p) => RoomView { playing: Some(with_vote(p, id)), ..r },
        None => r,
    }
}

/// The room once the playing track is skipped: nothing plays and the turn
/// goes on.
pub open spec fn skipped_room(r: RoomView) -> RoomView {
    RoomView {
        playing: None,
        djs: match r.djs {
            Some(z) => Some(next_djs_view(z)),
            None => None,
        },
        ..r
    }
}

/// The vote of `id` makes the playing track skip.
pub open spec fn song_skipped(r: RoomView, id: Seq<char>) -> bool {
    skip_threshold_met(voted_room(r, id))
}

/// The room after the user `id` votes the playing track down at `now`: once
/// the votes reach half of the room, the track is skipped, the next DJ's
/// track starts if there is one, and the DJs without tracks are pruned.
pub open spec fn downvoted_room(r: RoomView, id: Seq<char>, now: u64) -> RoomView {
    if song_skipped(r, id) {
        pruned_room(started_room(skipped_room(voted_room(r, id)), now))
    } else {
        voted_room(r, id)
    }
}

/// What a downvote did: whether the playing track changed, and whether a
/// new track started.
#[derive(Debug, PartialEq, Clone, Copy)]
pub struct DownvoteOutcome {
    pub song_changed: bool,
    pub started: bool,
}

/// The user `user_id` votes the playing track down at `now` (see
/// `downvoted_room`).
pub fn downvote(user_id: String, room: &mut Room, now: u64) -> (out: DownvoteOutcome)
    ensures
        out.song_changed == song_skipped(old(room)@, user_id@),
        out.started == (out.song_changed && can_start(
            skipped_room(voted_room(old(room)@, user_id@)),
        )),
        final(room)@ == downvoted_room(old(room)@, user_id@, now),
        (old(room)@.playing matches Some(p) ==> p.downvotes.no_duplicates()) ==> (final(room)@.playing matches Some(
            q,
        ) ==> q.downvotes.no_duplicates()),
{
    let ghost r = room@;
    let ghost id = user_id@;
    let playing = room.playing.take();
    match playing {
        None => {
            assert(room@ =~= r);
            return DownvoteOutcome { song_changed: false, started: false };
        },
        Some(mut p) => {
            add_downvote(&mut p, user_id);
            room.playing = Some(p);
        },
    }
    assert(room@ =~= voted_room(r, id));
    let votes: u128 = match &room.playing {
        Some(p) => count_voters(&p.downvotes) as u128,
        None => 0,
    };
    let dj_total: u128 = match &room.djs {
        Some(z) => z.before.len() as u128 + 1 + z.after.len() as u128,
        None => 0,
    };
    let listeners: u128 = room.users.len() as u128 + dj_total;
    if 2 * votes >= listeners {
        room.playing = None;
        let djs = room.djs.take();
        match djs {
            Some(mut z) => {
                next_djs(&mut z);
                room.djs = Some(z);
            },
            None => {},
        }
        assert(room@ =~= skipped_room(voted_room(r, id)));
        let started = start_playing_if_theres_a_dj(room, now);
        prune_djs_without_queue(room);
        DownvoteOutcome { song_changed: true, started: started }
    } else {
        DownvoteOutcome { song_changed: false, started: false }
    }
}

/// A user whose last disconnect becomes `at`, if its id is `who` (or in any
/// case, when `who` is `None`).
pub open spec fn with_disconnect(u: UserView, who: Option<Seq<char>>, at: Option<u64>) -> UserView {
    if who is None || u.id == who->0 {
        UserView { last_disconnect: at, ..u }
    } else {
        u
    }
}

/// `with_disconnect` on every user of a sequence.
pub open spec fn all_with_disconnect(s: Seq<UserView>, who: Option<Seq<char>>, at: Option<u64>) -> Seq<UserView> {
    s.map_values(|u: UserView| with_disconnect(u, who, at))
}

/// `with_disconnect` on every listener and DJ of a room.
pub open spec fn room_with_disconnect(r: RoomView, who: Option<Seq<char>>, at: Option<u64>) -> RoomView {
    RoomView {
        users: all_with_disconnect(r.users, who, at),
        djs: match r.djs {
            Some(z) => Some(
                ZipperView {
                    before: all_with_disconnect(z.before, who, at),
                    current: with_disconnect(z.current, who, at),
                    after: all_with_disconnect(z.after, who, at),
                },
            ),
            None => None,
        },
        ..r
    }
}

/// The view of an optional string.
pub open spec fn opt_text(s: Option<&String>) -> Option<Seq<char>> {
    match s {
        Some(s) => Some(s@),
        None => None,
    }
}

fn set_user_disconnect(u: &mut User, who: Option<&String>, at: Option<u64>)
    ensures
        final(u)@ == with_disconnect(old(u)@, opt_text(who), at),
{
    let matches = match who {
        Some(id) => u.id == *id,
        None => true,
    };
    if matches {
        u.last_disconnect = at;
    }
}

fn set_users_disconnect(v: &mut Vec<User>, who: Option<&String>, at: Option<u64>)
    ensures
        users_view(final(v)@) == all_with_disconnect(users_view(old(v)@), opt_text(who), at),
{
    let ghost orig = v@;
    let mut rest: Vec<User> = Vec::new();
    std::mem::swap(&mut rest, v);
    let n = rest.len();
    let mut k: usize = 0;
    proof {
        assert(users_view(v@) =~= all_with_disconnect(users_view(orig.take(0)), opt_text(who), at));
        assert(orig.skip(0) =~= orig);
    }
    while k < n
        invariant
            k <= n,
            n == orig.len(),
            rest@ == orig.skip(k as int),
            users_view(v@) == all_with_disconnect(users_view(orig.take(k as int)), opt_text(who), at),
        decreases n - k,
    {
        let mut u = rest.remove(0);
        proof {
            assert(u == orig[k as int]);
            assert(rest@ =~= orig.skip(k + 1));
            lemma_users_view_take_step(orig, k as int);
        }
        set_user_disconnect(&mut u, who, at);
        let ghost before = v@;
        v.push(u);
        proof {
            lemma_users_view_push(before, u);
            assert(all_with_disconnect(users_view(orig.take(k + 1)), opt_text(who), at) =~= all_with_disconnect(
                users_view(orig.take(k as int)),
                opt_text(who),
                at,
            ).push(with_disconnect(orig[k as int]@, opt_text(who), at)));
        }
        k = k + 1;
    }
    proof {
        assert(orig.take(n as int) =~= orig);
    }
}

fn set_room_disconnect(room: &mut Room, who: Option<&String>, at: Option<u64>)
    ensures
        final(room)@ == room_with_disconnect(old(room)@, opt_text(who), at),
{
    let ghost r = room@;
    set_users_disconnect(&mut room.users, who, at);
    let djs = room.djs.take();
    match djs {
        Some(z) => {
            let Zipper { mut before, mut current, mut after } = z;
            set_users_disconnect(&mut before, who, at);
            set_user_disconnect(&mut current, who, at);
            set_users_disconnect(&mut after, who, at);
            room.djs = Some(Zipper { before: before, current: current, after: after });
        },
        None => {},
    }
    assert(room@ =~= room_with_disconnect(r, opt_text(who), at));
}

/// The user `user_id` lost its last connection at `now`.
pub fn mark_user_disconnected(room: &mut Room, user_id: &String, now: u64)
    ensures
        final(room)@ == room_with_disconnect(old(room)@, Some(user_id@), Some(now)),
{
    set_room_disconnect(room, Some(user_id), Some(now));
}

/// Some open connection is signed in as the user `user_id`.
pub open spec fn signed_in_elsewhere(peer_users: Seq<Option<String>>, user_id: Seq<char>) -> bool {
    exists|i: int| 0 <= i < peer_users.len() && signed_in_as(#[trigger] peer_users[i], user_id)
}

/// A connection whose signed-in user is `peer_user` is signed in as `user_id`.
pub open spec fn signed_in_as(peer_user: Option<String>, user_id: Seq<char>) -> bool {
    peer_user matches Some(u) && u@ == user_id
}

/// Whether the connection of `user_id` that closed was its last one: no
/// other open connection, whose signed-in users are `peer_users`, is signed
/// in as that user.
pub fn is_last_connection(peer_users: &Vec<Option<String>>, user_id: &String) -> (last: bool)
    ensures
        last == !signed_in_elsewhere(peer_users@, user_id@),
{
    let n = peer_users.len();
    let mut i: usize = 0;
    while i < n
        invariant
            i <= n,
            n == peer_users@.len(),
            forall|k: int| 0 <= k < i ==> !signed_in_as(#[trigger] peer_users@[k], user_id@),
        decreases n - i,
    {
        match &peer_users[i] {
            Some(u) => {
                if *u == *user_id {
                    return false;
                }
            },
            None => {},
        }
        i = i + 1;
    }
    true
}

/// Every listener and DJ counts as disconnected from `now` on, until it
/// joins again.
pub fn mark_all_disconnected(room: &mut Room, now: u64)
    ensures
        final(room)@ == room_with_disconnect(old(room)@, None, Some(now)),
{
    set_room_disconnect(room, None, Some(now));
}

/// Some user of `s` has the id `id`.
pub open spec fn has_id(s: Seq<UserView>, id: Seq<char>) -> bool {
    exists|i: int| 0 <= i < s.len() && s[i].id == id
}

/// The user `user` is in the room, as a listener or as a DJ.
pub open spec fn in_room(r: RoomView, id: Seq<char>) -> bool {
    has_id(r.users, id) || (r.djs is Some && has_id(members(r.djs->0), id))
}

/// The room after `user` joins it: the users with its id are no longer
/// counted as disconnected, and it becomes a listener unless it is in the
/// room already.
pub open spec fn joined_room(r: RoomView, user: UserView) -> RoomView {
    let r1 = room_with_disconnect(r, Some(user.id), None);
    if in_room(r, user.id) {
        r1
    } else {
        RoomView { users: r1.users.push(user), ..r1 }
    }
}

/// Whether some user of `v` has the id `id`.
fn contains_id(v: &Vec<User>, id: &String) -> (res: bool)
    ensures
        res == has_id(users_view(v@), id@),
{
    let n = v.len();
    let mut i: usize = 0;
    while i < n
        invariant
            i <= n,
            n == v@.len(),
            forall|j: int| 0 <= j < i ==> v@[j].id@ != id@,
        decreases n - i,
    {
        if v[i].id == *id {
            assert(users_view(v@)[i as int].id == id@);
            return true;
        }
        i = i + 1;
    }
    proof {
        if has_id(users_view(v@), id@) {
            let j = choose|j: int| 0 <= j < users_view(v@).len() && users_view(v@)[j].id == id@;
            assert(v@[j].id@ == id@);
        }
    }
    false
}

proof fn lemma_members_has_id(z: ZipperView<UserView>, id: Seq<char>)
    ensures
        has_id(members(z), id) == (has_id(z.before, id) || z.current.id == id || has_id(z.after, id)),
{
    let m = members(z);
    let b = z.before.len() as int;
    if has_id(m, id) {
        let i = choose|i: int| 0 <= i < m.len() && m[i].id == id;
        if i < b {
            assert(z.before[i].id == id);
        } else if i > b {
            assert(z.after[i - b - 1].id == id);
        }
    }
    if has_id(z.before, id) {
        let i = choose|i: int| 0 <= i < z.before.len() && z.before[i].id == id;
        assert(m[i].id == id);
    }
    if z.current.id == id {
        assert(m[b].id == id);
    }
    if has_id(z.after, id) {
        let i = choose|i: int| 0 <= i < z.after.len() && z.after[i].id == id;
        assert(m[b + 1 + i].id == id);
    }
}

/// The user `user` joins the room (see `joined_room`).
pub fn join_room(room: &mut Room, user: User)
    ensures
        final(room)@ == joined_room(old(room)@, user@),
{
    let ghost r = room@;
    let present = contains_id(&room.users, &user.id) || match &room.djs {
        Some(z) => contains_id(&z.before, &user.id) || z.current.id == user.id || contains_id(
            &z.after,
            &user.id,
        ),
        None => false,
    };
    proof {
        if r.djs is Some {
            lemma_members_has_id(r.djs->0, user.id@);
        }
        assert(present == in_room(r, user.id@));
    }
    set_room_disconnect(room, Some(&user.id), None);
    if !present {
        let ghost us = room.users@;
        room.users.push(user);
        proof {
            lemma_users_view_push(us, user);
        }
    }
    assert(room@ =~= joined_room(r, user@));
}


/// `i` is the first index of `s` whose user has the id `id`.
pub open spec fn is_first_with_id(s: Seq<UserView>, id: Seq<char>, i: int) -> bool {
    &&& 0 <= i < s.len()
    &&& s[i].id == id
    &&& forall|j: int| 0 <= j < i ==> s[j].id != id
}

/// The first index of `s` whose user has the id `id`, or -1 if there is none.
pub open spec fn first_with_id(s: Seq<UserView>, id: Seq<char>) -> int {
    if exists|i: int| is_first_with_id(s, id, i) {
        choose|i: int| is_first_with_id(s, id, i)
    } else {
        -1
    }
}

pub proof fn lemma_first_is(s: Seq<UserView>, id: Seq<char>, i: int)
    requires
        is_first_with_id(s, id, i),
    ensures
        first_with_id(s, id) == i,
{
    let k = first_with_id(s, id);
    assert(is_first_with_id(s, id, k));
    if k < i {
        assert(s[k].id != id);
    } else if k > i {
        assert(s[i].id != id);
    }
}

pub proof fn lemma_first_none(s: Seq<UserView>, id: Seq<char>)
    requires
        forall|j: int| 0 <= j < s.len() ==> s[j].id != id,
    ensures
        first_with_id(s, id) == -1,
{
    if exists|i: int| is_first_with_id(s, id, i) {
        let i = choose|i: int| is_first_with_id(s, id, i);
        assert(s[i].id == id);
    }
}

/// The index of the first user of `v` with the id `id`.
fn find_user(v: &Vec<User>, id: &String) -> (res: Option<usize>)
    ensures
        match res {
            Some(i) => is_first_with_id(users_view(v@), id@, i as int) && first_with_id(
                users_view(v@),
                id@,
            ) == i,
            None => (forall|j: int| 0 <= j < v@.len() ==> users_view(v@)[j].id != id@)
                && first_with_id(users_view(v@), id@) == -1,
        },
{
    let n = v.len();
    let mut i: usize = 0;
    while i < n
        invariant
            i <= n,
            n == v@.len(),
            forall|j: int| 0 <= j < i ==> users_view(v@)[j].id != id@,
        decreases n - i,
    {
        if v[i].id == *id {
            proof {
                lemma_first_is(users_view(v@), id@, i as int);
            }
            return Some(i);
        }
        i = i + 1;
    }
    proof {
        lemma_first_none(users_view(v@), id@);
    }
    None
}

/// The predicate "does not have the id `id`".
pub open spec fn not_id(id: Seq<char>) -> spec_fn(UserView) -> bool {
    |u: UserView| u.id != id
}

/// The room after the listener `id` becomes a DJ: if its first entry among
/// the listeners has tracks, every listener with that id leaves the
/// listeners and that entry joins the DJs at the end of the turn order.
pub open spec fn dj_joined(r: RoomView, id: Seq<char>) -> RoomView {
    let i = first_with_id(r.users, id);
    if i >= 0 && has_tracks(r.users[i]) {
        let u = r.users[i];
        RoomView {
            users: r.users.filter(not_id(id)),
            djs: Some(
                match r.djs {
                    Some(z) => ZipperView { after: z.after.push(u), ..z },
                    None => ZipperView { before: Seq::empty(), current: u, after: Seq::empty() },
                },
            ),
            ..r
        }
    } else {
        r
    }
}

/// Takes the users with the id `id` out of `v`, returning the others and the
/// first of them, at index `i`.
fn extract_first(v: Vec<User>, id: &String, i: usize) -> (res: (Vec<User>, User))
    requires
        is_first_with_id(users_view(v@), id@, i as int),
    ensures
        users_view(res.0@) == users_view(v@).filter(not_id(id@)),
        res.1 == v@[i as int],
{
    let ghost orig = v@;
    let ghost p = not_id(id@);
    let mut rest = v;
    let mut keep: Vec<User> = Vec::new();
    let mut found: Option<User> = None;
    let n = rest.len();
    let mut k: usize = 0;
    proof {
        lemma_filter_empty(p);
        assert(users_view(orig.take(0)) =~= Seq::<UserView>::empty());
        assert(users_view(keep@) =~= Seq::<UserView>::empty());
        assert(orig.skip(0) =~= orig);
    }
    while k < n
        invariant
            k <= n,
            n == orig.len(),
            i < n,
            is_first_with_id(users_view(orig), id@, i as int),
            p == not_id(id@),
            rest@ == orig.skip(k as int),
            users_view(keep@) == users_view(orig.take(k as int)).filter(p),
            k <= i ==> found is None,
            k > i ==> found == Some(orig[i as int]),
        decreases n - k,
    {
        let u = rest.remove(0);
        proof {
            assert(u == orig[k as int]);
            assert(rest@ =~= orig.skip(k + 1));
            lemma_users_view_take_step(orig, k as int);
            users_view(orig.take(k as int)).lemma_filter_push(u@, p);
        }
        if u.id == *id {
            if k == i {
                found = Some(u);
            }
        } else {
            proof {
                lemma_users_view_push(keep@, u);
            }
            keep.push(u);
        }
        k = k + 1;
    }
    proof {
        assert(orig.take(n as int) =~= orig);
    }
    (keep, found.unwrap())
}

/// The listener `user_id` becomes a DJ (see `dj_joined`), and the first
/// track of the DJ on turn starts if nothing is playing; tells whether a
/// track started.
pub fn become_dj(room: &mut Room, user_id: &String, now: u64) -> (started: bool)
    ensures
        started == can_start(dj_joined(old(room)@, user_id@)),
        final(room)@ == started_room(dj_joined(old(room)@, user_id@), now),
{
    let ghost r = room@;
    match find_user(&room.users, user_id) {
        Some(i) => {
            if room.users[i].queue.len() > 0 {
                let mut users: Vec<User> = Vec::new();
                std::mem::swap(&mut users, &mut room.users);
                let (kept, found) = extract_first(users, user_id, i);
                room.users = kept;
                let djs = room.djs.take();
                match djs {
                    Some(mut z) => {
                        let ghost a = z.after@;
                        z.after.push(found);
                        proof {
                            lemma_users_view_push(a, found);
                        }
                        room.djs = Some(z);
                    },
                    None => {
                        let z = Zipper::singleton(found);
                        assert(users_view(z.before@) =~= Seq::<UserView>::empty());
                        room.djs = Some(z);
                    },
                }
            }
        },
        None => {},
    }
    assert(room@ =~= dj_joined(r, user_id@));
    start_playing_if_theres_a_dj(room, now)
}

/// A user with `track` queued at the end.
pub open spec fn with_track(u: UserView, track: Track) -> UserView {
    UserView { queue: u.queue.push(track), ..u }
}

/// The predicate "is not the track `id`".
pub open spec fn not_track(id: Seq<char>) -> spec_fn(Track) -> bool {
    |t: Track| t.id@ != id
}

/// A user whose queued tracks with the id `id` are taken off.
pub open spec fn without_track(u: UserView, id: Seq<char>) -> UserView {
    UserView { queue: u.queue.filter(not_track(id)), ..u }
}

/// The room once `f` is applied to the user `id`: to its first entry among
/// the listeners, or else to its first entry among the DJs in turn order
/// (before, current, after); the room unchanged if it has no such user.
pub open spec fn changed_user_room(r: RoomView, id: Seq<char>, f: spec_fn(UserView) -> UserView) -> RoomView {
    let i = first_with_id(r.users, id);
    if i >= 0 {
        RoomView { users: r.users.update(i, f(r.users[i])), ..r }
    } else {
        match r.djs {
            Some(z) => {
                let j = first_with_id(members(z), id);
                let b = z.before.len() as int;
                if j < 0 {
                    r
                } else if j < b {
                    RoomView { djs: Some(ZipperView { before: z.before.update(j, f(z.before[j])), ..z }), ..r }
                } else if j == b {
                    RoomView { djs: Some(ZipperView { current: f(z.current), ..z }), ..r }
                } else {
                    RoomView {
                        djs: Some(ZipperView { after: z.after.update(j - b - 1, f(z.after[j - b - 1])), ..z }),
                        ..r
                    }
                }
            },
            None => r,
        }
    }
}

/// A change to one user's queue.
enum QueueChange {
    Add(Track),
    Remove(String),
}

spec fn change_fn(c: QueueChange) -> spec_fn(UserView) -> UserView {
    match c {
        QueueChange::Add(t) => |u: UserView| with_track(u, t),
        QueueChange::Remove(id) => |u: UserView| without_track(u, id@),
    }
}

/// Keeps the tracks of `q` whose id is not `id`, in their order.
fn retain_other_tracks(q: Vec<Track>, id: &String) -> (res: Vec<Track>)
    ensures
        res@ == q@.filter(not_track(id@)),
{
    let ghost orig = q@;
    let ghost p = not_track(id@);
    let mut rest = q;
    let mut keep: Vec<Track> = Vec::new();
    let n = rest.len();
    let mut k: usize = 0;
    proof {
        lemma_filter_empty(p);
        assert(orig.take(0) =~= Seq::<Track>::empty());
        assert(orig.skip(0) =~= orig);
    }
    while k < n
        invariant
            k <= n,
            n == orig.len(),
            p == not_track(id@),
            rest@ == orig.skip(k as int),
            keep@ == orig.take(k as int).filter(p),
        decreases n - k,
    {
        let t = rest.remove(0);
        proof {
            assert(t == orig[k as int]);
            assert(rest@ =~= orig.skip(k + 1));
            assert(orig.take(k + 1) =~= orig.take(k as int).push(t));
            orig.take(k as int).lemma_filter_push(t, p);
        }
        if t.id != *id {
            keep.push(t);
        }
        k = k + 1;
    }
    proof {
        assert(orig.take(n as int) =~= orig);
    }
    keep
}

fn apply_change(u: &mut User, c: QueueChange)
    ensures
        final(u)@ == change_fn(c)(old(u)@),
{
    match c {
        QueueChange::Add(t) => {
            u.queue.push(t);
        },
        QueueChange::Remove(id) => {
            let mut q: Vec<Track> = Vec::new();
            std::mem::swap(&mut q, &mut u.queue);
            u.queue = retain_other_tracks(q, &id);
        },
    }
}

/// Applies `c` to the user at index `i` of `v`.
fn change_at(v: &mut Vec<User>, i: usize, c: QueueChange)
    requires
        i < old(v)@.len(),
    ensures
        users_view(final(v)@) == users_view(old(v)@).update(i as int, change_fn(c)(old(v)@[i as int]@)),
{
    let ghost orig = v@;
    let mut u = v.remove(i);
    apply_change(&mut u, c);
    v.insert(i, u);
    assert(users_view(v@) =~= users_view(orig).update(i as int, change_fn(c)(orig[i as int]@)));
}

/// Applies `c` to the user `id` (see `changed_user_room`).
fn change_user(room: &mut Room, id: &String, c: QueueChange)
    ensures
        final(room)@ == changed_user_room(old(room)@, id@, change_fn(c)),
{
    let ghost r = room@;
    let ghost f = change_fn(c);
    match find_user(&room.users, id) {
        Some(i) => {
            change_at(&mut room.users, i, c);
            assert(room@ =~= changed_user_room(r, id@, f));
            return ;
        },
        None => {},
    }
    let djs = room.djs.take();
    match djs {
        None => {
            assert(room@ =~= changed_user_room(r, id@, f));
        },
        Some(z) => {
            let ghost zv = z@;
            let ghost m = members(zv);
            let ghost b = zv.before.len() as int;
            let Zipper { mut before, mut current, mut after } = z;
            match find_user(&before, id) {
                Some(j) => {
                    proof {
                        assert(m[j as int] == zv.before[j as int]);
                        assert forall|jj: int| 0 <= jj < j implies m[jj].id != id@ by {
                            assert(m[jj] == zv.before[jj]);
                        }
                        lemma_first_is(m, id@, j as int);
                    }
                    change_at(&mut before, j, c);
                },
                None => {
                    if current.id == *id {
                        proof {
                            assert(m[b] == zv.current);
                            assert forall|jj: int| 0 <= jj < b implies m[jj].id != id@ by {
                                assert(m[jj] == zv.before[jj]);
                            }
                            lemma_first_is(m, id@, b);
                        }
                        apply_change(&mut current, c);
                    } else {
                        match find_user(&after, id) {
                            Some(k) => {
                                proof {
                                    assert(m[b + 1 + k] == zv.after[k as int]);
                                    assert forall|jj: int| 0 <= jj < b + 1 + k implies m[jj].id != id@ by {
                                        if jj < b {
                                            assert(m[jj] == zv.before[jj]);
                                        } else if jj > b {
                                            assert(m[jj] == zv.after[jj - b - 1]);
                                        }
                                    }
                                    lemma_first_is(m, id@, b + 1 + k);
                                }
                                change_at(&mut after, k, c);
                            },
                            None => {
                                proof {
                                    assert forall|jj: int| 0 <= jj < m.len() implies m[jj].id != id@ by {
                                        if jj < b {
                                            assert(m[jj] == zv.before[jj]);
                                        } else if jj > b {
                                            assert(m[jj] == zv.after[jj - b - 1]);
                                        }
                                    }
                                    lemma_first_none(m, id@);
                                }
                            },
                        }
                    }
                },
            }
            room.djs = Some(Zipper { before: before, current: current, after: after });
            assert(room@ =~= changed_user_room(r, id@, f));
        },
    }
}

/// The room after the user `id` queues `track`, and the first track of the
/// DJ on turn starts if nothing is playing.
pub open spec fn track_added_room(r: RoomView, id: Seq<char>, track: Track, now: u64) -> RoomView {
    started_room(changed_user_room(r, id, |u: UserView| with_track(u, track)), now)
}

/// The user `user_id` queues `track` (see `track_added_room`); tells
/// whether a track started.
pub fn add_track(room: &mut Room, user_id: &String, track: Track, now: u64) -> (started: bool)
    ensures
        started == can_start(changed_user_room(old(room)@, user_id@, |u: UserView| with_track(u, track))),
        final(room)@ == track_added_room(old(room)@, user_id@, track, now),
{
    let ghost f = |u: UserView| with_track(u, track);
    let c = QueueChange::Add(track);
    assert(change_fn(c) =~= f);
    change_user(room, user_id, c);
    start_playing_if_theres_a_dj(room, now)
}

/// The room after the user `id` takes the track `track_id` off its queue,
/// the DJs without tracks are pruned, and the first track of the DJ on turn
/// starts if nothing is playing.
pub open spec fn track_removed_room(r: RoomView, id: Seq<char>, track_id: Seq<char>, now: u64) -> RoomView {
    started_room(pruned_room(changed_user_room(r, id, |u: UserView| without_track(u, track_id))), now)
}

/// The user `user_id` takes the track `track_id` off its queue (see
/// `track_removed_room`); tells whether a track started.
pub fn remove_track(room: &mut Room, user_id: &String, track_id: String, now: u64) -> (started: bool)
    ensures
        started == can_start(
            pruned_room(changed_user_room(old(room)@, user_id@, |u: UserView| without_track(u, track_id@))),
        ),
        final(room)@ == track_removed_room(old(room)@, user_id@, track_id@, now),
{
    let ghost tid = track_id@;
    let ghost f = |u: UserView| without_track(u, tid);
    let c = QueueChange::Remove(track_id);
    assert(change_fn(c) =~= f);
    change_user(room, user_id, c);
    prune_djs_without_queue(room);
    start_playing_if_theres_a_dj(room, now)
}


/// How long a connection may stay without a heartbeat, in milliseconds.
pub const CONNECTION_TIMEOUT: u64 = 5_000;

/// How long a user may stay without a connection before it leaves the room,
/// in milliseconds.
pub const ROOM_TIMEOUT: u64 = 60_000;

/// A connection whose last heartbeat came at `last_heartbeat` is still
/// alive at `now`.
pub fn peer_is_alive(now: u64, last_heartbeat: u64) -> (alive: bool)
    requires
        last_heartbeat <= now,
    ensures
        alive == (now - last_heartbeat < CONNECTION_TIMEOUT),
{
    now - last_heartbeat < CONNECTION_TIMEOUT
}

/// The predicate "has been disconnected for at least `ROOM_TIMEOUT` at
/// `now`".
pub open spec fn expired(now: u64) -> spec_fn(UserView) -> bool {
    |u: UserView|
        match u.last_disconnect {
            Some(d) => now - d >= ROOM_TIMEOUT,
            None => false,
        }
}

/// The listeners, then the DJs in turn order.
pub open spec fn everyone(r: RoomView) -> Seq<UserView> {
    r.users + match r.djs {
        Some(z) => members(z),
        None => Seq::empty(),
    }
}

/// The ids of a sequence of users.
pub open spec fn ids_of(s: Seq<UserView>) -> Seq<Seq<char>> {
    s.map_values(|u: UserView| u.id)
}

/// No user of `s` disconnected after `now`.
pub open spec fn disconnected_by(s: Seq<UserView>, now: u64) -> bool {
    forall|i: int|
        0 <= i < s.len() ==> match #[trigger] s[i].last_disconnect {
            Some(d) => d <= now,
            None => true,
        }
}

proof fn lemma_ids_of_add(a: Seq<UserView>, b: Seq<UserView>)
    ensures
        ids_of(a + b) == ids_of(a) + ids_of(b),
{
    assert(ids_of(a + b) =~= ids_of(a) + ids_of(b));
}

/// Appends to `ids` the ids of the users of `v` that expired at `now`.
fn collect_expired(v: &Vec<User>, now: u64, ids: &mut Vec<String>)
    requires
        disconnected_by(users_view(v@), now),
    ensures
        texts(final(ids)@) == texts(old(ids)@) + ids_of(users_view(v@).filter(expired(now))),
{
    let ghost start = texts(ids@);
    let ghost p = expired(now);
    let n = v.len();
    let mut i: usize = 0;
    proof {
        lemma_filter_empty(p);
        assert(users_view(v@.take(0)) =~= Seq::<UserView>::empty());
        assert(ids_of(Seq::<UserView>::empty()) =~= Seq::<Seq<char>>::empty());
        assert(texts(ids@) =~= start + ids_of(users_view(v@.take(0)).filter(p)));
    }
    while i < n
        invariant
            i <= n,
            n == v@.len(),
            p == expired(now),
            disconnected_by(users_view(v@), now),
            texts(ids@) == start + ids_of(users_view(v@.take(i as int)).filter(p)),
        decreases n - i,
    {
        let ghost before = ids@;
        proof {
            lemma_users_view_take_step(v@, i as int);
            users_view(v@.take(i as int)).lemma_filter_push(v@[i as int]@, p);
            assert(users_view(v@)[i as int] == v@[i as int]@);
        }
        match v[i].last_disconnect {
            Some(d) => {
                if now - d < ROOM_TIMEOUT {
                } else {
                    let id = v[i].id.clone();
                    ids.push(id);
                    proof {
                        let f = users_view(v@.take(i as int)).filter(p);
                        assert(ids_of(f.push(v@[i as int]@)) =~= ids_of(f).push(v@[i as int].id@));
                        assert(texts(ids@) =~= texts(before).push(id@));
                    }
                }
            },
            None => {},
        }
        i = i + 1;
    }
    proof {
        assert(v@.take(n as int) =~= v@);
    }
}

/// The ids, in the order of `everyone`, of the users that have been
/// disconnected for at least `ROOM_TIMEOUT` at `now`.
pub fn timed_out_users(room: &Room, now: u64) -> (ids: Vec<String>)
    requires
        disconnected_by(everyone(room@), now),
    ensures
        texts(ids@) == ids_of(everyone(room@).filter(expired(now))),
{
    let ghost r = room@;
    let ghost p = expired(now);
    let mut ids: Vec<String> = Vec::new();
    proof {
        assert(texts(ids@) =~= Seq::<Seq<char>>::empty());
        assert forall|i: int| 0 <= i < r.users.len() implies match #[trigger] r.users[i].last_disconnect {
            Some(d) => d <= now,
            None => true,
        } by {
            assert(everyone(r)[i] == r.users[i]);
        }
    }
    collect_expired(&room.users, now, &mut ids);
    match &room.djs {
        Some(z) => {
            let ghost zv = z@;
            let ghost b = zv.before.len() as int;
            proof {
                assert forall|i: int| 0 <= i < zv.before.len() implies match #[trigger] zv.before[i].last_disconnect {
                    Some(d) => d <= now,
                    None => true,
                } by {
                    assert(everyone(r)[r.users.len() + i] == zv.before[i]);
                }
                assert forall|i: int| 0 <= i < zv.after.len() implies match #[trigger] zv.after[i].last_disconnect {
                    Some(d) => d <= now,
                    None => true,
                } by {
                    assert(everyone(r)[r.users.len() + b + 1 + i] == zv.after[i]);
                }
                assert(everyone(r)[r.users.len() + b] == zv.current);
                assert(match everyone(r)[r.users.len() + b].last_disconnect {
                    Some(d) => d <= now,
                    None => true,
                });
            }
            collect_expired(&z.before, now, &mut ids);
            let ghost mid = texts(ids@);
            match z.current.last_disconnect {
                Some(d) => {
                    if now - d < ROOM_TIMEOUT {
                    } else {
                        let id = z.current.id.clone();
                        let ghost before = ids@;
                        ids.push(id);
                        assert(texts(ids@) =~= texts(before).push(id@));
                    }
                },
                None => {},
            }
            proof {
                let cur = seq![zv.current];
                reveal(Seq::filter);
                assert(cur.drop_last() =~= Seq::<UserView>::empty());
                assert(Seq::<UserView>::empty().filter(p) =~= Seq::<UserView>::empty());
                if p(zv.current) {
                    assert(cur.filter(p) =~= cur);
                    assert(ids_of(cur.filter(p)) =~= seq![zv.current.id]);
                } else {
                    assert(cur.filter(p) =~= Seq::<UserView>::empty());
                    assert(ids_of(cur.filter(p)) =~= Seq::<Seq<char>>::empty());
                }
                assert(texts(ids@) == mid + ids_of(cur.filter(p)));
            }
            collect_expired(&z.after, now, &mut ids);
            proof {
                let cur = seq![zv.current];
                Seq::filter_distributes_over_add(r.users, zv.before + cur + zv.after, p);
                Seq::filter_distributes_over_add(zv.before + cur, zv.after, p);
                Seq::filter_distributes_over_add(zv.before, cur, p);
                assert(everyone(r) =~= r.users + (zv.before + cur + zv.after));
                lemma_ids_of_add(r.users.filter(p), (zv.before + cur + zv.after).filter(p));
                lemma_ids_of_add((zv.before + cur).filter(p), zv.after.filter(p));
                lemma_ids_of_add(zv.before.filter(p), cur.filter(p));
                assert(texts(ids@) =~= ids_of(everyone(r).filter(p)));
            }
        },
        None => {
            assert(everyone(r) =~= r.users);
        },
    }
    ids
}

/// The track `playing_id` is still the one playing.
pub fn still_playing(room: &Room, playing_id: &String) -> (res: bool)
    ensures
        res == (room@.playing is Some && room@.playing->0.id == playing_id@),
{
    match &room.playing {
        Some(p) => p.id == *playing_id,
        None => false,
    }
}

/// What the server sends after handling a request.
#[derive(Debug, PartialEq, Clone)]
pub enum Reaction {
    /// The sender's connection now belongs to this user; the sender is told
    /// `Authenticated` with it.
    Authenticated(String),
    /// The sender is told the room state.
    RoomStateToSender,
    /// If a track started, everyone is told it plays (and its end is timed);
    /// then everyone is told the room state.
    RoomStateToAll { started: bool },
    /// If a track started, everyone is told it plays (and its end is timed);
    /// then everyone is told the track now playing if the track changed, or
    /// else that the user downvoted.
    Downvoted { user_id: String, outcome: DownvoteOutcome },
}

/// The room after the server handles `input` at `now`.
pub open spec fn handled_room(r: RoomView, input: Input, now: u64) -> RoomView {
    match input {
        Input::Authenticate(_) => r,
        Input::JoinRoom(user) => joined_room(r, user@),
        Input::BecomeDj(id) => started_room(dj_joined(r, id@), now),
        Input::AddTrack(id, track) => track_added_room(r, id@, track, now),
        Input::RemoveTrack(id, track_id) => track_removed_room(r, id@, track_id@, now),
        Input::Downvote(id) => downvoted_room(r, id@, now),
    }
}

/// What the server sends after it handles `input` at `now` on the room `r`.
pub open spec fn reaction_to(r: RoomView, input: Input, now: u64, reaction: Reaction) -> bool {
    match input {
        Input::Authenticate(id) => reaction == Reaction::Authenticated(id),
        Input::JoinRoom(_) => reaction == Reaction::RoomStateToSender,
        Input::BecomeDj(id) => reaction == Reaction::RoomStateToAll { started: can_start(dj_joined(r, id@)) },
        Input::AddTrack(id, track) => reaction == Reaction::RoomStateToAll {
            started: can_start(changed_user_room(r, id@, |u: UserView| with_track(u, track))),
        },
        Input::RemoveTrack(id, track_id) => reaction == Reaction::RoomStateToAll {
            started: can_start(pruned_room(changed_user_room(r, id@, |u: UserView| without_track(u, track_id@)))),
        },
        Input::Downvote(id) => match reaction {
            Reaction::Downvoted { user_id, outcome } => {
                &&& user_id@ == id@
                &&& outcome.song_changed == song_skipped(r, id@)
                &&& outcome.started == (outcome.song_changed && can_start(skipped_room(voted_room(r, id@))))
            },
            _ => false,
        },
    }
}

/// Handles a client request on the room at `now`: changes the room and
/// tells what to send.
pub fn handle_input(room: &mut Room, input: Input, now: u64) -> (reaction: Reaction)
    ensures
        final(room)@ == handled_room(old(room)@, input, now),
        reaction_to(old(room)@, input, now, reaction),
{
    match input {
        Input::Authenticate(id) => Reaction::Authenticated(id),
        Input::JoinRoom(user) => {
            join_room(room, user);
            Reaction::RoomStateToSender
        },
        Input::BecomeDj(id) => {
            let started = become_dj(room, &id, now);
            Reaction::RoomStateToAll { started: started }
        },
        Input::AddTrack(id, track) => {
            let started = add_track(room, &id, track, now);
            Reaction::RoomStateToAll { started: started }
        },
        Input::RemoveTrack(id, track_id) => {
            let started = remove_track(room, &id, track_id, now);
            Reaction::RoomStateToAll { started: started }
        },
        Input::Downvote(id) => {
            let user_id = id.clone();
            let outcome = downvote(id, room, now);
            Reaction::Downvoted { user_id: user_id, outcome: outcome }
        },
    }
}

} // verus!
