//! The room model shared by the server and the web client: users, their
//! queues of tracks, the track being played, and the rotation of DJs kept in
//! a double-ended queue whose front is the DJ on turn.
use std::collections::VecDeque;
use vstd::prelude::*;

verus! {

/// Cover art of a track.
#[derive(Debug, PartialEq, Clone)]
pub struct TrackArt {
    pub uri: String,
    pub height: u32,
    pub width: u32,
}

/// A track that a user has queued.
#[derive(Debug, PartialEq, Clone)]
pub struct Track {
    pub id: String,
    pub name: String,
    pub artist: String,
    pub uri: String,
    pub duration_ms: u32,
    pub artwork: TrackArt,
}

/// A listener of the room; a DJ is a user whose queue is played in turn.
#[derive(Debug, PartialEq, Clone)]
pub struct User {
    pub id: String,
    pub queue: Vec<Track>,
    pub last_disconnect: Option<u64>,
}

/// The track being played, with the time it started at and the ids of the
/// users who voted to skip it (each id at most once).
#[derive(Debug, PartialEq, Clone)]
pub struct Playing {
    pub id: String,
    pub name: String,
    pub artist: String,
    pub uri: String,
    pub duration_ms: u32,
    pub started: u64,
    pub downvotes: Vec<String>,
}

/// A room: its listeners, the DJs in turn order (front is on turn), the
/// track being played and the track queued next.
#[derive(Debug, PartialEq, Clone)]
pub struct Room {
    pub id: String,
    pub users: Vec<User>,
    pub djs: VecDeque<User>,
    pub playing: Option<Playing>,
    pub next_up: Option<Track>,
}

/// What a client asks of the server.
#[derive(Debug, PartialEq, Clone)]
pub enum Input {
    Authenticate(String),
    JoinRoom(User),
    BecomeDj(String),
    AddTrack(String, Track),
    RemoveTrack(String, String),
    Downvote(String),
}

/// What the server tells its clients.
#[derive(Debug, PartialEq, Clone)]
pub enum Output {
    Authenticated(String),
    RoomState(Room),
    Downvoted(String),
    TrackPlayed(Option<Playing>),
    NextTrackQueued(Track),
}

/// A user as the room logic sees it: the id as text, the queue, and when the
/// user's last connection went away.
pub ghost struct UserView {
    pub id: Seq<char>,
    pub queue: Seq<Track>,
    pub last_disconnect: Option<u64>,
}

impl View for User {
    type V = UserView;

    open spec fn view(&self) -> UserView {
        UserView { id: self.id@, queue: self.queue@, last_disconnect: self.last_disconnect }
    }
}

/// The track being played, its texts as character sequences and its
/// downvotes as the sequence of the voters' ids.
pub ghost struct PlayingView {
    pub id: Seq<char>,
    pub name: Seq<char>,
    pub artist: Seq<char>,
    pub uri: Seq<char>,
    pub duration_ms: u32,
    pub started: u64,
    pub downvotes: Seq<Seq<char>>,
}

/// The texts of a sequence of strings.
pub open spec fn texts(s: Seq<String>) -> Seq<Seq<char>> {
    s.map_values(|x: String| x@)
}

/// The views of a sequence of users.
pub open spec fn users_view(s: Seq<User>) -> Seq<UserView> {
    s.map_values(|u: User| u@)
}

impl View for Playing {
    type V = PlayingView;

    open spec fn view(&self) -> PlayingView {
        PlayingView {
            id: self.id@,
            name: self.name@,
            artist: self.artist@,
            uri: self.uri@,
            duration_ms: self.duration_ms,
            started: self.started,
            downvotes: texts(self.downvotes@),
        }
    }
}

/// What `Playing::new(track, started)` holds, by view.
pub open spec fn playing_of(track: Track, started: u64) -> PlayingView {
    PlayingView {
        id: track.id@,
        name: track.name@,
        artist: track.artist@,
        uri: track.uri@,
        duration_ms: track.duration_ms,
        started: started,
        downvotes: Seq::empty(),
    }
}

impl Default for TrackArt {
    fn default() -> (art: Self)
        ensures
            art.uri@ == Seq::<char>::empty(),
            art.height == 0,
            art.width == 0,
    {
        TrackArt { uri: String::new(), height: 0, width: 0 }
    }
}

impl Playing {
    /// The track `track` started playing at `started`, with no downvotes yet.
    pub fn new(track: Track, started: u64) -> (p: Self)
        ensures
            p.id == track.id,
            p.name == track.name,
            p.artist == track.artist,
            p.uri == track.uri,
            p.duration_ms == track.duration_ms,
            p.started == started,
            p.downvotes@ == Seq::<String>::empty(),
            p@ == playing_of(track, started),
    {
        assert(texts(Seq::<String>::empty()) =~= Seq::<Seq<char>>::empty());
        Playing {
            id: track.id,
            name: track.name,
            artist: track.artist,
            uri: track.uri,
            duration_ms: track.duration_ms,
            started: started,
            downvotes: Vec::new(),
        }
    }
}

/// A user has something left to play.
pub open spec fn has_queue(u: User) -> bool {
    u.queue@.len() > 0
}

/// `s` with its first element moved to the back.
pub open spec fn rotate_left<A>(s: Seq<A>) -> Seq<A> {
    if s.len() == 0 {
        s
    } else {
        s.drop_first().push(s[0])
    }
}

/// The turn order after handing the turn on: the queue is rotated by one,
/// and as long as the DJ at the front has nothing to play, that DJ leaves the
/// rotation and the queue is rotated by one again.
pub open spec fn next_djs_spec(djs: Seq<User>) -> Seq<User>
    decreases djs.len(),
{
    if djs.len() == 0 {
        djs
    } else {
        let r = rotate_left(djs);
        if has_queue(r[0]) {
            r
        } else {
            next_djs_spec(r.drop_first())
        }
    }
}

/// Hands the turn on to the next DJ that has something to play, dropping the
/// DJs without a queue that come up on turn on the way.
pub fn next_djs(djs: &mut VecDeque<User>)
    ensures
        final(djs)@ == next_djs_spec(old(djs)@),
{
    loop
        invariant_except_break
            next_djs_spec(djs@) == next_djs_spec(old(djs)@),
        ensures
            djs@ == next_djs_spec(old(djs)@),
        decreases djs@.len(),
    {
        if djs.len() == 0 {
            break;
        }
        let ghost before = djs@;
        let first = djs.pop_front().unwrap();
        djs.push_back(first);
        assert(djs@ =~= rotate_left(before));
        if djs[0].queue.len() > 0 {
            break;
        } else {
            let ghost rotated = djs@;
            djs.pop_front();
            assert(djs@ =~= rotated.drop_first());
        }
    }
}

/// The DJs after pruning: the DJs behind the one on turn lose their place if
/// they have nothing queued; the one on turn keeps it while it has something
/// queued or a track is playing.
pub open spec fn pruned_djs(djs: Seq<User>, playing: bool) -> Seq<User> {
    if djs.len() == 0 {
        djs
    } else {
        let rest = djs.drop_first().filter(|u: User| has_queue(u));
        if has_queue(djs[0]) || playing {
            seq![djs[0]] + rest
        } else {
            rest
        }
    }
}

/// Keeps in `djs` exactly the users with a queue, in their order.
fn retain_djs_with_queue(djs: &mut VecDeque<User>)
    ensures
        final(djs)@ == old(djs)@.filter(|u: User| has_queue(u)),
{
    let n = djs.len();
    let ghost orig = djs@;
    let ghost p = |u: User| has_queue(u);
    assert(orig.take(0).filter(p) =~= Seq::<User>::empty()) by {
        reveal(Seq::filter);
    }
    assert(orig.skip(0) =~= orig);
    let mut k: usize = 0;
    while k < n
        invariant
            k <= n,
            n == orig.len(),
            p == (|u: User| has_queue(u)),
            djs@ == orig.skip(k as int) + orig.take(k as int).filter(p),
        decreases n - k,
    {
        let ghost prev = djs@;
        let x = djs.pop_front().unwrap();
        assert(x == orig[k as int]);
        proof {
            orig.take(k as int).lemma_filter_push(orig[k as int], p);
            assert(orig.take(k as int).push(orig[k as int]) =~= orig.take(k + 1));
        }
        if x.queue.len() > 0 {
            djs.push_back(x);
            assert(djs@ =~= orig.skip(k + 1) + orig.take(k + 1).filter(p));
        } else {
            assert(djs@ =~= orig.skip(k + 1) + orig.take(k + 1).filter(p));
        }
        k = k + 1;
    }
    assert(orig.take(n as int) =~= orig);
    assert(djs@ =~= orig.filter(p));
}

/// Drops from the rotation the DJs that have nothing left to play, except the
/// DJ on turn while a track is playing.
pub fn prune_djs_without_queue(room: &mut Room)
    ensures
        final(room).djs@ == pruned_djs(old(room).djs@, old(room).playing is Some),
        final(room).id == old(room).id,
        final(room).users == old(room).users,
        final(room).playing == old(room).playing,
        final(room).next_up == old(room).next_up,
{
    let ghost orig = room.djs@;
    let current_dj = room.djs.pop_front();
    retain_djs_with_queue(&mut room.djs);
    match current_dj {
        Some(current_dj) => {
            if current_dj.queue.len() != 0 || room.playing.is_some() {
                room.djs.push_front(current_dj);
            }
        },
        None => {
            assert(room.djs@ =~= orig) by {
                reveal(Seq::filter);
            }
        },
    }
}


/// A downvote of the user `id`: counted once per user.
pub open spec fn with_vote(p: PlayingView, id: Seq<char>) -> PlayingView {
    if p.downvotes.contains(id) {
        p
    } else {
        PlayingView { downvotes: p.downvotes.push(id), ..p }
    }
}

/// The number of different ids in `s`: the number of users who voted.
pub open spec fn voter_count(s: Seq<Seq<char>>) -> nat
    decreases s.len(),
{
    if s.len() == 0 {
        0
    } else {
        voter_count(s.drop_last()) + if s.drop_last().contains(s.last()) {
            0nat
        } else {
            1nat
        }
    }
}

/// The number of users who voted, each counted once however often its id
/// occurs.
pub fn count_voters(votes: &Vec<String>) -> (n: usize)
    ensures
        n == voter_count(texts(votes@)),
{
    let ghost t = texts(votes@);
    let len = votes.len();
    let mut n: usize = 0;
    let mut i: usize = 0;
    assert(t.take(0) =~= Seq::<Seq<char>>::empty());
    while i < len
        invariant
            i <= len,
            len == votes@.len(),
            t == texts(votes@),
            n == voter_count(t.take(i as int)),
            n <= i,
        decreases len - i,
    {
        let mut seen = false;
        let mut j: usize = 0;
        while j < i
            invariant
                j <= i,
                i < len,
                len == votes@.len(),
                t == texts(votes@),
                seen == exists|k: int| 0 <= k < j && #[trigger] t[k] == t[i as int],
            decreases i - j,
        {
            if votes[j] == votes[i] {
                seen = true;
            }
            proof {
                if !seen {
                    assert forall|k: int| 0 <= k < j + 1 implies #[trigger] t[k] != t[i as int] by {
                        if k < j {
                            assert(!(exists|k: int| 0 <= k < j && #[trigger] t[k] == t[i as int]));
                        }
                    }
                } else if votes@[j as int]@ == votes@[i as int]@ {
                    assert(t[j as int] == t[i as int]);
                }
            }
            j = j + 1;
        }
        proof {
            let p = t.take(i + 1);
            assert(p.drop_last() =~= t.take(i as int));
            assert(p.last() == t[i as int]);
            if seen {
                let k = choose|k: int| 0 <= k < i && #[trigger] t[k] == t[i as int];
                assert(t.take(i as int)[k] == t[i as int]);
            } else {
                assert forall|k: int| 0 <= k < t.take(i as int).len() implies t.take(i as int)[k] != t[i as int] by {
                    assert(t.take(i as int)[k] == t[k]);
                }
            }
        }
        if !seen {
            n = n + 1;
        }
        i = i + 1;
    }
    assert(t.take(len as int) =~= t);
    n
}

/// Whether `id` is one of `ids`.
pub(crate) fn is_listed(ids: &Vec<String>, id: &String) -> (res: bool)
    ensures
        res == texts(ids@).contains(id@),
{
    let n = ids.len();
    let mut i: usize = 0;
    while i < n
        invariant
            i <= n,
            n == ids@.len(),
            forall|j: int| 0 <= j < i ==> ids@[j]@ != id@,
        decreases n - i,
    {
        if ids[i] == *id {
            assert(texts(ids@)[i as int] == id@);
            return true;
        }
        i = i + 1;
    }
    proof {
        if texts(ids@).contains(id@) {
            let j = choose|j: int| 0 <= j < texts(ids@).len() && texts(ids@)[j] == id@;
            assert(ids@[j]@ == id@);
        }
    }
    false
}

/// The user `user_id` votes the track down; a second vote of the same user
/// changes nothing.
pub fn add_downvote(playing: &mut Playing, user_id: String)
    ensures
        final(playing)@ == with_vote(old(playing)@, user_id@),
        final(playing)@.downvotes.contains(user_id@),
        old(playing)@.downvotes.no_duplicates() ==> final(playing)@.downvotes.no_duplicates(),
        final(playing).id == old(playing).id,
        final(playing).name == old(playing).name,
        final(playing).artist == old(playing).artist,
        final(playing).uri == old(playing).uri,
        final(playing).duration_ms == old(playing).duration_ms,
        final(playing).started == old(playing).started,
{
    if !is_listed(&playing.downvotes, &user_id) {
        let ghost v = playing.downvotes@;
        playing.downvotes.push(user_id);
        let ghost d = texts(playing.downvotes@);
        assert(d =~= texts(v).push(user_id@));
        assert(d[d.len() - 1] == user_id@);
        proof {
            if texts(v).no_duplicates() {
                assert forall|i: int, j: int| 0 <= i < d.len() && 0 <= j < d.len() && i != j implies d[i] != d[j] by {
                    if i == d.len() - 1 {
                        assert(d[j] == texts(v)[j]);
                    } else if j == d.len() - 1 {
                        assert(d[i] == texts(v)[i]);
                    } else {
                        assert(d[i] == texts(v)[i] && d[j] == texts(v)[j]);
                    }
                }
            }
        }
    }
}

/// The tracks hold the same texts and numbers.
pub open spec fn same_track(a: Track, b: Track) -> bool {
    &&& a.id@ == b.id@
    &&& a.name@ == b.name@
    &&& a.artist@ == b.artist@
    &&& a.uri@ == b.uri@
    &&& a.duration_ms == b.duration_ms
    &&& a.artwork.uri@ == b.artwork.uri@
    &&& a.artwork.height == b.artwork.height
    &&& a.artwork.width == b.artwork.width
}

/// The users hold the same id, disconnect time and tracks.
pub open spec fn same_user(a: User, b: User) -> bool {
    &&& a.id@ == b.id@
    &&& a.last_disconnect == b.last_disconnect
    &&& a.queue@.len() == b.queue@.len()
    &&& forall|i: int| 0 <= i < a.queue@.len() ==> same_track(#[trigger] a.queue@[i], b.queue@[i])
}

/// A copy of a track.
pub fn copy_track(t: &Track) -> (c: Track)
    ensures
        same_track(c, *t),
{
    Track {
        id: t.id.clone(),
        name: t.name.clone(),
        artist: t.artist.clone(),
        uri: t.uri.clone(),
        duration_ms: t.duration_ms,
        artwork: TrackArt {
            uri: t.artwork.uri.clone(),
            height: t.artwork.height,
            width: t.artwork.width,
        },
    }
}

/// A copy of a user.
pub fn copy_user(u: &User) -> (c: User)
    ensures
        same_user(c, *u),
{
    let mut queue: Vec<Track> = Vec::new();
    let n = u.queue.len();
    let mut i: usize = 0;
    while i < n
        invariant
            i <= n,
            n == u.queue@.len(),
            queue@.len() == i,
            forall|k: int| 0 <= k < i ==> same_track(#[trigger] queue@[k], u.queue@[k]),
        decreases n - i,
    {
        queue.push(copy_track(&u.queue[i]));
        i = i + 1;
    }
    User { id: u.id.clone(), queue: queue, last_disconnect: u.last_disconnect }
}


#[verifier::external_type_specification]
#[verifier::external_body]
pub struct ExSystemTime(std::time::SystemTime);

#[verifier::external_type_specification]
#[verifier::external_body]
pub struct ExSystemTimeError(std::time::SystemTimeError);

/// Calls `std::time::SystemTime::now`: the time of the system clock when it
/// is called. Nothing is stated of it: it changes from call to call.
#[verifier::external_body]
fn system_time_now() -> (t: std::time::SystemTime) {
    std::time::SystemTime::now()
}

/// Calls `SystemTime::duration_since` with `UNIX_EPOCH`: the time elapsed
/// from 1970-01-01 to `t`, or an error when `t` is earlier. Nothing is
/// stated of the result, since `t` is opaque here.
#[verifier::external_body]
fn duration_since_unix_epoch(t: &std::time::SystemTime) -> (d: Result<
    core::time::Duration,
    std::time::SystemTimeError,
>) {
    t.duration_since(std::time::UNIX_EPOCH)
}

/// Calls `Duration::as_millis`: the whole milliseconds of `d`. Nothing is
/// stated of the result, since `d` is opaque here.
#[verifier::external_body]
fn duration_as_millis(d: &core::time::Duration) -> (ms: u128) {
    d.as_millis()
}

/// A count of milliseconds cut to 64 bits: its remainder modulo 2^64.
pub fn epoch_millis(ms: u128) -> (r: u64)
    ensures
        r == ms as u64,
        r == ms % 0x1_0000_0000_0000_0000,
{
    let r = ms as u64;
    assert(ms as u64 == ms % 0x1_0000_0000_0000_0000) by (bit_vector);
    r
}

/// The milliseconds elapsed since 1970-01-01 by the system clock, cut to 64
/// bits by `epoch_millis`, or the error of a clock set before then. Which of
/// the two comes back, and the milliseconds read, depend on the clock alone.
pub fn current_unix_epoch() -> Result<u64, std::time::SystemTimeError> {
    let now = system_time_now();
    match duration_since_unix_epoch(&now) {
        Ok(d) => Ok(epoch_millis(duration_as_millis(&d))),
        Err(e) => Err(e),
    }
}

} // verus!
