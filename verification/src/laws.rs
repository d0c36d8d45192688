//! What holds of the room logic across calls and over all inputs.
use crate::room::{
    dj_joined, lemma_first_is, next_up_room, track_added_room, is_first_with_id,
    downvoted_room, everyone, expired, has_id, has_tracks, ids_of, in_room, joined_room,
    members, next_djs_view, next_played_room, not_listed, pruned_room,
    room_with_disconnect, room_without_users, song_skipped, started_room, can_start, voted_room, with_disconnect,
    with_tracks, without_tracks, all_with_disconnect, RoomView, ZipperView,
};
use crate::shared::{
    playing_of, has_queue, next_djs_spec, pruned_djs, rotate_left, voter_count, with_vote, PlayingView, Track, User,
    UserView,
};
use vstd::prelude::*;

verus! {

broadcast use {
    vstd::seq_lib::group_to_multiset_ensures,
    vstd::multiset::group_multiset_axioms,
};

proof fn lemma_rotate_multiset<A>(s: Seq<A>)
    requires
        s.len() > 0,
    ensures
        rotate_left(s).to_multiset() == s.to_multiset(),
        rotate_left(s).len() == s.len(),
        rotate_left(s)[0] == (if s.len() > 1 { s[1] } else { s[0] }),
{
    assert(s.drop_first() =~= s.remove(0));
    vstd::seq_lib::to_multiset_remove(s, 0);
    vstd::seq_lib::to_multiset_build(s.drop_first(), s[0]);
    assert(s.to_multiset().count(s[0]) > 0);
    assert(rotate_left(s).to_multiset() =~= s.to_multiset());
}

proof fn lemma_drop_first_multiset<A>(s: Seq<A>)
    requires
        s.len() > 0,
    ensures
        s.to_multiset() == s.drop_first().to_multiset().insert(s[0]),
{
    assert(s.drop_first() =~= s.remove(0));
    vstd::seq_lib::to_multiset_remove(s, 0);
    assert(s.to_multiset().count(s[0]) > 0);
    assert(s.to_multiset() =~= s.drop_first().to_multiset().insert(s[0]));
}

/// Handing the turn on in the shared room never loses nor duplicates a DJ
/// that has something to play, never adds a DJ, leaves a DJ with something
/// to play on turn, and empties the rotation only when no DJ had anything
/// to play.
pub proof fn law_next_djs_keeps_djs_with_tracks(djs: Seq<User>)
    ensures
        forall|u: User| has_queue(u) ==> #[trigger] next_djs_spec(djs).to_multiset().count(u) == djs.to_multiset().count(u),
        forall|u: User| #[trigger] next_djs_spec(djs).to_multiset().count(u) <= djs.to_multiset().count(u),
        next_djs_spec(djs).len() > 0 ==> has_queue(next_djs_spec(djs)[0]),
        next_djs_spec(djs).len() == 0 <==> (forall|i: int| 0 <= i < djs.len() ==> !has_queue(#[trigger] djs[i])),
    decreases djs.len(),
{
    if djs.len() > 0 {
        let r = rotate_left(djs);
        lemma_rotate_multiset(djs);
        if !has_queue(r[0]) {
            law_next_djs_keeps_djs_with_tracks(r.drop_first());
            lemma_drop_first_multiset(r);
        }
        let res = next_djs_spec(djs);
        if forall|i: int| 0 <= i < djs.len() ==> !has_queue(#[trigger] djs[i]) {
            if res.len() > 0 {
                assert(res.to_multiset().count(res[0]) > 0);
                assert(djs.to_multiset().count(res[0]) > 0);
                assert(djs.contains(res[0]));
            }
        } else {
            let i = choose|i: int| 0 <= i < djs.len() && has_queue(#[trigger] djs[i]);
            assert(djs.to_multiset().count(djs[i]) > 0);
            assert(res.to_multiset().count(djs[i]) > 0);
        }
    }
}

proof fn lemma_filter_all<A>(s: Seq<A>, p: spec_fn(A) -> bool)
    requires
        forall|i: int| 0 <= i < s.len() ==> p(#[trigger] s[i]),
    ensures
        s.filter(p) == s,
    decreases s.len(),
{
    reveal(Seq::filter);
    if s.len() > 0 {
        lemma_filter_all(s.drop_last(), p);
        assert(s.drop_last().push(s.last()) =~= s);
    }
}

proof fn lemma_filter_sat<A>(s: Seq<A>, p: spec_fn(A) -> bool)
    ensures
        forall|i: int| 0 <= i < s.filter(p).len() ==> p(#[trigger] s.filter(p)[i]),
{
    assert forall|i: int| 0 <= i < s.filter(p).len() implies p(#[trigger] s.filter(p)[i]) by {
        s.lemma_filter_pred(p, i);
    }
}

/// Pruning the shared room twice is pruning it once; afterwards every DJ
/// behind the one on turn has something to play, and the one on turn has
/// something to play or a track is playing.
pub proof fn law_prune_is_idempotent(djs: Seq<User>, playing: bool)
    ensures
        pruned_djs(pruned_djs(djs, playing), playing) == pruned_djs(djs, playing),
        forall|i: int| 1 <= i < pruned_djs(djs, playing).len() ==> has_queue(#[trigger] pruned_djs(djs, playing)[i]),
        pruned_djs(djs, playing).len() > 0 ==> (has_queue(pruned_djs(djs, playing)[0]) || playing),
{
    let p = |u: User| has_queue(u);
    if djs.len() > 0 {
        let rest = djs.drop_first().filter(p);
        lemma_filter_sat(djs.drop_first(), p);
        lemma_filter_all(rest, p);
        let r = pruned_djs(djs, playing);
        if has_queue(djs[0]) || playing {
            assert((seq![djs[0]] + rest).drop_first() =~= rest);
            assert(r[0] == djs[0]);
            assert forall|i: int| 1 <= i < r.len() implies has_queue(#[trigger] r[i]) by {
                assert(r[i] == rest[i - 1]);
            }
        } else {
            if rest.len() > 0 {
                lemma_filter_all(rest.drop_first(), p);
                assert forall|i: int| 0 <= i < rest.drop_first().len() implies p(#[trigger] rest.drop_first()[i]) by {
                    assert(rest.drop_first()[i] == rest[i + 1]);
                }
                assert(seq![rest[0]] + rest.drop_first() =~= rest);
            }
        }
    }
}

/// A user's downvote counts once: voting again changes nothing, and votes
/// without repeats stay without repeats.
pub proof fn law_downvote_counts_once(p: PlayingView, id: Seq<char>)
    ensures
        with_vote(with_vote(p, id), id) == with_vote(p, id),
        with_vote(p, id).downvotes.contains(id),
        p.downvotes.no_duplicates() ==> with_vote(p, id).downvotes.no_duplicates(),
{
    if !p.downvotes.contains(id) {
        let d = p.downvotes.push(id);
        assert(d[d.len() - 1] == id);
        assert(d.contains(id));
        if p.downvotes.no_duplicates() {
            assert forall|i: int, j: int| 0 <= i < d.len() && 0 <= j < d.len() && i != j implies d[i] != d[j] by {
                if i < d.len() - 1 && j < d.len() - 1 {
                } else if i == d.len() - 1 {
                    assert(d[j] == p.downvotes[j]);
                } else {
                    assert(d[i] == p.downvotes[i]);
                }
            }
        }
    }
}

/// Handing the turn on in the server's zipper moves the focus to the next
/// DJ, cyclically, without changing the DJs or their order.
pub proof fn law_next_djs_rotates_focus<T>(z: ZipperView<T>)
    ensures
        members(next_djs_view(z)) == members(z),
        next_djs_view(z).before.len() == (z.before.len() + 1) % members(z).len(),
{
    let n = next_djs_view(z);
    let len = members(z).len();
    if z.before.len() + 1 == len {
        vstd::arithmetic::div_mod::lemma_mod_self_0(len as int);
    } else {
        vstd::arithmetic::div_mod::lemma_small_mod((z.before.len() + 1) as nat, len as nat);
    }
    if z.before.len() == 0 && z.after.len() == 0 {
    } else if z.after.len() == 0 {
        assert(members(n) =~= members(z));
    } else {
        assert(members(n) =~= members(z));
    }
}


proof fn lemma_filter_single<A>(x: A, p: spec_fn(A) -> bool)
    ensures
        seq![x].filter(p) == (if p(x) { seq![x] } else { Seq::<A>::empty() }),
{
    Seq::<A>::empty().lemma_filter_prepend(x, p);
    assert(seq![x] + Seq::<A>::empty() =~= seq![x]);
    reveal(Seq::filter);
    assert(Seq::<A>::empty().filter(p) =~= Seq::<A>::empty());
    assert((if p(x) { seq![x] } else { Seq::<A>::empty() }) + Seq::<A>::empty() =~= (if p(x) { seq![x] } else { Seq::<A>::empty() }));
}

proof fn lemma_filter_members(z: ZipperView<UserView>, p: spec_fn(UserView) -> bool)
    ensures
        members(z).filter(p) == z.before.filter(p) + seq![z.current].filter(p) + z.after.filter(p),
{
    Seq::filter_distributes_over_add(z.before + seq![z.current], z.after, p);
    Seq::filter_distributes_over_add(z.before, seq![z.current], p);
}

/// The room when its DJ on turn leaves while no DJ after it stays but some
/// DJ before it does: the turn then goes back to the first DJ and the
/// leaving DJ is kept at the end of the rotation.
pub open spec fn removal_keeps_leaving_dj(r: RoomView, ids: Seq<Seq<char>>) -> bool {
    &&& r.djs is Some
    &&& ids.contains(r.djs->0.current.id)
    &&& r.djs->0.after.filter(not_listed(ids)).len() == 0
    &&& r.djs->0.before.filter(not_listed(ids)).len() > 0
}

/// Removing users keeps everyone else in the room, in order, and no one
/// with a removed id (but when the DJ on turn leaves with no DJ after it and
/// some before it; see `removal_keeps_leaving_dj`).
pub proof fn law_removed_users_leave(r: RoomView, ids: Seq<Seq<char>>)
    requires
        !removal_keeps_leaving_dj(r, ids),
    ensures
        everyone(room_without_users(r, ids)) == everyone(r).filter(not_listed(ids)),
        forall|i: int| 0 <= i < everyone(room_without_users(r, ids)).len() ==> !ids.contains(
            #[trigger] everyone(room_without_users(r, ids))[i].id,
        ),
{
    let p = not_listed(ids);
    let res = room_without_users(r, ids);
    Seq::filter_distributes_over_add(r.users, match r.djs {
        Some(z) => members(z),
        None => Seq::empty(),
    }, p);
    match r.djs {
        None => {
            assert(everyone(r) =~= r.users);
            assert(everyone(res) =~= r.users.filter(p));
            lemma_filter_all_empty_seq(p);
        },
        Some(z) => {
            lemma_filter_members(z, p);
            lemma_filter_single(z.current, p);
            let kb = z.before.filter(p);
            let ka = z.after.filter(p);
            if ids.contains(z.current.id) {
                if kb.len() == 0 && ka.len() == 0 {
                    assert(everyone(res) =~= everyone(r).filter(p));
                } else {
                    let n = next_djs_view(ZipperView { before: kb, current: z.current, after: ka });
                    assert(ka.len() > 0);
                    assert(n.before.drop_last() =~= kb);
                    assert(seq![ka[0]] + ka.drop_first() =~= ka);
                    assert(everyone(res) =~= everyone(r).filter(p));
                }
            } else {
                assert(everyone(res) =~= everyone(r).filter(p));
            }
        },
    }
    lemma_filter_sat(everyone(r), p);
}

proof fn lemma_filter_all_empty_seq<A>(p: spec_fn(A) -> bool)
    ensures
        Seq::<A>::empty().filter(p) == Seq::<A>::empty(),
{
    reveal(Seq::filter);
    assert(Seq::<A>::empty().filter(p) =~= Seq::<A>::empty());
}

/// Once the users whose disconnect expired are removed, no one left in the
/// room has an expired disconnect (but in the case of
/// `removal_keeps_leaving_dj`).
pub proof fn law_timed_out_users_leave(r: RoomView, now: u64)
    requires
        !removal_keeps_leaving_dj(r, ids_of(everyone(r).filter(expired(now)))),
    ensures
        forall|i: int|
            0 <= i < everyone(room_without_users(r, ids_of(everyone(r).filter(expired(now))))).len()
                ==> !expired(now)(
                #[trigger] everyone(room_without_users(r, ids_of(everyone(r).filter(expired(now)))))[i],
            ),
{
    let ids = ids_of(everyone(r).filter(expired(now)));
    let res = everyone(room_without_users(r, ids));
    law_removed_users_leave(r, ids);
    assert forall|i: int| 0 <= i < res.len() implies !expired(now)(#[trigger] res[i]) by {
        let x = res[i];
        assert(!ids.contains(x.id));
        everyone(r).lemma_filter_pred(not_listed(ids), i);
        #[allow(deprecated)]
        everyone(r).filter_lemma(not_listed(ids));
        assert(everyone(r).filter(not_listed(ids)).contains(x));
        everyone(r).lemma_filter_contains_rev(not_listed(ids), x);
        if expired(now)(x) {
            let k = choose|k: int| 0 <= k < everyone(r).len() && everyone(r)[k] == x;
            everyone(r).lemma_filter_contains(expired(now), k);
            let f = everyone(r).filter(expired(now));
            let j = choose|j: int| 0 <= j < f.len() && f[j] == x;
            assert(ids[j] == x.id);
        }
    }
}

proof fn lemma_with_disconnect_keeps_ids(s: Seq<UserView>, who: Option<Seq<char>>, at: Option<u64>, id: Seq<char>)
    ensures
        has_id(all_with_disconnect(s, who, at), id) == has_id(s, id),
{
    let t = all_with_disconnect(s, who, at);
    if has_id(s, id) {
        let i = choose|i: int| 0 <= i < s.len() && s[i].id == id;
        assert(t[i].id == id);
    }
    if has_id(t, id) {
        let i = choose|i: int| 0 <= i < t.len() && t[i].id == id;
        assert(s[i].id == id);
    }
}

proof fn lemma_with_disconnect_twice(s: Seq<UserView>, id: Seq<char>)
    ensures
        all_with_disconnect(all_with_disconnect(s, Some(id), None), Some(id), None) == all_with_disconnect(s, Some(id), None),
{
    assert(all_with_disconnect(all_with_disconnect(s, Some(id), None), Some(id), None) =~= all_with_disconnect(s, Some(id), None));
}

/// Joining twice is joining once, for a user who comes connected (with no
/// disconnect time); after joining the user is in the room, and every entry
/// with its id counts as connected.
pub proof fn law_join_is_idempotent(r: RoomView, user: UserView)
    requires
        user.last_disconnect is None,
    ensures
        joined_room(joined_room(r, user), user) == joined_room(r, user),
        in_room(joined_room(r, user), user.id),
        forall|i: int| 0 <= i < everyone(joined_room(r, user)).len() && (#[trigger] everyone(joined_room(r, user))[i]).id == user.id
            ==> everyone(joined_room(r, user))[i].last_disconnect is None,
{
    let id = user.id;
    let r1 = room_with_disconnect(r, Some(id), None);
    let j = joined_room(r, user);
    lemma_with_disconnect_keeps_ids(r.users, Some(id), None, id);
    lemma_with_disconnect_twice(r.users, id);
    if r.djs is Some {
        let z = r.djs->0;
        lemma_with_disconnect_twice(z.before, id);
        lemma_with_disconnect_twice(z.after, id);
        lemma_with_disconnect_keeps_ids(z.before, Some(id), None, id);
        lemma_with_disconnect_keeps_ids(z.after, Some(id), None, id);
        let z1 = r1.djs->0;
        assert(members(z1) =~= all_with_disconnect(members(z), Some(id), None));
        lemma_with_disconnect_keeps_ids(members(z), Some(id), None, id);
    }
    if in_room(r, id) {
        assert(in_room(r1, id));
    } else {
        assert(j.users.last() == user);
        assert(has_id(j.users, id));
        assert(all_with_disconnect(r1.users.push(user), Some(id), None) =~= all_with_disconnect(r1.users, Some(id), None).push(with_disconnect(user, Some(id), None)));
        assert(with_disconnect(user, Some(id), None) == user);
    }
    assert(joined_room(j, user) =~= j);
    let e = everyone(j);
    assert forall|i: int| 0 <= i < e.len() && (#[trigger] e[i]).id == id implies e[i].last_disconnect is None by {
        let ul = j.users.len() as int;
        if i < ul {
            if !in_room(r, id) && i == ul - 1 {
            } else {
                assert(j.users[i] == r1.users[i]);
            }
        } else {
            let z = r.djs->0;
            let z1 = r1.djs->0;
            assert(members(z1) =~= all_with_disconnect(members(z), Some(id), None));
            assert(e[i] == members(z1)[i - ul]);
        }
    }
}

/// A user who downvotes again, while the track is not skipped, changes
/// nothing.
pub proof fn law_second_downvote_changes_nothing(r: RoomView, id: Seq<char>, now: u64)
    requires
        !song_skipped(r, id),
    ensures
        downvoted_room(downvoted_room(r, id, now), id, now) == downvoted_room(r, id, now),
{
    let r1 = voted_room(r, id);
    if r.playing is Some {
        law_downvote_counts_once(r.playing->0, id);
    }
    assert(voted_room(r1, id) =~= r1);
}

/// The track queued next when the turn is handed on is the one that plays
/// when the playing track ends.
pub proof fn law_queued_track_plays_next(r: RoomView, now: u64)
    requires
        r.djs is Some,
        has_tracks(next_djs_view(r.djs->0).current),
    ensures
        next_played_room(next_up_room(r), now).playing == Some(
            crate::shared::playing_of(next_djs_view(r.djs->0).current.queue[0], now),
        ),
        next_played_room(next_up_room(r), now).next_up is None,
{
}


proof fn lemma_partition_multiset<A>(s: Seq<A>, p: spec_fn(A) -> bool, q: spec_fn(A) -> bool)
    requires
        forall|x: A| #[trigger] q(x) == !p(x),
    ensures
        s.filter(p).to_multiset().add(s.filter(q).to_multiset()) == s.to_multiset(),
    decreases s.len(),
{
    if s.len() == 0 {
        reveal(Seq::filter);
        assert(s.filter(p) =~= s);
        assert(s.filter(q) =~= s);
        assert(s.to_multiset().add(s.to_multiset()) =~= s.to_multiset());
    } else {
        let t = s.drop_last();
        let x = s.last();
        lemma_partition_multiset(t, p, q);
        assert(t.push(x) =~= s);
        t.lemma_filter_push(x, p);
        t.lemma_filter_push(x, q);
        assert(s.filter(p).to_multiset().add(s.filter(q).to_multiset()) =~= s.to_multiset());
    }
}

proof fn lemma_mset_add3<A>(a: Seq<A>, b: Seq<A>, c: Seq<A>)
    ensures
        (a + b + c).to_multiset() == a.to_multiset().add(b.to_multiset()).add(c.to_multiset()),
{
    vstd::seq_lib::lemma_multiset_commutative(a + b, c);
    vstd::seq_lib::lemma_multiset_commutative(a, b);
}

/// The room when pruning keeps the DJ on turn twice: that DJ has no track,
/// nothing plays, no DJ after it has tracks but some DJ before it does.
pub open spec fn prune_keeps_idle_dj(r: RoomView) -> bool {
    &&& r.djs is Some
    &&& !has_tracks(r.djs->0.current)
    &&& r.playing is None
    &&& r.djs->0.after.filter(with_tracks()).len() == 0
    &&& r.djs->0.before.filter(with_tracks()).len() > 0
}

/// Pruning neither loses nor adds anyone to the room, and leaves only DJs
/// with tracks around the DJ on turn (but in the case of
/// `prune_keeps_idle_dj`).
pub proof fn law_prune_keeps_everyone(r: RoomView)
    requires
        !prune_keeps_idle_dj(r),
    ensures
        everyone(pruned_room(r)).to_multiset() == everyone(r).to_multiset(),
        pruned_room(r).djs matches Some(z) ==> {
            &&& forall|i: int| 0 <= i < z.before.len() ==> has_tracks(#[trigger] z.before[i])
            &&& forall|i: int| 0 <= i < z.after.len() ==> has_tracks(#[trigger] z.after[i])
        },
{
    let res = pruned_room(r);
    match r.djs {
        None => {},
        Some(z) => {
            let p = with_tracks();
            let q = without_tracks();
            let b = z.before;
            let a = z.after;
            let c = seq![z.current];
            let bk = b.filter(p);
            let ak = a.filter(p);
            let bi = b.filter(q);
            let ai = a.filter(q);
            lemma_partition_multiset(b, p, q);
            lemma_partition_multiset(a, p, q);
            lemma_filter_sat(b, p);
            lemma_filter_sat(a, p);
            let u = r.users;
            lemma_mset_add3(b, c, a);
            vstd::seq_lib::lemma_multiset_commutative(u, members(z));
            lemma_mset_add3(u, bi, ai);
            let users = u + bi + ai;
            if !has_tracks(z.current) && r.playing is None {
                vstd::seq_lib::lemma_multiset_commutative(users, c);
                assert(users.push(z.current) =~= users + c);
                if bk.len() == 0 && ak.len() == 0 {
                    assert(bk =~= Seq::<UserView>::empty());
                    assert(ak =~= Seq::<UserView>::empty());
                    assert(everyone(res) =~= users + c);
                    assert(everyone(res).to_multiset() =~= everyone(r).to_multiset());
                } else {
                    assert(ak.len() > 0);
                    let n = next_djs_view(ZipperView { before: bk, current: z.current, after: ak });
                    assert(n.before.drop_last() =~= bk);
                    let rz = res.djs->0;
                    assert(members(rz) =~= bk + seq![ak[0]] + ak.drop_first());
                    assert(seq![ak[0]] + ak.drop_first() =~= ak);
                    assert(members(rz) =~= bk + ak);
                    vstd::seq_lib::lemma_multiset_commutative(bk, ak);
                    vstd::seq_lib::lemma_multiset_commutative(users + c, members(rz));
                    assert(everyone(res) =~= (users + c) + members(rz));
                    assert(everyone(res).to_multiset() =~= everyone(r).to_multiset());
                    assert forall|i: int| 0 <= i < rz.after.len() implies has_tracks(#[trigger] rz.after[i]) by {
                        assert(rz.after[i] == ak[i + 1]);
                    }
                }
            } else {
                let rz = res.djs->0;
                lemma_mset_add3(bk, c, ak);
                vstd::seq_lib::lemma_multiset_commutative(users, members(rz));
                assert(everyone(res) =~= users + members(rz));
                assert(everyone(res).to_multiset() =~= everyone(r).to_multiset());
            }
        },
    }
}


/// Starting to play twice is starting once: once a track plays, nothing
/// else starts.
pub proof fn law_start_playing_is_idempotent(r: RoomView, now: u64)
    ensures
        started_room(started_room(r, now), now) == started_room(r, now),
        !can_start(started_room(r, now)),
{
}


/// The zipper after the turn is handed on `k` times.
pub open spec fn next_djs_times<T>(z: ZipperView<T>, k: nat) -> ZipperView<T>
    decreases k,
{
    if k == 0 {
        z
    } else {
        next_djs_view(next_djs_times(z, (k - 1) as nat))
    }
}

proof fn lemma_next_djs_times<T>(z: ZipperView<T>, k: nat)
    ensures
        members(next_djs_times(z, k)) == members(z),
        next_djs_times(z, k).before.len() == (z.before.len() + k) % members(z).len(),
    decreases k,
{
    let n = members(z).len() as int;
    if k == 0 {
        vstd::arithmetic::div_mod::lemma_small_mod(z.before.len() as nat, n as nat);
    } else {
        lemma_next_djs_times(z, (k - 1) as nat);
        let prev = next_djs_times(z, (k - 1) as nat);
        law_next_djs_rotates_focus(prev);
        let b: int = z.before.len() + k - 1;
        assert(n > 0);
        vstd::arithmetic::div_mod::lemma_add_mod_noop(b, 1int, n);
        if n > 1 {
            vstd::arithmetic::div_mod::lemma_small_mod(1nat, n as nat);
        } else {
            assert(n == 1);
            assert((b % n + 1int) % n == 0) by (nonlinear_arith)
                requires
                    n == 1,
            ;
            assert((b + 1int) % n == 0) by (nonlinear_arith)
                requires
                    n == 1,
            ;
        }
    }
}

/// A zipper is its elements with the place of its focus.
proof fn lemma_zipper_ext<T>(a: ZipperView<T>, b: ZipperView<T>)
    requires
        members(a) == members(b),
        a.before.len() == b.before.len(),
    ensures
        a == b,
{
    let k = a.before.len() as int;
    assert(a.before =~= members(a).take(k));
    assert(b.before =~= members(b).take(k));
    assert(a.current == members(a)[k]);
    assert(b.current == members(b)[k]);
    assert(a.after =~= members(a).skip(k + 1));
    assert(b.after =~= members(b).skip(k + 1));
}

/// Handing the turn on as many times as there are DJs brings the zipper
/// back to where it started.
pub proof fn law_next_djs_full_round<T>(z: ZipperView<T>)
    ensures
        next_djs_times(z, members(z).len()) == z,
{
    let n = members(z).len();
    lemma_next_djs_times(z, n);
    vstd::arithmetic::div_mod::lemma_mod_add_multiples_vanish(z.before.len() as int, n as int);
    vstd::arithmetic::div_mod::lemma_small_mod(z.before.len() as nat, n as nat);
    lemma_zipper_ext(next_djs_times(z, n), z);
}

/// Cutting the clock's milliseconds to 64 bits keeps their order while they
/// fit: a later reading gives no smaller result.
pub proof fn law_epoch_millis_monotone(earlier: u128, later: u128)
    requires
        earlier <= later,
        later < 0x1_0000_0000_0000_0000,
    ensures
        earlier as u64 <= later as u64,
        later as u64 == later,
{
    assert(earlier as u64 == earlier && later as u64 == later) by (bit_vector)
        requires
            earlier <= later,
            later < 0x1_0000_0000_0000_0000u128,
    ;
}

/// In a list of votes without repeats, the votes are the voters: their
/// number is the number of users who voted, and a vote adds its voter to
/// them once.
pub proof fn law_votes_are_voters(p: PlayingView, id: Seq<char>)
    requires
        p.downvotes.no_duplicates(),
    ensures
        p.downvotes.len() == p.downvotes.to_set().len(),
        with_vote(p, id).downvotes.to_set() == p.downvotes.to_set().insert(id),
        with_vote(p, id).downvotes.len() == with_vote(p, id).downvotes.to_set().len(),
{
    p.downvotes.unique_seq_to_set();
    law_downvote_counts_once(p, id);
    with_vote(p, id).downvotes.unique_seq_to_set();
    let d = with_vote(p, id).downvotes;
    assert forall|x: Seq<char>| d.to_set().contains(x) == p.downvotes.to_set().insert(id).contains(x) by {
        if x == id {
        } else if p.downvotes.contains(x) {
            let i = choose|i: int| 0 <= i < p.downvotes.len() && p.downvotes[i] == x;
            if !p.downvotes.contains(id) {
                assert(d[i] == x);
            }
        } else if d.contains(x) {
            let i = choose|i: int| 0 <= i < d.len() && d[i] == x;
            if !p.downvotes.contains(id) && i < p.downvotes.len() {
                assert(p.downvotes[i] == x);
            }
        }
    }
    assert(d.to_set() =~= p.downvotes.to_set().insert(id));
}


/// The voters counted by the skip threshold are the users who voted: their
/// number is the size of the set of ids in the votes, and, in a list without
/// repeats, its length.
pub proof fn law_voter_count_is_set_size(s: Seq<Seq<char>>)
    ensures
        voter_count(s) == s.to_set().len(),
        s.no_duplicates() ==> voter_count(s) == s.len(),
    decreases s.len(),
{
    broadcast use vstd::set::group_set_axioms, vstd::seq_lib::seq_to_set_is_finite;

    if s.len() > 0 {
        let t = s.drop_last();
        law_voter_count_is_set_size(t);
        assert(s.to_set() =~= t.to_set().insert(s.last())) by {
            assert forall|x: Seq<char>| s.to_set().contains(x) == t.to_set().insert(s.last()).contains(x) by {
                if s.contains(x) && x != s.last() {
                    let i = choose|i: int| 0 <= i < s.len() && s[i] == x;
                    assert(t[i] == x);
                }
                if t.contains(x) {
                    let i = choose|i: int| 0 <= i < t.len() && t[i] == x;
                    assert(s[i] == x);
                }
                assert(s[s.len() - 1] == s.last());
            }
        }
        if s.no_duplicates() {
            assert forall|i: int, j: int| 0 <= i < t.len() && 0 <= j < t.len() && i != j implies t[i] != t[j] by {
                assert(t[i] == s[i] && t[j] == s[j]);
            }
            if t.contains(s.last()) {
                let i = choose|i: int| 0 <= i < t.len() && t[i] == s.last();
                assert(s[i] == s[s.len() - 1]);
            }
        }
    } else {
        assert(s.to_set() =~= Set::<Seq<char>>::empty());
    }
}


/// The DJ after the one on turn in the turn order, cyclically: the first
/// DJ after it, else the first DJ of all, else the one on turn itself.
pub open spec fn dj_after_turn(z: ZipperView<UserView>) -> UserView {
    if z.after.len() > 0 {
        z.after[0]
    } else if z.before.len() > 0 {
        z.before[0]
    } else {
        z.current
    }
}

/// The DJs in turn order from the one after the DJ on turn on, cyclically,
/// without the DJ after the one on turn itself (which is `dj_after_turn`):
/// the DJ on turn comes last.
pub open spec fn turn_order_after(z: ZipperView<UserView>) -> Seq<UserView> {
    (z.after + z.before + seq![z.current]).drop_first()
}

/// When a downvote skips the track of a room with DJs, the turn goes to the
/// DJ after the one on turn. If that DJ has tracks, its first track plays
/// from `now` on and it keeps the turn with the rest of its queue, in order,
/// and the other DJs that have tracks follow it in the same cyclic turn
/// order as before; if it has none, nothing plays and it goes back to the
/// listeners, last.
pub proof fn law_skip_hands_turn_on(r: RoomView, id: Seq<char>, now: u64)
    requires
        r.djs is Some,
        song_skipped(r, id),
    ensures
        ({
            let n = dj_after_turn(r.djs->0);
            let res = downvoted_room(r, id, now);
            if n.queue.len() > 0 {
                &&& res.djs matches Some(z2) && z2.current == (UserView { queue: n.queue.drop_first(), ..n })
                    && seq![z2.current] + z2.after + z2.before == seq![z2.current] + turn_order_after(
                    r.djs->0,
                ).filter(|u: UserView| u.queue.len() > 0)
                &&& res.playing == Some(playing_of(n.queue[0], now))
            } else {
                &&& res.playing is None
                &&& res.users.len() > 0
                &&& res.users.last() == n
            }
        }),
{
    let z = r.djs->0;
    let n = next_djs_view(z);
    let w = |u: UserView| u.queue.len() > 0;
    assert(with_tracks() =~= w);
    assert(n.after + n.before =~= turn_order_after(z));
    Seq::filter_distributes_over_add(n.after, n.before, w);
}

/// Removing users of whom the DJ on turn is not one leaves that DJ on turn,
/// with the DJs before and after it that stay, in their order, and keeps
/// the listeners that stay, in their order.
pub proof fn law_removal_keeps_turn(r: RoomView, ids: Seq<Seq<char>>)
    requires
        r.djs is Some,
        !ids.contains(r.djs->0.current.id),
    ensures
        ({
            let z = r.djs->0;
            let stays = |u: UserView| !ids.contains(u.id);
            let res = room_without_users(r, ids);
            &&& res.djs == Some(
                ZipperView { before: z.before.filter(stays), current: z.current, after: z.after.filter(stays) },
            )
            &&& res.users == r.users.filter(stays)
        }),
{
    let stays = |u: UserView| !ids.contains(u.id);
    assert(not_listed(ids) =~= stays);
}

/// Queueing the next track hands the turn to the DJ after the one on turn
/// and takes that DJ's first track, if any, as the next one: its queue
/// keeps the rest of its tracks, in order, and the other DJs follow it in
/// the same cyclic turn order as before. Nothing else changes.
pub proof fn law_next_up_takes_first_track(r: RoomView)
    requires
        r.djs is Some,
    ensures
        ({
            let n = dj_after_turn(r.djs->0);
            let res = next_up_room(r);
            &&& res.users == r.users
            &&& res.playing == r.playing
            &&& res.djs matches Some(z2) && z2.current.id == n.id && z2.current.last_disconnect
                == n.last_disconnect && z2.after + z2.before == turn_order_after(r.djs->0) && if n.queue.len() > 0 {
                res.next_up == Some(n.queue[0]) && z2.current.queue == n.queue.drop_first()
            } else {
                res.next_up is None && z2.current.queue == n.queue
            }
        }),
{
}

/// A listener with tracks who becomes a DJ in a room with DJs joins the end
/// of the turn order: the DJs after the one on turn are followed by it, the
/// DJs before stay, the turn stays, and it leaves the listeners.
pub proof fn law_new_dj_joins_at_end(r: RoomView, id: Seq<char>, i: int, now: u64)
    requires
        r.djs is Some,
        0 <= i < r.users.len(),
        r.users[i].id == id,
        forall|j: int| 0 <= j < i ==> r.users[j].id != id,
        r.users[i].queue.len() > 0,
    ensures
        ({
            let z = r.djs->0;
            let res = started_room(dj_joined(r, id), now);
            &&& res.djs matches Some(z2) && z2.before == z.before && z2.after == z.after.push(r.users[i])
                && z2.current.id == z.current.id
            &&& res.users == r.users.filter(|u: UserView| u.id != id)
        }),
{
    lemma_first_is(r.users, id, i);
    assert(crate::room::not_id(id) =~= |u: UserView| u.id != id);
}

/// Queueing a track appends it to the queue of the user: for a listener,
/// its queue becomes its old queue followed by the track, and every other
/// listener is unchanged.
pub proof fn law_added_track_goes_last(r: RoomView, id: Seq<char>, track: Track, now: u64, i: int)
    requires
        0 <= i < r.users.len(),
        r.users[i].id == id,
        forall|j: int| 0 <= j < i ==> r.users[j].id != id,
    ensures
        ({
            let res = track_added_room(r, id, track, now);
            &&& res.users.len() == r.users.len()
            &&& res.users[i] == (UserView { queue: r.users[i].queue.push(track), ..r.users[i] })
            &&& forall|j: int| 0 <= j < r.users.len() && j != i ==> res.users[j] == r.users[j]
        }),
{
    lemma_first_is(r.users, id, i);
}

/// Queueing a track appends it to the queue of a DJ who is no listener:
/// its queue becomes its old queue followed by the track, the DJs keep
/// their places, and every other DJ is unchanged (when a DJ on turn gets the
/// track while nothing plays, the track may start at once: that case is
/// left out).
pub proof fn law_added_track_goes_last_for_djs(r: RoomView, id: Seq<char>, track: Track, now: u64, j: int)
    requires
        r.djs is Some,
        forall|k: int| 0 <= k < r.users.len() ==> r.users[k].id != id,
        is_first_with_id(members(r.djs->0), id, j),
        j != r.djs->0.before.len() || r.playing is Some,
    ensures
        ({
            let m = members(r.djs->0);
            let res = track_added_room(r, id, track, now);
            &&& res.users == r.users
            &&& res.djs is Some
            &&& members(res.djs->0).len() == m.len()
            &&& res.djs->0.before.len() == r.djs->0.before.len()
            &&& members(res.djs->0)[j] == (UserView { queue: m[j].queue.push(track), ..m[j] })
            &&& forall|k: int|
                0 <= k < m.len() && k != j && k != r.djs->0.before.len() ==> #[trigger] members(res.djs->0)[k]
                    == m[k]
        }),
{
    let z = r.djs->0;
    let b = z.before.len() as int;
    lemma_first_is(members(z), id, j);
    crate::room::lemma_first_none(r.users, id);
    let c = crate::room::changed_user_room(r, id, |u: UserView| crate::room::with_track(u, track));
    let cz = c.djs->0;
    if j < b {
        assert(members(cz) =~= members(z).update(j, crate::room::with_track(z.before[j], track)));
    } else if j == b {
        assert(members(cz) =~= members(z).update(j, crate::room::with_track(z.current, track)));
    } else {
        assert(members(cz) =~= members(z).update(j, crate::room::with_track(z.after[j - b - 1], track)));
    }
    let res = track_added_room(r, id, track, now);
    assert(res.djs->0.before == cz.before);
    assert(res.djs->0.after == cz.after);
}

} // verus!
