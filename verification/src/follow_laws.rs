//! What holds of following many streams at once.

use crate::common::{on_path, CommonView};
use crate::connection::{ConnectionStateView, ConnectionView};
use crate::models::{StreamIdView, WebsocketMode};
use crate::pool_laws::law_candidates;
use crate::stream_laws::{
    lemma_assignments_hold, lemma_candidate_in_pool, lemma_streams_on_contains,
};
use crate::stream_setup::lemma_same_picks;
use crate::streams::{key_of, StreamsView};
use crate::subscription::{
    grouped, lemma_no_streams, lemma_places_of, places_of, streams_on, Assigned,
};
use crate::text_laws::law_key_tells_streams_apart;
use vstd::prelude::*;

verus! {

proof fn lemma_filter_members<A>(list: Seq<A>, pick: spec_fn(A) -> bool)
    ensures
        forall|j: int|
            0 <= j < list.filter(pick).len() ==> pick(#[trigger] list.filter(pick)[j])
                && list.contains(list.filter(pick)[j]),
        forall|i: int|
            0 <= i < list.len() && pick(#[trigger] list[i]) ==> list.filter(pick).contains(list[i]),
    decreases list.len(),
{
    reveal(Seq::filter);
    if list.len() > 0 {
        let rest = list.drop_last();
        lemma_filter_members(rest, pick);
        let front = rest.filter(pick);
        let all = list.filter(pick);
        assert forall|j: int| 0 <= j < all.len() implies pick(#[trigger] all[j]) && list.contains(
            all[j],
        ) by {
            if j < front.len() {
                assert(all[j] == front[j]);
                let i = choose|i: int| 0 <= i < rest.len() && rest[i] == front[j];
                assert(list[i] == all[j]);
            } else {
                assert(list[list.len() - 1] == all[j]);
            }
        }
        assert forall|i: int| 0 <= i < list.len() && pick(#[trigger] list[i]) implies all.contains(
            list[i],
        ) by {
            if i < rest.len() {
                assert(rest[i] == list[i]);
                let j = choose|j: int| 0 <= j < front.len() && front[j] == rest[i];
                assert(all[j] == list[i]);
            } else {
                assert(all[front.len() as int] == list[i]);
            }
        }
    }
}

proof fn lemma_filter_twice<A>(
    list: Seq<A>,
    first: spec_fn(A) -> bool,
    second: spec_fn(A) -> bool,
    both: spec_fn(A) -> bool,
)
    requires
        forall|a: A| #[trigger] both(a) == (first(a) && second(a)),
    ensures
        list.filter(first).filter(second) == list.filter(both),
    decreases list.len(),
{
    reveal(Seq::filter);
    if list.len() > 0 {
        let rest = list.drop_last();
        lemma_filter_twice(rest, first, second, both);
        assert(both(list.last()) == (first(list.last()) && second(list.last())));
        if first(list.last()) {
            let longer = rest.filter(first).push(list.last());
            assert(longer.drop_last() =~= rest.filter(first));
            assert(longer.last() == list.last());
        }
    }
}

/// Assigning streams touches the turn, the lists of callbacks and where streams
/// are followed, and nothing else.
proof fn lemma_assigned_shape(
    streams: StreamsView,
    names: Seq<Seq<char>>,
    url_path: Option<Seq<char>>,
)
    requires
        streams.wf(),
        streams.common.pool.len() <= usize::MAX,
    ensures
        ({
            let after = streams.after_assignments(names, url_path);
            &&& after.common.pool.len() == streams.common.pool.len()
            &&& after == (StreamsView {
                common: CommonView {
                    pool: after.common.pool,
                    round_robin_index: after.common.round_robin_index,
                    ..streams.common
                },
                connection_streams: after.connection_streams,
                ..streams
            })
            &&& forall|i: int|
                0 <= i < streams.common.pool.len() ==> #[trigger] after.common.pool[i] == (
                ConnectionView {
                    state: ConnectionStateView {
                        stream_callbacks: after.common.pool[i].state.stream_callbacks,
                        ..streams.common.pool[i].state
                    },
                    ..streams.common.pool[i]
                })
            &&& after.common.candidates(true, url_path) == streams.common.candidates(true, url_path)
        }),
    decreases names.len(),
{
    let after = streams.after_assignments(names, url_path);
    if names.len() > 0 {
        lemma_assigned_shape(streams, names.drop_last(), url_path);
        lemma_assignments_hold(streams, names.drop_last(), url_path);
        let before = streams.after_assignments(names.drop_last(), url_path);
        if before.common.candidates(true, url_path).len() > 0 {
            lemma_candidate_in_pool(before.common, url_path);
        }
        let key = key_of(names.last(), url_path);
        if before.connection_streams.contains_key(key) {
            assert(before.common.holds(before.connection_streams[key]));
        }
        assert forall|i: int| 0 <= i < streams.common.pool.len() implies #[trigger] after.common.pool[i]
            == (ConnectionView {
            state: ConnectionStateView {
                stream_callbacks: after.common.pool[i].state.stream_callbacks,
                ..streams.common.pool[i].state
            },
            ..streams.common.pool[i]
        }) by {
            assert(before.common.pool[i].id == streams.common.pool[i].id);
        }
    }
    let pick = |c: ConnectionView| c.state.ready(true) && on_path(c, url_path);
    assert forall|i: int| #![trigger after.common.pool[i]] 0 <= i < after.common.pool.len() implies pick(
        after.common.pool[i],
    ) == pick(streams.common.pool[i]) by {}
    lemma_same_picks(after.common.pool, streams.common.pool, pick);
}

/// The stream of the key is followed on the connection at `place` and stays
/// there however often it is assigned.
spec fn settled(
    streams: StreamsView,
    key: Seq<char>,
    place: usize,
    url_path: Option<Seq<char>>,
) -> bool {
    &&& streams.connection_streams.contains_key(key)
    &&& streams.connection_streams[key] == place
    &&& !streams.needs_connection(key) || (streams.common.mode == WebsocketMode::Single
        && url_path is None && place == 0)
}

proof fn lemma_assign_step(streams: StreamsView, stream: Seq<char>, url_path: Option<Seq<char>>)
    requires
        streams.wf(),
        streams.common.pool.len() <= usize::MAX,
        streams.common.candidates(true, url_path).len() > 0,
    ensures
        ({
            let after = streams.after_assignment(stream, url_path);
            let key = key_of(stream, url_path);
            &&& streams.assigned_place(stream, url_path) is Some
            &&& settled(after, key, streams.assigned_place(stream, url_path)->0, url_path)
            &&& streams.needs_connection(key) ==> streams.common.candidates(
                true,
                url_path,
            ).contains(streams.assigned_place(stream, url_path)->0 as int)
            &&& forall|other: Seq<char>, place: usize| #[trigger]
                settled(streams, other, place, url_path) ==> settled(after, other, place, url_path)
            &&& forall|other: Seq<char>|
                other != key ==> (#[trigger] after.connection_streams.contains_key(other)
                    <==> streams.connection_streams.contains_key(other))
            &&& forall|other: Seq<char>|
                other != key && #[trigger] after.connection_streams.contains_key(other)
                    ==> after.connection_streams[other] == streams.connection_streams[other]
        }),
{
    lemma_candidate_in_pool(streams.common, url_path);
    law_candidates(streams.common, true, url_path);
    let key = key_of(stream, url_path);
    let after = streams.after_assignment(stream, url_path);
    if streams.connection_streams.contains_key(key) {
        assert(streams.common.holds(streams.connection_streams[key]));
    }
    let candidates = streams.common.candidates(true, url_path);
    let turn = streams.common.round_robin_index as int % candidates.len() as int;
    assert(0 <= turn < candidates.len()) by (nonlinear_arith)
        requires
            turn == streams.common.round_robin_index as int % candidates.len() as int,
            candidates.len() > 0,
    ;
    let next = streams.common.next_candidate(true, url_path);
    assert(candidates[turn] == next);
    assert(candidates.contains(next));
    assert forall|i: int| 0 <= i < streams.common.pool.len() implies (
    #[trigger] after.common.pool[i]).state.close_initiated
        == streams.common.pool[i].state.close_initiated
        && after.common.pool[i].state.reconnection_pending
        == streams.common.pool[i].state.reconnection_pending by {}
    assert forall|other: Seq<char>, place: usize| #[trigger]
        settled(streams, other, place, url_path) implies settled(after, other, place, url_path) by {
        assert(streams.common.holds(streams.connection_streams[other]));
        assert(after.common.pool[place as int].state.close_initiated
            == streams.common.pool[place as int].state.close_initiated);
    }
    let place = streams.assigned_place(stream, url_path)->0;
    assert(after.common.pool[place as int].state.close_initiated
        == streams.common.pool[place as int].state.close_initiated);
}

/// Wherever a connection can be handed out, every stream finds the one that it
/// is followed on afterwards.
proof fn lemma_assigned(streams: StreamsView, names: Seq<Seq<char>>, url_path: Option<Seq<char>>)
    requires
        streams.wf(),
        streams.common.pool.len() <= usize::MAX,
        streams.common.candidates(true, url_path).len() > 0,
    ensures
        ({
            let after = streams.after_assignments(names, url_path);
            let assigned = streams.assignments(names, url_path);
            &&& assigned.len() == names.len()
            &&& forall|i: int|
                #![trigger assigned[i]]
                0 <= i < names.len() ==> assigned[i].0 == names[i] && settled(
                    after,
                    key_of(names[i], url_path),
                    assigned[i].1,
                    url_path,
                )
            &&& forall|key: Seq<char>, place: usize| #[trigger]
                settled(streams, key, place, url_path) ==> settled(after, key, place, url_path)
            &&& forall|key: Seq<char>| #[trigger]
                after.connection_streams.contains_key(key)
                    <==> streams.connection_streams.contains_key(key) || exists|i: int|
                    #![trigger names[i]]
                    0 <= i < names.len() && key_of(names[i], url_path) == key
            &&& forall|key: Seq<char>| #[trigger]
                streams.connection_streams.contains_key(key) && !(exists|i: int|
                    #![trigger names[i]]
                    0 <= i < names.len() && key_of(names[i], url_path) == key)
                    ==> after.connection_streams[key] == streams.connection_streams[key]
            &&& forall|key: Seq<char>| #[trigger]
                after.connection_streams.contains_key(key) ==> (
                streams.connection_streams.contains_key(key) && after.connection_streams[key]
                    == streams.connection_streams[key]) || streams.common.candidates(
                    true,
                    url_path,
                ).contains(after.connection_streams[key] as int)
        }),
    decreases names.len(),
{
    if names.len() > 0 {
        let rest = names.drop_last();
        lemma_assigned(streams, rest, url_path);
        lemma_assigned_shape(streams, rest, url_path);
        lemma_assignments_hold(streams, rest, url_path);
        let before = streams.after_assignments(rest, url_path);
        let after = streams.after_assignments(names, url_path);
        lemma_assign_step(before, names.last(), url_path);
        let front = streams.assignments(rest, url_path);
        let all = streams.assignments(names, url_path);
        let last = key_of(names.last(), url_path);
        assert(names[names.len() - 1] == names.last());
        assert forall|i: int| #![trigger all[i]] 0 <= i < names.len() implies all[i].0 == names[i]
            && settled(after, key_of(names[i], url_path), all[i].1, url_path) by {
            if i < rest.len() {
                assert(all[i] == front[i]);
                assert(rest[i] == names[i]);
                assert(settled(before, key_of(rest[i], url_path), front[i].1, url_path));
            }
        }
        assert forall|key: Seq<char>| #[trigger]
            after.connection_streams.contains_key(key)
                <==> streams.connection_streams.contains_key(key) || exists|i: int|
                #![trigger names[i]]
                0 <= i < names.len() && key_of(names[i], url_path) == key by {
            if exists|i: int|
                #![trigger rest[i]]
                0 <= i < rest.len() && key_of(rest[i], url_path) == key {
                let i = choose|i: int|
                    #![trigger rest[i]]
                    0 <= i < rest.len() && key_of(rest[i], url_path) == key;
                assert(names[i] == rest[i]);
            }
            if exists|i: int|
                #![trigger names[i]]
                0 <= i < names.len() && key_of(names[i], url_path) == key {
                let i = choose|i: int|
                    #![trigger names[i]]
                    0 <= i < names.len() && key_of(names[i], url_path) == key;
                if i < rest.len() {
                    assert(rest[i] == names[i]);
                }
            }
            assert(key != last ==> (after.connection_streams.contains_key(key)
                <==> before.connection_streams.contains_key(key)));
        }
        assert forall|key: Seq<char>| #[trigger]
            streams.connection_streams.contains_key(key) && !(exists|i: int|
                #![trigger names[i]]
                0 <= i < names.len() && key_of(names[i], url_path)
                    == key) implies after.connection_streams[key]
            == streams.connection_streams[key] by {
            if exists|i: int|
                #![trigger rest[i]]
                0 <= i < rest.len() && key_of(rest[i], url_path) == key {
                let i = choose|i: int|
                    #![trigger rest[i]]
                    0 <= i < rest.len() && key_of(rest[i], url_path) == key;
                assert(names[i] == rest[i]);
            }
            assert(before.connection_streams.contains_key(key));
            assert(after.connection_streams.contains_key(key));
        }
        assert forall|key: Seq<char>| #[trigger]
            after.connection_streams.contains_key(key) implies (
        streams.connection_streams.contains_key(key) && after.connection_streams[key]
            == streams.connection_streams[key]) || streams.common.candidates(
            true,
            url_path,
        ).contains(after.connection_streams[key] as int) by {
            if key != last {
                assert(before.connection_streams.contains_key(key));
            } else if !before.needs_connection(last) {
                assert(before.connection_streams.contains_key(key));
            }
        }
    }
}

/// Where no connection can be handed out, streams that are not followed find
/// none.
proof fn lemma_none_assigned(
    streams: StreamsView,
    names: Seq<Seq<char>>,
    url_path: Option<Seq<char>>,
)
    requires
        streams.common.candidates(true, url_path).len() == 0,
        forall|i: int|
            0 <= i < names.len() ==> !streams.connection_streams.contains_key(
                key_of(#[trigger] names[i], url_path),
            ),
    ensures
        streams.after_assignments(names, url_path) == streams,
        streams.assignments(names, url_path).len() == 0,
    decreases names.len(),
{
    if names.len() > 0 {
        let rest = names.drop_last();
        assert forall|i: int|
            0 <= i < rest.len() implies !streams.connection_streams.contains_key(
            key_of(#[trigger] rest[i], url_path),
        ) by {
            assert(rest[i] == names[i]);
        }
        lemma_none_assigned(streams, rest, url_path);
        assert(!streams.connection_streams.contains_key(
            key_of(names[names.len() - 1], url_path),
        ));
    }
}

proof fn lemma_streams_on_filter(
    assigned: Seq<Assigned>,
    names: Seq<Seq<char>>,
    place: int,
    pick: spec_fn(Seq<char>) -> bool,
)
    requires
        assigned.len() == names.len(),
        forall|i: int|
            #![trigger assigned[i]]
            0 <= i < names.len() ==> assigned[i].0 == names[i] && pick(names[i]) == (assigned[i].1
                == place),
    ensures
        streams_on(assigned, place) == names.filter(pick),
    decreases names.len(),
{
    reveal(Seq::filter);
    if names.len() > 0 {
        let rest = assigned.drop_last();
        assert forall|i: int| #![trigger rest[i]] 0 <= i < rest.len() implies rest[i].0
            == names.drop_last()[i] && pick(names.drop_last()[i]) == (rest[i].1 == place) by {
            assert(rest[i] == assigned[i]);
        }
        lemma_streams_on_filter(rest, names.drop_last(), place, pick);
        assert(assigned[assigned.len() - 1].0 == names[names.len() - 1]);
    }
}

/// The streams that a call newly follows on the connection at `place` are those
/// that were assigned to it.
proof fn lemma_newly_followed(
    streams: StreamsView,
    names: Seq<Seq<char>>,
    url_path: Option<Seq<char>>,
    place: int,
)
    requires
        streams.wf(),
        streams.common.pool.len() <= usize::MAX,
    ensures
        ({
            let fresh = streams.unfollowed(names, url_path);
            let after = streams.after_assignments(fresh, url_path);
            streams_on(streams.assignments(fresh, url_path), place) == names.filter(
                |name: Seq<char>|
                    {
                        let key = key_of(name, url_path);
                        &&& !streams.connection_streams.contains_key(key)
                        &&& after.connection_streams.contains_key(key)
                        &&& after.connection_streams[key] == place
                    },
            )
        }),
{
    let fresh = streams.unfollowed(names, url_path);
    let after = streams.after_assignments(fresh, url_path);
    let assigned = streams.assignments(fresh, url_path);
    let first = |name: Seq<char>| !streams.connection_streams.contains_key(key_of(name, url_path));
    let second = |name: Seq<char>|
        after.connection_streams.contains_key(key_of(name, url_path))
            && after.connection_streams[key_of(name, url_path)] == place;
    let both = |name: Seq<char>|
        {
            let key = key_of(name, url_path);
            &&& !streams.connection_streams.contains_key(key)
            &&& after.connection_streams.contains_key(key)
            &&& after.connection_streams[key] == place
        };
    lemma_filter_twice(names, first, second, both);
    lemma_filter_members(names, first);
    assert(fresh == names.filter(first));
    if streams.common.candidates(true, url_path).len() > 0 {
        lemma_assigned(streams, fresh, url_path);
        assert forall|i: int| #![trigger assigned[i]] 0 <= i < fresh.len() implies assigned[i].0
            == fresh[i] && second(fresh[i]) == (assigned[i].1 == place) by {
            assert(settled(after, key_of(fresh[i], url_path), assigned[i].1, url_path));
        }
        lemma_streams_on_filter(assigned, fresh, place, second);
    } else {
        assert forall|i: int|
            0 <= i < fresh.len() implies !streams.connection_streams.contains_key(
            key_of(#[trigger] fresh[i], url_path),
        ) by {
            assert(first(names.filter(first)[i]));
        }
        lemma_none_assigned(streams, fresh, url_path);
        lemma_filter_members(fresh, second);
        let kept = fresh.filter(second);
        if kept.len() > 0 {
            assert(second(kept[0]) && fresh.contains(kept[0]));
            let i = choose|i: int| 0 <= i < fresh.len() && fresh[i] == kept[0];
            assert(!streams.connection_streams.contains_key(key_of(fresh[i], url_path)));
        }
        assert(streams_on(assigned, place) =~= kept);
    }
}

proof fn lemma_can_follow(common: CommonView, url_path: Option<Seq<char>>)
    ensures
        common.candidates(true, url_path).len() > 0 <==> ((common.mode is Single
            && url_path is None) || exists|i: int|
            0 <= i < common.pool.len() && !(#[trigger] common.pool[i]).state.reconnection_pending
                && !common.pool[i].state.close_initiated && (url_path is Some
                ==> common.pool[i].state.url_path == url_path)),
{
    law_candidates(common, true, url_path);
    let candidates = common.candidates(true, url_path);
    if !(common.mode is Single && url_path is None) {
        if candidates.len() > 0 {
            assert(candidates.contains(candidates[0]));
            assert(!common.pool[candidates[0]].state.reconnection_pending);
        }
        if exists|i: int|
            0 <= i < common.pool.len() && !(#[trigger] common.pool[i]).state.reconnection_pending
                && !common.pool[i].state.close_initiated && (url_path is Some
                ==> common.pool[i].state.url_path == url_path) {
            let i = choose|i: int|
                0 <= i < common.pool.len() && !(
                #[trigger] common.pool[i]).state.reconnection_pending
                    && !common.pool[i].state.close_initiated && (url_path is Some
                    ==> common.pool[i].state.url_path == url_path);
            assert(candidates.contains(i));
        }
    }
}

proof fn lemma_subscribe_shape(
    streams: StreamsView,
    names: Seq<Seq<char>>,
    url_path: Option<Seq<char>>,
)
    requires
        streams.wf(),
        streams.common.pool.len() <= usize::MAX,
    ensures
        ({
            let middle = streams.after_assignments(streams.unfollowed(names, url_path), url_path);
            let after = streams.after_subscribe(names, url_path);
            &&& after.connection_streams == middle.connection_streams
            &&& after.common.round_robin_index == middle.common.round_robin_index
            &&& after.common.pool.len() == streams.common.pool.len()
            &&& after == (StreamsView {
                common: CommonView {
                    pool: after.common.pool,
                    round_robin_index: after.common.round_robin_index,
                    ..streams.common
                },
                connection_streams: after.connection_streams,
                ..streams
            })
            &&& forall|i: int|
                0 <= i < streams.common.pool.len() ==> #[trigger] after.common.pool[i] == (
                ConnectionView {
                    state: ConnectionStateView {
                        stream_callbacks: middle.common.pool[i].state.stream_callbacks,
                        pending_subscriptions: after.common.pool[i].state.pending_subscriptions,
                        ..streams.common.pool[i].state
                    },
                    ..streams.common.pool[i]
                })
        }),
{
    let fresh = streams.unfollowed(names, url_path);
    lemma_assigned_shape(streams, fresh, url_path);
    let middle = streams.after_assignments(fresh, url_path);
    let after = streams.after_subscribe(names, url_path);
    assert forall|i: int| 0 <= i < streams.common.pool.len() implies #[trigger] after.common.pool[i]
        == (ConnectionView {
        state: ConnectionStateView {
            stream_callbacks: middle.common.pool[i].state.stream_callbacks,
            pending_subscriptions: after.common.pool[i].state.pending_subscriptions,
            ..streams.common.pool[i].state
        },
        ..streams.common.pool[i]
    }) by {
        assert(middle.common.pool[i].id == streams.common.pool[i].id);
    }
}

/// Wherever a connection can be handed out, every stream that is asked for is
/// followed afterwards, however many there are and whatever their order. A
/// connection can be handed out where the client has a single one and no path is
/// asked for, or where one on the path is neither lost nor being closed.
pub proof fn law_subscribe_follows_all(
    streams: StreamsView,
    names: Seq<Seq<char>>,
    url_path: Option<Seq<char>>,
)
    requires
        streams.wf(),
        streams.common.pool.len() <= usize::MAX,
        (streams.common.mode is Single && url_path is None) || exists|i: int|
            0 <= i < streams.common.pool.len() && !(
            #[trigger] streams.common.pool[i]).state.reconnection_pending
                && !streams.common.pool[i].state.close_initiated && (url_path is Some
                ==> streams.common.pool[i].state.url_path == url_path),
    ensures
        forall|i: int|
            0 <= i < names.len() ==> streams.after_subscribe(
                names,
                url_path,
            ).connection_streams.contains_key(key_of(#[trigger] names[i], url_path)),
{
    lemma_can_follow(streams.common, url_path);
    let first = |name: Seq<char>| !streams.connection_streams.contains_key(key_of(name, url_path));
    let fresh = streams.unfollowed(names, url_path);
    assert(fresh == names.filter(first));
    lemma_filter_members(names, first);
    lemma_assigned(streams, fresh, url_path);
    lemma_subscribe_shape(streams, names, url_path);
    let after = streams.after_assignments(fresh, url_path);
    assert forall|i: int| 0 <= i < names.len() implies after.connection_streams.contains_key(
        key_of(#[trigger] names[i], url_path),
    ) by {
        let key = key_of(names[i], url_path);
        if first(names[i]) {
            assert(fresh.contains(names[i]));
            let j = choose|j: int| 0 <= j < fresh.len() && fresh[j] == names[i];
            assert(key_of(fresh[j], url_path) == key);
        }
    }
}

/// What a call follows is what it was asked for, on top of what was followed: no
/// other stream, and none that was followed moves. A new stream is on a
/// connection that can be handed out for it.
pub proof fn law_subscribe_follows_no_other(
    streams: StreamsView,
    names: Seq<Seq<char>>,
    url_path: Option<Seq<char>>,
    key: Seq<char>,
)
    requires
        streams.wf(),
        streams.common.pool.len() <= usize::MAX,
    ensures
        ({
            let after = streams.after_subscribe(names, url_path).connection_streams;
            &&& streams.connection_streams.contains_key(key) ==> after.contains_key(key)
                && after[key] == streams.connection_streams[key]
            &&& after.contains_key(key) && !streams.connection_streams.contains_key(key)
                ==> exists|i: int|
                0 <= i < names.len() && key_of(#[trigger] names[i], url_path) == key
            &&& after.contains_key(key) && !streams.connection_streams.contains_key(key) ==> (
            streams.common.mode is Single && url_path is None && after[key] == 0) || (after[key]
                < streams.common.pool.len() && !streams.common.pool[after[key] as int].state.reconnection_pending
                && !streams.common.pool[after[key] as int].state.close_initiated && (
            url_path is Some ==> streams.common.pool[after[key] as int].state.url_path == url_path))
        }),
{
    let first = |name: Seq<char>| !streams.connection_streams.contains_key(key_of(name, url_path));
    let fresh = streams.unfollowed(names, url_path);
    assert(fresh == names.filter(first));
    lemma_filter_members(names, first);
    lemma_subscribe_shape(streams, names, url_path);
    assert forall|i: int| 0 <= i < fresh.len() implies !streams.connection_streams.contains_key(
        key_of(#[trigger] fresh[i], url_path),
    ) by {
        assert(first(names.filter(first)[i]));
    }
    if streams.common.candidates(true, url_path).len() > 0 {
        lemma_assigned(streams, fresh, url_path);
        law_candidates(streams.common, true, url_path);
        let after = streams.after_subscribe(names, url_path).connection_streams;
        if after.contains_key(key) && !streams.connection_streams.contains_key(key) {
            let i = choose|i: int|
                #![trigger fresh[i]]
                0 <= i < fresh.len() && key_of(fresh[i], url_path) == key;
            assert(names.contains(fresh[i]));
            let j = choose|j: int| 0 <= j < names.len() && names[j] == fresh[i];
            assert(key_of(names[j], url_path) == key);
            assert(streams.common.candidates(true, url_path).contains(after[key] as int));
        }
    } else {
        lemma_none_assigned(streams, fresh, url_path);
    }
}

/// Where no connection can be handed out, asking for streams changes nothing and
/// asks the server for nothing.
pub proof fn law_subscribe_without_connection(
    streams: StreamsView,
    names: Seq<Seq<char>>,
    id: Option<StreamIdView>,
    url_path: Option<Seq<char>>,
)
    requires
        !(streams.common.mode is Single && url_path is None),
        forall|i: int|
            0 <= i < streams.common.pool.len() && (url_path is Some
                ==> streams.common.pool[i].state.url_path == url_path) ==> (
            #[trigger] streams.common.pool[i]).state.reconnection_pending
                || streams.common.pool[i].state.close_initiated,
    ensures
        streams.after_subscribe(names, url_path) == streams,
        streams.subscriptions(names, id, url_path).len() == 0,
{
    lemma_can_follow(streams.common, url_path);
    let first = |name: Seq<char>| !streams.connection_streams.contains_key(key_of(name, url_path));
    let fresh = streams.unfollowed(names, url_path);
    assert(fresh == names.filter(first));
    lemma_filter_members(names, first);
    assert forall|i: int| 0 <= i < fresh.len() implies !streams.connection_streams.contains_key(
        key_of(#[trigger] fresh[i], url_path),
    ) by {
        assert(first(names.filter(first)[i]));
    }
    lemma_none_assigned(streams, fresh, url_path);
    let assigned = streams.assignments(fresh, url_path);
    assert(assigned =~= Seq::<Assigned>::empty());
    let after = streams.with_queued(assigned);
    assert forall|i: int| 0 <= i < streams.common.pool.len() implies after.common.pool[i]
        == streams.common.pool[i] by {
        let state = streams.common.state(i);
        assert(state.pending_subscriptions + streams_on(assigned, i)
            =~= state.pending_subscriptions);
    }
    assert(after.common.pool =~= streams.common.pool);
    assert(after =~= streams);
    reveal(Seq::filter);
    assert(grouped(assigned) =~= Seq::<(usize, Seq<Seq<char>>)>::empty());
}

proof fn lemma_distinct_filter(
    groups: Seq<(usize, Seq<Seq<char>>)>,
    pick: spec_fn((usize, Seq<Seq<char>>)) -> bool,
)
    requires
        forall|i: int, j: int|
            0 <= i < j < groups.len() ==> (#[trigger] groups[i]).0 != (#[trigger] groups[j]).0,
    ensures
        forall|i: int, j: int|
            0 <= i < j < groups.filter(pick).len() ==> (#[trigger] groups.filter(pick)[i]).0 != (
            #[trigger] groups.filter(pick)[j]).0,
    decreases groups.len(),
{
    reveal(Seq::filter);
    if groups.len() > 0 {
        let rest = groups.drop_last();
        assert forall|i: int, j: int| 0 <= i < j < rest.len() implies (#[trigger] rest[i]).0 != (
        #[trigger] rest[j]).0 by {
            assert(groups[i].0 != groups[j].0);
        }
        lemma_distinct_filter(rest, pick);
        lemma_filter_members(rest, pick);
        let front = rest.filter(pick);
        let all = groups.filter(pick);
        assert forall|i: int, j: int| 0 <= i < j < all.len() implies (#[trigger] all[i]).0 != (
        #[trigger] all[j]).0 by {
            assert(all[i] == front[i]);
            if j < front.len() {
                assert(all[j] == front[j]);
            } else {
                assert(rest.contains(front[i]));
                let k = choose|k: int| 0 <= k < rest.len() && rest[k] == front[i];
                assert(groups[k].0 != groups[groups.len() - 1].0);
            }
        }
    }
}

/// The requests of a call are the groups of streams whose connections can be
/// used.
proof fn lemma_requests(
    streams: StreamsView,
    names: Seq<Seq<char>>,
    id: Option<StreamIdView>,
    url_path: Option<Seq<char>>,
)
    requires
        streams.wf(),
        streams.common.pool.len() <= usize::MAX,
    ensures
        ({
            let fresh = streams.unfollowed(names, url_path);
            let assigned = streams.assignments(fresh, url_path);
            let middle = streams.after_assignments(fresh, url_path);
            let asked = streams.subscriptions(names, id, url_path);
            &&& forall|g: int|
                0 <= g < asked.len() ==> {
                    let place = (#[trigger] asked[g]).connection;
                    &&& places_of(assigned).contains(place)
                    &&& place < streams.common.pool.len()
                    &&& middle.common.state(place as int).ready(false)
                    &&& asked[g].streams == streams_on(assigned, place as int)
                    &&& asked[g].id == id
                }
            &&& forall|g: int, h: int|
                0 <= g < h < asked.len() ==> (#[trigger] asked[g]).connection != (
                #[trigger] asked[h]).connection
            &&& forall|place: usize| #[trigger]
                places_of(assigned).contains(place) && middle.common.state(place as int).ready(
                    false,
                ) ==> exists|g: int|
                    0 <= g < asked.len() && (#[trigger] asked[g]).connection == place
        }),
{
    let fresh = streams.unfollowed(names, url_path);
    let assigned = streams.assignments(fresh, url_path);
    let middle = streams.after_assignments(fresh, url_path);
    let asked = streams.subscriptions(names, id, url_path);
    let groups = grouped(assigned);
    let usable = |group: (usize, Seq<Seq<char>>)|
        middle.common.state(group.0 as int).ready(false);
    let sent = middle.sendable(assigned);
    assert(sent == groups.filter(usable));
    lemma_places_of(assigned);
    lemma_assignments_hold(streams, fresh, url_path);
    lemma_filter_members(groups, usable);
    let seen = places_of(assigned);
    assert forall|i: int, j: int| 0 <= i < j < groups.len() implies (#[trigger] groups[i]).0 != (
    #[trigger] groups[j]).0 by {
        assert(seen[i] != seen[j]);
    }
    lemma_distinct_filter(groups, usable);
    assert(asked.len() == sent.len());
    assert forall|g: int| 0 <= g < asked.len() implies {
        let place = (#[trigger] asked[g]).connection;
        &&& places_of(assigned).contains(place)
        &&& place < streams.common.pool.len()
        &&& middle.common.state(place as int).ready(false)
        &&& asked[g].streams == streams_on(assigned, place as int)
        &&& asked[g].id == id
    } by {
        assert(usable(groups.filter(usable)[g]));
        assert(groups.contains(sent[g]));
        let k = choose|k: int| 0 <= k < groups.len() && groups[k] == sent[g];
        assert(groups[k] == (seen[k], streams_on(assigned, seen[k] as int)));
        assert(seen.contains(seen[k]));
        let j = choose|j: int|
            #![trigger assigned[j]]
            0 <= j < assigned.len() && assigned[j].1 == seen[k];
        assert(streams.common.holds(assigned[j].1));
    }
    assert forall|g: int, h: int| 0 <= g < h < asked.len() implies (#[trigger] asked[g]).connection
        != (#[trigger] asked[h]).connection by {
        assert(sent[g].0 != sent[h].0);
    }
    assert forall|place: usize| #[trigger]
        places_of(assigned).contains(place) && middle.common.state(place as int).ready(
            false,
        ) implies exists|g: int|
        0 <= g < asked.len() && (#[trigger] asked[g]).connection == place by {
        let k = choose|k: int| 0 <= k < seen.len() && seen[k] == place;
        assert(groups[k].0 == place);
        assert(usable(groups[k]));
        let g = choose|g: int| 0 <= g < sent.len() && sent[g] == groups[k];
        assert(asked[g].connection == place);
    }
}

/// Each connection deals with exactly the streams that a call newly follows on
/// it, in the order in which they were asked for. A connection that is open and
/// neither lost nor being closed keeps none for later: all of them are asked of
/// the server in one request with the given identifier, and there is no request
/// where there are none. Any other connection keeps all of them for later,
/// behind what it kept before, and nothing is asked of the server on it.
pub proof fn law_subscribe_on_each_connection(
    streams: StreamsView,
    names: Seq<Seq<char>>,
    id: Option<StreamIdView>,
    url_path: Option<Seq<char>>,
    place: int,
)
    requires
        streams.wf(),
        streams.common.pool.len() <= usize::MAX,
        0 <= place < streams.common.pool.len(),
    ensures
        ({
            let after = streams.after_subscribe(names, url_path);
            let asked = streams.subscriptions(names, id, url_path);
            let state = streams.common.pool[place].state;
            let kept = after.common.pool[place].state.pending_subscriptions;
            let usable = state.ws_write_tx is Some && !state.reconnection_pending
                && !state.close_initiated;
            let added = names.filter(
                |name: Seq<char>|
                    {
                        let key = key_of(name, url_path);
                        &&& !streams.connection_streams.contains_key(key)
                        &&& after.connection_streams.contains_key(key)
                        &&& after.connection_streams[key] == place
                    },
            );
            &&& usable ==> kept == state.pending_subscriptions
            &&& !usable ==> kept == state.pending_subscriptions + added
            &&& usable && added.len() > 0 ==> exists|g: int|
                0 <= g < asked.len() && (#[trigger] asked[g]).connection == place
                    && asked[g].streams == added && asked[g].id == id
            &&& !usable || added.len() == 0 ==> forall|g: int|
                0 <= g < asked.len() ==> (#[trigger] asked[g]).connection != place
        }),
{
    let fresh = streams.unfollowed(names, url_path);
    let assigned = streams.assignments(fresh, url_path);
    let middle = streams.after_assignments(fresh, url_path);
    let after = streams.after_subscribe(names, url_path);
    let asked = streams.subscriptions(names, id, url_path);
    lemma_subscribe_shape(streams, names, url_path);
    lemma_assigned_shape(streams, fresh, url_path);
    lemma_newly_followed(streams, names, url_path, place);
    lemma_requests(streams, names, id, url_path);
    lemma_places_of(assigned);
    let added = streams_on(assigned, place);
    assert(middle.common.pool[place].state.ws_write_tx
        == streams.common.pool[place].state.ws_write_tx);
    assert(after.common.pool[place] == middle.with_queued(assigned).common.pool[place]);
    if added.len() > 0 {
        if !places_of(assigned).contains(place as usize) {
            lemma_no_streams(assigned, place as usize);
        }
    } else {
        if places_of(assigned).contains(place as usize) {
            let k = choose|k: int|
                #![trigger assigned[k]]
                0 <= k < assigned.len() && assigned[k].1 == place as usize;
            lemma_streams_on_contains(assigned, k);
        }
    }
}

/// Every request of a call is for a connection that is open and neither lost nor
/// being closed, carries the given identifier and at least one stream, and no
/// two are for the same connection.
pub proof fn law_subscribe_requests(
    streams: StreamsView,
    names: Seq<Seq<char>>,
    id: Option<StreamIdView>,
    url_path: Option<Seq<char>>,
)
    requires
        streams.wf(),
        streams.common.pool.len() <= usize::MAX,
    ensures
        ({
            let asked = streams.subscriptions(names, id, url_path);
            &&& forall|g: int|
                0 <= g < asked.len() ==> {
                    let place = (#[trigger] asked[g]).connection as int;
                    &&& place < streams.common.pool.len()
                    &&& streams.common.pool[place].state.ws_write_tx is Some
                    &&& !streams.common.pool[place].state.reconnection_pending
                    &&& !streams.common.pool[place].state.close_initiated
                    &&& asked[g].streams.len() > 0
                    &&& asked[g].id == id
                }
            &&& forall|g: int, h: int|
                0 <= g < h < asked.len() ==> (#[trigger] asked[g]).connection != (
                #[trigger] asked[h]).connection
        }),
{
    let fresh = streams.unfollowed(names, url_path);
    let assigned = streams.assignments(fresh, url_path);
    let middle = streams.after_assignments(fresh, url_path);
    let asked = streams.subscriptions(names, id, url_path);
    lemma_assigned_shape(streams, fresh, url_path);
    lemma_requests(streams, names, id, url_path);
    lemma_places_of(assigned);
    assert forall|g: int| 0 <= g < asked.len() implies {
        let place = (#[trigger] asked[g]).connection as int;
        &&& place < streams.common.pool.len()
        &&& streams.common.pool[place].state.ws_write_tx is Some
        &&& !streams.common.pool[place].state.reconnection_pending
        &&& !streams.common.pool[place].state.close_initiated
        &&& asked[g].streams.len() > 0
        &&& asked[g].id == id
    } by {
        let place = asked[g].connection as int;
        assert(middle.common.pool[place].state.ws_write_tx
            == streams.common.pool[place].state.ws_write_tx);
        let k = choose|k: int|
            #![trigger assigned[k]]
            0 <= k < assigned.len() && assigned[k].1 == asked[g].connection;
        lemma_streams_on_contains(assigned, k);
    }
}

/// A stream that was not followed and is asked for, wherever a connection can be
/// handed out, is in a request for the connection that it is followed on
/// afterwards, or among the streams that this connection keeps for later: the
/// first where the connection is open and neither lost nor being closed, the
/// second everywhere else.
pub proof fn law_subscribe_asks_or_keeps_each(
    streams: StreamsView,
    names: Seq<Seq<char>>,
    id: Option<StreamIdView>,
    url_path: Option<Seq<char>>,
    i: int,
)
    requires
        streams.wf(),
        streams.common.pool.len() <= usize::MAX,
        (streams.common.mode is Single && url_path is None) || exists|j: int|
            0 <= j < streams.common.pool.len() && !(
            #[trigger] streams.common.pool[j]).state.reconnection_pending
                && !streams.common.pool[j].state.close_initiated && (url_path is Some
                ==> streams.common.pool[j].state.url_path == url_path),
        0 <= i < names.len(),
        !streams.connection_streams.contains_key(key_of(names[i], url_path)),
    ensures
        ({
            let after = streams.after_subscribe(names, url_path);
            let asked = streams.subscriptions(names, id, url_path);
            let place = after.connection_streams[key_of(names[i], url_path)] as int;
            let state = streams.common.pool[place].state;
            &&& 0 <= place < streams.common.pool.len()
            &&& if state.ws_write_tx is Some && !state.reconnection_pending
                && !state.close_initiated {
                exists|g: int|
                    0 <= g < asked.len() && (#[trigger] asked[g]).connection == place
                        && asked[g].streams.contains(names[i])
            } else {
                after.common.pool[place].state.pending_subscriptions.contains(names[i])
            }
        }),
{
    let after = streams.after_subscribe(names, url_path);
    let asked = streams.subscriptions(names, id, url_path);
    let key = key_of(names[i], url_path);
    let place = after.connection_streams[key] as int;
    law_subscribe_follows_all(streams, names, url_path);
    law_subscribe_follows_no_other(streams, names, url_path, key);
    law_subscribe_on_each_connection(streams, names, id, url_path, place);
    let here = |name: Seq<char>|
        {
            let key = key_of(name, url_path);
            &&& !streams.connection_streams.contains_key(key)
            &&& after.connection_streams.contains_key(key)
            &&& after.connection_streams[key] == place
        };
    lemma_filter_members(names, here);
    let added = names.filter(here);
    assert(here(names[i]));
    assert(added.contains(names[i]));
    let state = streams.common.pool[place].state;
    let j = choose|j: int| 0 <= j < added.len() && added[j] == names[i];
    assert((state.pending_subscriptions + added)[state.pending_subscriptions.len() + j]
        == names[i]);
}

/// Assigning streams gives each connection an empty list of callbacks for the
/// streams that it got and had none for, and leaves every list that was there.
proof fn lemma_lists(
    streams: StreamsView,
    names: Seq<Seq<char>>,
    url_path: Option<Seq<char>>,
    place: int,
    key: Seq<char>,
)
    requires
        streams.wf(),
        streams.common.pool.len() <= usize::MAX,
        0 <= place < streams.common.pool.len(),
    ensures
        ({
            let assigned = streams.assignments(names, url_path);
            let before = streams.common.pool[place].state.stream_callbacks;
            let after = streams.after_assignments(
                names,
                url_path,
            ).common.pool[place].state.stream_callbacks;
            &&& after.contains_key(key) <==> before.contains_key(key) || exists|i: int|
                #![trigger assigned[i]]
                0 <= i < assigned.len() && assigned[i].1 == place && key_of(assigned[i].0, url_path)
                    == key
            &&& before.contains_key(key) ==> after[key] == before[key]
            &&& !before.contains_key(key) && after.contains_key(key) ==> after[key].len() == 0
        }),
    decreases names.len(),
{
    if names.len() > 0 {
        let rest = names.drop_last();
        lemma_lists(streams, rest, url_path, place, key);
        lemma_assignments_hold(streams, rest, url_path);
        let before = streams.after_assignments(rest, url_path);
        if before.common.candidates(true, url_path).len() > 0 {
            lemma_candidate_in_pool(before.common, url_path);
        }
        let last = key_of(names.last(), url_path);
        if before.connection_streams.contains_key(last) {
            assert(before.common.holds(before.connection_streams[last]));
        }
        let front = streams.assignments(rest, url_path);
        let all = streams.assignments(names, url_path);
        if exists|i: int|
            #![trigger front[i]]
            0 <= i < front.len() && front[i].1 == place && key_of(front[i].0, url_path) == key {
            let i = choose|i: int|
                #![trigger front[i]]
                0 <= i < front.len() && front[i].1 == place && key_of(front[i].0, url_path) == key;
            assert(all[i] == front[i]);
        }
        if exists|i: int|
            #![trigger all[i]]
            0 <= i < all.len() && all[i].1 == place && key_of(all[i].0, url_path) == key {
            let i = choose|i: int|
                #![trigger all[i]]
                0 <= i < all.len() && all[i].1 == place && key_of(all[i].0, url_path) == key;
            if i < front.len() {
                assert(all[i] == front[i]);
            }
        }
        if before.assigned_place(names.last(), url_path) is Some {
            assert(all[front.len() as int] == (
                names.last(),
                before.assigned_place(names.last(), url_path)->0,
            ));
        }
    }
}

/// Asking for streams leaves every connection as it was but for the streams that
/// it keeps for later and the lists of callbacks. A connection gets an empty list
/// for each stream that is newly followed on it, where it had none; no list that
/// was there is touched. Of the client nothing changes besides but the turn and
/// where streams are followed.
pub proof fn law_subscribe_leaves_the_rest(
    streams: StreamsView,
    names: Seq<Seq<char>>,
    url_path: Option<Seq<char>>,
    place: int,
    key: Seq<char>,
)
    requires
        streams.wf(),
        streams.common.pool.len() <= usize::MAX,
        0 <= place < streams.common.pool.len(),
    ensures
        ({
            let after = streams.after_subscribe(names, url_path);
            let state = streams.common.pool[place].state;
            let now = after.common.pool[place].state;
            &&& after == (StreamsView {
                common: CommonView {
                    pool: after.common.pool,
                    round_robin_index: after.common.round_robin_index,
                    ..streams.common
                },
                connection_streams: after.connection_streams,
                ..streams
            })
            &&& after.common.pool.len() == streams.common.pool.len()
            &&& after.common.pool[place].id == streams.common.pool[place].id
            &&& now == (ConnectionStateView {
                stream_callbacks: now.stream_callbacks,
                pending_subscriptions: now.pending_subscriptions,
                ..state
            })
            &&& now.stream_callbacks.contains_key(key) <==> state.stream_callbacks.contains_key(key)
                || (!streams.connection_streams.contains_key(key)
                && after.connection_streams.contains_key(key) && after.connection_streams[key]
                == place)
            &&& state.stream_callbacks.contains_key(key) ==> now.stream_callbacks[key]
                == state.stream_callbacks[key]
            &&& !state.stream_callbacks.contains_key(key) && now.stream_callbacks.contains_key(key)
                ==> now.stream_callbacks[key].len() == 0
        }),
{
    let first = |name: Seq<char>| !streams.connection_streams.contains_key(key_of(name, url_path));
    let fresh = streams.unfollowed(names, url_path);
    let assigned = streams.assignments(fresh, url_path);
    let after = streams.after_subscribe(names, url_path);
    assert(fresh == names.filter(first));
    lemma_filter_members(names, first);
    lemma_subscribe_shape(streams, names, url_path);
    lemma_lists(streams, fresh, url_path, place, key);
    assert forall|i: int| 0 <= i < fresh.len() implies !streams.connection_streams.contains_key(
        key_of(#[trigger] fresh[i], url_path),
    ) by {
        assert(first(names.filter(first)[i]));
    }
    if streams.common.candidates(true, url_path).len() > 0 {
        lemma_assigned(streams, fresh, url_path);
        if exists|i: int|
            #![trigger assigned[i]]
            0 <= i < assigned.len() && assigned[i].1 == place && key_of(assigned[i].0, url_path)
                == key {
            let i = choose|i: int|
                #![trigger assigned[i]]
                0 <= i < assigned.len() && assigned[i].1 == place && key_of(assigned[i].0, url_path)
                    == key;
            assert(assigned[i].0 == fresh[i]);
        }
        if !streams.connection_streams.contains_key(key) && after.connection_streams.contains_key(
            key,
        ) && after.connection_streams[key] == place {
            let i = choose|i: int|
                #![trigger fresh[i]]
                0 <= i < fresh.len() && key_of(fresh[i], url_path) == key;
            assert(assigned[i].0 == fresh[i]);
            assert(assigned[i].1 == place);
        }
    } else {
        lemma_none_assigned(streams, fresh, url_path);
    }
}

proof fn lemma_turns(streams: StreamsView, names: Seq<Seq<char>>, url_path: Option<Seq<char>>)
    requires
        streams.wf(),
        streams.common.pool.len() <= usize::MAX,
        streams.common.candidates(true, url_path).len() > 0,
        names.no_duplicates(),
        forall|i: int|
            0 <= i < names.len() ==> !streams.connection_streams.contains_key(
                key_of(#[trigger] names[i], url_path),
            ),
        streams.common.round_robin_index + names.len() <= usize::MAX,
    ensures
        ({
            let candidates = streams.common.candidates(true, url_path);
            let assigned = streams.assignments(names, url_path);
            let turn = streams.common.round_robin_index as int;
            &&& assigned.len() == names.len()
            &&& streams.after_assignments(names, url_path).common.round_robin_index == turn
                + names.len()
            &&& forall|i: int|
                #![trigger assigned[i]]
                0 <= i < names.len() ==> assigned[i].1 == candidates[(turn + i)
                    % candidates.len() as int]
        }),
    decreases names.len(),
{
    lemma_assigned(streams, names, url_path);
    if names.len() > 0 {
        let rest = names.drop_last();
        assert forall|i: int|
            0 <= i < rest.len() implies !streams.connection_streams.contains_key(
            key_of(#[trigger] rest[i], url_path),
        ) by {
            assert(rest[i] == names[i]);
        }
        lemma_turns(streams, rest, url_path);
        lemma_assigned(streams, rest, url_path);
        lemma_assigned_shape(streams, rest, url_path);
        lemma_assignments_hold(streams, rest, url_path);
        let before = streams.after_assignments(rest, url_path);
        lemma_candidate_in_pool(before.common, url_path);
        let last = key_of(names.last(), url_path);
        assert(!streams.connection_streams.contains_key(
            key_of(names[names.len() - 1], url_path),
        ));
        if before.connection_streams.contains_key(last) {
            let i = choose|i: int|
                #![trigger rest[i]]
                0 <= i < rest.len() && key_of(rest[i], url_path) == last;
            law_key_tells_streams_apart(rest[i], names.last(), url_path);
            assert(names[i] == names[names.len() - 1]);
        }
        let front = streams.assignments(rest, url_path);
        let all = streams.assignments(names, url_path);
        let candidates = streams.common.candidates(true, url_path);
        let turn = streams.common.round_robin_index as int;
        assert forall|i: int| #![trigger all[i]] 0 <= i < names.len() implies all[i].1
            == candidates[(turn + i) % candidates.len() as int] by {
            if i < rest.len() {
                assert(all[i] == front[i]);
            }
        }
    }
}

proof fn lemma_filter_all<A>(list: Seq<A>, pick: spec_fn(A) -> bool)
    requires
        forall|i: int| 0 <= i < list.len() ==> pick(#[trigger] list[i]),
    ensures
        list.filter(pick) == list,
    decreases list.len(),
{
    reveal(Seq::filter);
    if list.len() > 0 {
        let rest = list.drop_last();
        assert forall|i: int| 0 <= i < rest.len() implies pick(#[trigger] rest[i]) by {
            assert(rest[i] == list[i]);
        }
        lemma_filter_all(rest, pick);
        assert(pick(list[list.len() - 1]));
        assert(rest.push(list.last()) =~= list);
    }
}

/// Streams that are newly followed take turns: with different names, the first
/// goes to the connection whose turn it is, each other one to the next, and the
/// turn moves on by as many as there are, as far as it has not wrapped around.
pub proof fn law_streams_take_turns(
    streams: StreamsView,
    names: Seq<Seq<char>>,
    url_path: Option<Seq<char>>,
)
    requires
        streams.wf(),
        streams.common.pool.len() <= usize::MAX,
        streams.common.candidates(true, url_path).len() > 0,
        names.no_duplicates(),
        forall|i: int|
            0 <= i < names.len() ==> !streams.connection_streams.contains_key(
                key_of(#[trigger] names[i], url_path),
            ),
        streams.common.round_robin_index + names.len() <= usize::MAX,
    ensures
        ({
            let candidates = streams.common.candidates(true, url_path);
            let after = streams.after_subscribe(names, url_path);
            let turn = streams.common.round_robin_index as int;
            &&& after.common.round_robin_index == turn + names.len()
            &&& forall|i: int|
                0 <= i < names.len() ==> after.connection_streams[key_of(
                    #[trigger] names[i],
                    url_path,
                )] == candidates[(turn + i) % candidates.len() as int]
        }),
{
    let first = |name: Seq<char>| !streams.connection_streams.contains_key(key_of(name, url_path));
    assert forall|i: int| 0 <= i < names.len() implies first(#[trigger] names[i]) by {}
    lemma_filter_all(names, first);
    assert(streams.unfollowed(names, url_path) == names);
    lemma_turns(streams, names, url_path);
    lemma_assigned(streams, names, url_path);
    lemma_subscribe_shape(streams, names, url_path);
    let candidates = streams.common.candidates(true, url_path);
    let after = streams.after_subscribe(names, url_path);
    let turn = streams.common.round_robin_index as int;
    let assigned = streams.assignments(names, url_path);
    assert forall|i: int| 0 <= i < names.len() implies after.connection_streams[key_of(
        #[trigger] names[i],
        url_path,
    )] == candidates[(turn + i) % candidates.len() as int] by {
        assert(assigned[i].0 == names[i]);
    }
}

/// Wherever a connection can be handed out, every stream that is to be assigned
/// finds one, in order: the one that it is followed on afterwards. A stream that
/// was followed on a connection that is neither lost nor being closed stays
/// there; any other goes to a connection that can be handed out. No other stream
/// comes, goes or moves.
pub proof fn law_assignment(
    streams: StreamsView,
    names: Seq<Seq<char>>,
    url_path: Option<Seq<char>>,
    i: int,
    other: Seq<char>,
)
    requires
        streams.wf(),
        streams.common.pool.len() <= usize::MAX,
        (streams.common.mode is Single && url_path is None) || exists|j: int|
            0 <= j < streams.common.pool.len() && !(
            #[trigger] streams.common.pool[j]).state.reconnection_pending
                && !streams.common.pool[j].state.close_initiated && (url_path is Some
                ==> streams.common.pool[j].state.url_path == url_path),
        0 <= i < names.len(),
        forall|j: int| 0 <= j < names.len() ==> key_of(#[trigger] names[j], url_path) != other,
    ensures
        ({
            let after = streams.after_assignments(names, url_path);
            let assigned = streams.assignments(names, url_path);
            let key = key_of(names[i], url_path);
            let known = streams.connection_streams.contains_key(key);
            let old_place = streams.connection_streams[key];
            &&& assigned.len() == names.len()
            &&& after.connection_streams.contains_key(key)
            &&& assigned[i] == (names[i], after.connection_streams[key])
            &&& if known && !streams.common.pool[old_place as int].state.reconnection_pending
                && !streams.common.pool[old_place as int].state.close_initiated {
                after.connection_streams[key] == old_place
            } else {
                streams.common.candidates(true, url_path).contains(
                    after.connection_streams[key] as int,
                )
            }
            &&& after.connection_streams.contains_key(other)
                <==> streams.connection_streams.contains_key(other)
            &&& after.connection_streams.contains_key(other) ==> after.connection_streams[other]
                == streams.connection_streams[other]
        }),
{
    lemma_can_follow(streams.common, url_path);
    lemma_assigned(streams, names, url_path);
    let key = key_of(names[i], url_path);
    if streams.needs_connection(key) {
        lemma_moved(streams, names, url_path, i);
    }
    let assigned = streams.assignments(names, url_path);
    assert(assigned[i].0 == names[i]);
    if streams.connection_streams.contains_key(key) {
        assert(settled(streams, key, streams.connection_streams[key], url_path)
            || streams.needs_connection(key));
    }
}

/// A stream that is not followed, or on a connection that is lost or being
/// closed, goes to a connection that can be handed out.
proof fn lemma_moved(
    streams: StreamsView,
    names: Seq<Seq<char>>,
    url_path: Option<Seq<char>>,
    i: int,
)
    requires
        streams.wf(),
        streams.common.pool.len() <= usize::MAX,
        streams.common.candidates(true, url_path).len() > 0,
        0 <= i < names.len(),
        streams.needs_connection(key_of(names[i], url_path)),
    ensures
        streams.common.candidates(true, url_path).contains(
            streams.after_assignments(names, url_path).connection_streams[key_of(
                names[i],
                url_path,
            )] as int,
        ),
    decreases names.len(),
{
    let rest = names.drop_last();
    let key = key_of(names[i], url_path);
    lemma_assigned(streams, rest, url_path);
    lemma_assigned_shape(streams, rest, url_path);
    lemma_assignments_hold(streams, rest, url_path);
    let before = streams.after_assignments(rest, url_path);
    lemma_assign_step(before, names.last(), url_path);
    if key != key_of(names.last(), url_path) {
        assert(i < rest.len());
        assert(rest[i] == names[i]);
        lemma_moved(streams, rest, url_path, i);
        assert(before.connection_streams.contains_key(key));
    } else if !before.needs_connection(key) {
        if exists|j: int| #![trigger rest[j]] 0 <= j < rest.len() && key_of(rest[j], url_path) == key {
            let j = choose|j: int|
                #![trigger rest[j]]
                0 <= j < rest.len() && key_of(rest[j], url_path) == key;
            lemma_moved(streams, rest, url_path, j);
        } else {
            assert(before.connection_streams.contains_key(key));
            assert(streams.connection_streams.contains_key(key));
            assert(before.connection_streams[key] == streams.connection_streams[key]);
            assert(streams.common.holds(streams.connection_streams[key]));
            let place = streams.connection_streams[key] as int;
            assert(before.common.pool[place].state.close_initiated
                == streams.common.pool[place].state.close_initiated);
        }
    }
}

/// Where no connection can be handed out, only the streams that are followed on
/// a connection that is neither lost nor being closed find theirs, and no stream
/// comes, goes or moves.
pub proof fn law_assignment_without_connection(
    streams: StreamsView,
    names: Seq<Seq<char>>,
    url_path: Option<Seq<char>>,
)
    requires
        streams.wf(),
        streams.common.pool.len() <= usize::MAX,
        !(streams.common.mode is Single && url_path is None),
        forall|i: int|
            0 <= i < streams.common.pool.len() && (url_path is Some
                ==> streams.common.pool[i].state.url_path == url_path) ==> (
            #[trigger] streams.common.pool[i]).state.reconnection_pending
                || streams.common.pool[i].state.close_initiated,
    ensures
        streams.after_assignments(names, url_path).connection_streams == streams.connection_streams,
        streams.after_assignments(names, url_path).common.round_robin_index
            == streams.common.round_robin_index,
        streams.assignments(names, url_path) == names.filter(
            |name: Seq<char>|
                {
                    let key = key_of(name, url_path);
                    let state =
                        streams.common.pool[streams.connection_streams[key] as int].state;
                    &&& streams.connection_streams.contains_key(key)
                    &&& !state.reconnection_pending
                    &&& !state.close_initiated
                },
        ).map_values(
            |name: Seq<char>| (name, streams.connection_streams[key_of(name, url_path)]),
        ),
    decreases names.len(),
{
    reveal(Seq::filter);
    lemma_can_follow(streams.common, url_path);
    let here = |name: Seq<char>|
        {
            let key = key_of(name, url_path);
            let state = streams.common.pool[streams.connection_streams[key] as int].state;
            &&& streams.connection_streams.contains_key(key)
            &&& !state.reconnection_pending
            &&& !state.close_initiated
        };
    let pair = |name: Seq<char>| (name, streams.connection_streams[key_of(name, url_path)]);
    if names.len() > 0 {
        let rest = names.drop_last();
        law_assignment_without_connection(streams, rest, url_path);
        lemma_assigned_shape(streams, rest, url_path);
        let before = streams.after_assignments(rest, url_path);
        let key = key_of(names.last(), url_path);
        if streams.connection_streams.contains_key(key) {
            assert(streams.common.holds(streams.connection_streams[key]));
            let place = streams.connection_streams[key] as int;
            assert(before.common.pool[place].state.close_initiated
                == streams.common.pool[place].state.close_initiated);
        }
        let kept = rest.filter(here);
        assert(here(names.last()) == !before.needs_connection(key));
        if here(names.last()) {
            assert(names.filter(here) == kept.push(names.last()));
            assert(kept.push(names.last()).map_values(pair) =~= kept.map_values(pair).push(
                pair(names.last()),
            ));
        }
        assert(streams.assignments(names, url_path) =~= names.filter(here).map_values(pair));
    } else {
        assert(streams.assignments(names, url_path) =~= names.filter(here).map_values(pair));
    }
}

/// Streams are grouped by their connections: with each connection stand all of
/// its streams, in order, and there is at least one.
pub proof fn law_group_holds_its_streams(assigned: Seq<Assigned>, g: int)
    requires
        0 <= g < grouped(assigned).len(),
    ensures
        ({
            let (place, streams) = grouped(assigned)[g];
            &&& streams.len() > 0
            &&& streams == assigned.filter(|one: Assigned| one.1 == place).map_values(
                |one: Assigned| one.0,
            )
        }),
{
    lemma_places_of(assigned);
    let seen = places_of(assigned);
    let (place, streams) = grouped(assigned)[g];
    assert(seen.contains(seen[g]));
    let k = choose|k: int|
        #![trigger assigned[k]]
        0 <= k < assigned.len() && assigned[k].1 == seen[g];
    lemma_streams_on_contains(assigned, k);
    lemma_streams_on_pairs(assigned, place);
}

/// Every connection that has streams has one group, and no other connection has
/// any.
pub proof fn law_one_group_for_each(assigned: Seq<Assigned>, place: usize)
    ensures
        (exists|k: int| 0 <= k < assigned.len() && (#[trigger] assigned[k]).1 == place) <==> (
        exists|g: int|
            0 <= g < grouped(assigned).len() && (#[trigger] grouped(assigned)[g]).0 == place),
        forall|g: int, h: int|
            0 <= g < h < grouped(assigned).len() ==> (#[trigger] grouped(assigned)[g]).0 != (
            #[trigger] grouped(assigned)[h]).0,
{
    lemma_places_of(assigned);
    let seen = places_of(assigned);
    let groups = grouped(assigned);
    if exists|k: int| 0 <= k < assigned.len() && (#[trigger] assigned[k]).1 == place {
        assert(seen.contains(place));
        let g = choose|g: int| 0 <= g < seen.len() && seen[g] == place;
        assert(groups[g].0 == place);
    }
    if exists|g: int| 0 <= g < groups.len() && (#[trigger] groups[g]).0 == place {
        let g = choose|g: int| 0 <= g < groups.len() && (#[trigger] groups[g]).0 == place;
        assert(seen[g] == place);
        assert(seen.contains(place));
    }
    assert forall|g: int, h: int| 0 <= g < h < groups.len() implies (#[trigger] groups[g]).0 != (
    #[trigger] groups[h]).0 by {
        assert(seen[g] != seen[h]);
    }
}

/// The group whose connection got a stream first stands first: before any stream
/// of a later group there is one of each earlier group.
pub proof fn law_groups_in_order(assigned: Seq<Assigned>, g: int, h: int, k: int)
    requires
        0 <= g < h < grouped(assigned).len(),
        0 <= k < assigned.len(),
        assigned[k].1 == grouped(assigned)[h].0,
    ensures
        exists|j: int| 0 <= j < k && (#[trigger] assigned[j]).1 == grouped(assigned)[g].0,
{
    lemma_places_in_order(assigned, g, h, k);
}

proof fn lemma_streams_on_pairs(assigned: Seq<Assigned>, place: usize)
    ensures
        streams_on(assigned, place as int) == assigned.filter(
            |one: Assigned| one.1 == place,
        ).map_values(|one: Assigned| one.0),
    decreases assigned.len(),
{
    reveal(Seq::filter);
    let here = |one: Assigned| one.1 == place;
    let name = |one: Assigned| one.0;
    if assigned.len() > 0 {
        let rest = assigned.drop_last();
        lemma_streams_on_pairs(rest, place);
        let kept = rest.filter(here);
        assert(kept.push(assigned.last()).map_values(name) =~= kept.map_values(name).push(
            name(assigned.last()),
        ));
    }
    assert(streams_on(assigned, place as int) =~= assigned.filter(here).map_values(name));
}

proof fn lemma_places_in_order(assigned: Seq<Assigned>, g: int, h: int, k: int)
    requires
        0 <= g < h < places_of(assigned).len(),
        0 <= k < assigned.len(),
        assigned[k].1 == places_of(assigned)[h],
    ensures
        exists|j: int| 0 <= j < k && (#[trigger] assigned[j]).1 == places_of(assigned)[g],
    decreases assigned.len(),
{
    let rest = assigned.drop_last();
    let front = places_of(rest);
    let all = places_of(assigned);
    lemma_places_of(assigned);
    lemma_places_of(rest);
    assert(all[g] == front[g]);
    if k < rest.len() {
        assert(rest[k] == assigned[k]);
        assert(front.contains(rest[k].1));
        if h >= front.len() {
            let l = choose|l: int| 0 <= l < front.len() && front[l] == rest[k].1;
            assert(all[l] == all[h]);
        }
        lemma_places_in_order(rest, g, h, k);
        let j = choose|j: int| 0 <= j < k && (#[trigger] rest[j]).1 == front[g];
        assert(assigned[j] == rest[j]);
    } else {
        assert(front.contains(front[g]));
        let j = choose|j: int|
            #![trigger rest[j]]
            0 <= j < rest.len() && rest[j].1 == front[g];
        assert(assigned[j] == rest[j]);
    }
}

} // verus!
