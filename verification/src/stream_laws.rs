//! What holds of streams whatever happens.

use crate::api::all_callbacks;
use crate::common::CommonView;
use crate::connection::CallbackId;
use crate::json::JsonView;
use crate::laws::law_handed_out_is_ready;
use crate::lifecycle::OpenTarget;
use crate::models::{
    is_request_text, normalized_id, ConfigurationWebsocketStreams, StreamIdView, TimeUnit,
    WebsocketMode,
};
use crate::stream::{
    callbacks_at, deregistered, registered, with_callback, without_callback, BaseView, StreamView,
};
use crate::stream_setup::{are_path_targets, missing_connections};
use crate::streams::{key_of, names_on, stream_url, StreamDelivery, StreamsView};
use crate::string_map::{has_key, lists};
use crate::subscription::{grouped, lemma_places_of, places_of, streams_on, Assigned};
use crate::text::{
    after_separator, first_separator, has_separator, has_suffix, joined, separator_at,
};
use vstd::prelude::*;

verus! {

/// A path that a key can be told by: it is not empty, holds no `::` and does
/// not end in a colon.
pub open spec fn is_plain_path(path: Seq<char>) -> bool {
    &&& path.len() > 0
    &&& !has_separator(path)
    &&& path.last() != ':'
}

proof fn lemma_key_separator(stream: Seq<char>, path: Seq<char>)
    requires
        is_plain_path(path),
    ensures
        first_separator(key_of(stream, Some(path)), path.len() as int),
        key_of(stream, Some(path)).take(path.len() as int) == path,
        key_of(stream, Some(path)).skip(path.len() as int + 2) == stream,
{
    reveal_strlit("::");
    let key = key_of(stream, Some(path));
    let n = path.len() as int;
    assert(key[n] == ':' && key[n + 1] == ':');
    assert(separator_at(key, n));
    assert forall|j: int| #![trigger separator_at(key, j)] 0 <= j < n implies !separator_at(key, j) by {
        assert(key[j] == path[j]);
        if j + 1 < n {
            assert(key[j + 1] == path[j + 1]);
            assert(!separator_at(path, j));
        } else {
            assert(path[j] == path.last());
        }
    }
    assert(key.take(n) =~= path);
    assert(key.skip(n + 2) =~= stream);
}

proof fn lemma_first_separator_unique(text: Seq<char>, i: int, j: int)
    requires
        first_separator(text, i),
        first_separator(text, j),
    ensures
        i == j,
{
    if i < j {
        assert(!separator_at(text, i));
    } else if j < i {
        assert(!separator_at(text, j));
    }
}

/// The key of a stream on a plain path tells the path and the stream apart.
pub proof fn law_key_is_unique(
    left: Seq<char>,
    left_path: Seq<char>,
    right: Seq<char>,
    right_path: Seq<char>,
)
    requires
        is_plain_path(left_path),
        is_plain_path(right_path),
        key_of(left, Some(left_path)) == key_of(right, Some(right_path)),
    ensures
        left == right,
        left_path == right_path,
{
    lemma_key_separator(left, left_path);
    lemma_key_separator(right, right_path);
    lemma_first_separator_unique(
        key_of(left, Some(left_path)),
        left_path.len() as int,
        right_path.len() as int,
    );
}

/// A stream without a path, whose name holds no `::`, has another key than any
/// stream on a path, and the key is its name.
pub proof fn law_key_without_path(stream: Seq<char>, other: Seq<char>, other_path: Seq<char>)
    requires
        !has_separator(stream),
        other_path.len() > 0,
    ensures
        key_of(stream, None) == stream,
        key_of(stream, None) != key_of(other, Some(other_path)),
{
    reveal_strlit("::");
    let key = key_of(other, Some(other_path));
    let n = other_path.len() as int;
    assert(key[n] == ':' && key[n + 1] == ':');
    assert(separator_at(key, n));
}

/// A connection is opened again with the names of its streams as they were
/// asked for: the name behind the path of a key is the stream's.
pub proof fn law_key_gives_name_back(stream: Seq<char>, path: Seq<char>)
    requires
        is_plain_path(path),
    ensures
        after_separator(key_of(stream, Some(path))) == stream,
{
    lemma_key_separator(stream, path);
    let key = key_of(stream, Some(path));
    let chosen = choose|i: int| first_separator(key, i);
    assert(separator_at(key, path.len() as int));
    lemma_first_separator_unique(key, path.len() as int, chosen);
}

/// The same of a stream without a path whose name holds no `::`.
pub proof fn law_key_without_path_gives_name_back(stream: Seq<char>)
    requires
        !has_separator(stream),
    ensures
        after_separator(key_of(stream, None)) == stream,
{
}

/// A stream that is followed, on whatever path, counts as subscribed.
pub proof fn law_followed_is_subscribed(
    streams: StreamsView,
    stream: Seq<char>,
    url_path: Option<Seq<char>>,
)
    requires
        streams.connection_streams.contains_key(key_of(stream, url_path)),
    ensures
        streams.subscribed(stream),
{
    let key = key_of(stream, url_path);
    if key != stream {
        let path = url_path->0;
        let suffix = "::"@ + stream;
        assert(key =~= path + suffix);
        assert(key.subrange(key.len() - suffix.len(), key.len() as int) =~= suffix);
        assert(has_suffix(key, suffix));
    }
}

/// Asking for streams that are all followed changes nothing, and sends nothing.
pub proof fn law_subscribe_again(
    streams: StreamsView,
    names: Seq<Seq<char>>,
    id: Option<StreamIdView>,
    url_path: Option<Seq<char>>,
)
    requires
        forall|i: int|
            0 <= i < names.len() ==> streams.connection_streams.contains_key(
                key_of(#[trigger] names[i], url_path),
            ),
    ensures
        streams.after_subscribe(names, url_path) == streams,
        streams.subscriptions(names, id, url_path).len() == 0,
{
    lemma_all_followed(streams, names, url_path);
    reveal(Seq::filter);
    let none = Seq::<Seq<char>>::empty();
    assert(streams.unfollowed(names, url_path) =~= none);
    assert(streams.assignments(none, url_path) =~= Seq::<Assigned>::empty());
    lemma_queue_nothing(streams);
}

proof fn lemma_all_followed(
    streams: StreamsView,
    names: Seq<Seq<char>>,
    url_path: Option<Seq<char>>,
)
    requires
        forall|i: int|
            0 <= i < names.len() ==> streams.connection_streams.contains_key(
                key_of(#[trigger] names[i], url_path),
            ),
    ensures
        streams.unfollowed(names, url_path).len() == 0,
    decreases names.len(),
{
    reveal(Seq::filter);
    if names.len() > 0 {
        assert(streams.connection_streams.contains_key(
            key_of(names[names.len() - 1], url_path),
        ));
        assert forall|i: int|
            0 <= i < names.drop_last().len() implies streams.connection_streams.contains_key(
            key_of(#[trigger] names.drop_last()[i], url_path),
        ) by {
            assert(names.drop_last()[i] == names[i]);
        }
        lemma_all_followed(streams, names.drop_last(), url_path);
    }
}

proof fn lemma_queue_nothing(streams: StreamsView)
    ensures
        streams.with_queued(Seq::empty()) == streams,
{
    let none = Seq::<Assigned>::empty();
    let after = streams.with_queued(none);
    assert forall|i: int| 0 <= i < streams.common.pool.len() implies after.common.pool[i]
        == streams.common.pool[i] by {
        let state = streams.common.state(i);
        assert(streams_on(none, i) =~= Seq::<Seq<char>>::empty());
        assert(state.pending_subscriptions + streams_on(none, i) =~= state.pending_subscriptions);
    }
    assert(after.common.pool =~= streams.common.pool);
    assert(after =~= streams);
}

/// What comes of asking for one stream that is not followed.
proof fn lemma_subscribe_one(
    streams: StreamsView,
    stream: Seq<char>,
    url_path: Option<Seq<char>>,
)
    requires
        !streams.connection_streams.contains_key(key_of(stream, url_path)),
        streams.common.candidates(true, url_path).len() > 0,
        0 <= streams.common.next_candidate(true, url_path) < streams.common.pool.len(),
        streams.common.pool.len() <= usize::MAX,
    ensures
        ({
            let place = streams.common.next_candidate(true, url_path);
            let key = key_of(stream, url_path);
            let assigned = seq![(stream, place as usize)];
            &&& streams.unfollowed(seq![stream], url_path) == seq![stream]
            &&& streams.assignments(seq![stream], url_path) == assigned
            &&& grouped(assigned) == seq![(place as usize, seq![stream])]
            &&& streams.after_assignments(seq![stream], url_path) == StreamsView {
                common: streams.common.turned().with_state(
                    place,
                    streams.common.state(place).listening(key),
                ),
                connection_streams: streams.connection_streams.insert(key, place as usize),
                ..streams
            }
        }),
{
    reveal(Seq::filter);
    let one = seq![stream];
    let place = streams.common.next_candidate(true, url_path);
    assert(one.drop_last() =~= Seq::<Seq<char>>::empty());
    assert(one.last() == stream);
    assert(streams.unfollowed(one.drop_last(), url_path) =~= Seq::<Seq<char>>::empty());
    assert(streams.unfollowed(one, url_path) =~= one);
    assert(streams.after_assignments(one.drop_last(), url_path) == streams);
    assert(streams.assignments(one.drop_last(), url_path) =~= Seq::<Assigned>::empty());
    let assigned = seq![(stream, place as usize)];
    assert(streams.assignments(one, url_path) =~= assigned);
    assert(assigned.drop_last() =~= Seq::<Assigned>::empty());
    assert(places_of(assigned.drop_last()) =~= Seq::<usize>::empty());
    assert(places_of(assigned) =~= seq![place as usize]);
    assert(streams_on(assigned.drop_last(), place) =~= Seq::<Seq<char>>::empty());
    assert(streams_on(assigned, place) =~= seq![stream]);
    assert(grouped(assigned) =~= seq![(place as usize, seq![stream])]);
}

/// A stream that is asked for is followed from then on wherever a connection
/// can be handed out for it.
pub proof fn law_subscribe_follows(
    streams: StreamsView,
    stream: Seq<char>,
    url_path: Option<Seq<char>>,
)
    requires
        streams.wf(),
        streams.common.pool.len() <= usize::MAX,
        streams.common.candidates(true, url_path).len() > 0,
    ensures
        streams.after_subscribe(seq![stream], url_path).connection_streams.contains_key(
            key_of(stream, url_path),
        ),
        streams.after_subscribe(seq![stream], url_path).subscribed(stream),
{
    let after = streams.after_subscribe(seq![stream], url_path);
    if streams.connection_streams.contains_key(key_of(stream, url_path)) {
        law_subscribe_again(streams, seq![stream], None, url_path);
    } else {
        lemma_candidate_in_pool(streams.common, url_path);
        lemma_subscribe_one(streams, stream, url_path);
    }
    law_followed_is_subscribed(after, stream, url_path);
}

/// The connection that is handed out is one of the pool.
pub proof fn lemma_candidate_in_pool(common: CommonView, url_path: Option<Seq<char>>)
    requires
        common.wf(),
        common.candidates(true, url_path).len() > 0,
    ensures
        0 <= common.next_candidate(true, url_path) < common.pool.len(),
{
    if common.mode == WebsocketMode::Single && url_path is None {
        crate::laws::law_single_is_handed_out(common, true);
    } else {
        law_handed_out_is_ready(common, true, url_path);
    }
}

/// A stream that is asked for is either asked of the server at once, in one
/// request, or kept until its connection is open: exactly one of the two, and
/// the first where the connection can be used.
pub proof fn law_subscribe_asks_or_keeps(
    streams: StreamsView,
    stream: Seq<char>,
    id: Option<StreamIdView>,
    url_path: Option<Seq<char>>,
)
    requires
        streams.wf(),
        streams.common.pool.len() <= usize::MAX,
        !streams.connection_streams.contains_key(key_of(stream, url_path)),
        streams.common.candidates(true, url_path).len() > 0,
    ensures
        ({
            let place = streams.common.next_candidate(true, url_path);
            let state = streams.common.state(place);
            let after = streams.after_subscribe(seq![stream], url_path);
            let asked = streams.subscriptions(seq![stream], id, url_path);
            if state.ready(false) {
                &&& asked.len() == 1
                &&& asked[0].connection == place
                &&& asked[0].streams == seq![stream]
                &&& asked[0].id == id
                &&& after.common.state(place).pending_subscriptions == state.pending_subscriptions
            } else {
                &&& asked.len() == 0
                &&& after.common.state(place).pending_subscriptions
                    == state.pending_subscriptions.push(stream)
            }
        }),
{
    lemma_candidate_in_pool(streams.common, url_path);
    lemma_subscribe_one(streams, stream, url_path);
    reveal(Seq::filter);
    let place = streams.common.next_candidate(true, url_path);
    let state = streams.common.state(place);
    let middle = streams.after_assignments(seq![stream], url_path);
    let assigned = seq![(stream, place as usize)];
    let groups = grouped(assigned);
    assert(groups.drop_last() =~= Seq::<(usize, Seq<Seq<char>>)>::empty());
    assert(groups.last() == (place as usize, seq![stream]));
    assert(middle.common.state(place).ready(false) == state.ready(false));
    assert(groups[0].1 == streams_on(assigned, place));
    assert(state.pending_subscriptions + seq![stream] =~= state.pending_subscriptions.push(stream));
    let usable = |group: (usize, Seq<Seq<char>>)|
        middle.common.state(group.0 as int).ready(false);
    assert(groups.drop_last().filter(usable) =~= Seq::<(usize, Seq<Seq<char>>)>::empty());
    assert(usable(groups.last()) == state.ready(false));
    if state.ready(false) {
        assert(middle.sendable(assigned) =~= groups);
    } else {
        assert(middle.sendable(assigned) =~= Seq::<(usize, Seq<Seq<char>>)>::empty());
    }
}

/// No stream is lost between its assignment and the groups: each stream that
/// found a connection is in the group of that connection.
pub proof fn law_groups_keep_streams(assigned: Seq<Assigned>, k: int)
    requires
        0 <= k < assigned.len(),
    ensures
        exists|g: int|
            0 <= g < grouped(assigned).len() && (#[trigger] grouped(assigned)[g]).0
                == assigned[k].1 && grouped(assigned)[g].1.contains(assigned[k].0),
{
    lemma_places_of(assigned);
    let seen = places_of(assigned);
    assert(seen.contains(assigned[k].1));
    let g = choose|g: int| 0 <= g < seen.len() && seen[g] == assigned[k].1;
    lemma_streams_on_contains(assigned, k);
    assert(grouped(assigned)[g].0 == assigned[k].1);
}

/// A stream is among those of its connection.
pub proof fn lemma_streams_on_contains(assigned: Seq<Assigned>, k: int)
    requires
        0 <= k < assigned.len(),
    ensures
        streams_on(assigned, assigned[k].1 as int).contains(assigned[k].0),
    decreases assigned.len(),
{
    let place = assigned[k].1 as int;
    let front = streams_on(assigned.drop_last(), place);
    let all = streams_on(assigned, place);
    if k < assigned.len() - 1 {
        lemma_streams_on_contains(assigned.drop_last(), k);
        let i = choose|i: int| 0 <= i < front.len() && front[i] == assigned[k].0;
        assert(all[i] == assigned[k].0);
    } else {
        assert(all[front.len() as int] == assigned[k].0);
    }
}

/// Streams are assigned to connections of the pool.
pub proof fn lemma_assignments_hold(
    streams: StreamsView,
    names: Seq<Seq<char>>,
    url_path: Option<Seq<char>>,
)
    requires
        streams.wf(),
        streams.common.pool.len() <= usize::MAX,
    ensures
        streams.after_assignments(names, url_path).wf(),
        streams.after_assignments(names, url_path).common.pool.len() == streams.common.pool.len(),
        forall|k: int|
            0 <= k < streams.assignments(names, url_path).len() ==> streams.common.holds(
                (#[trigger] streams.assignments(names, url_path)[k]).1,
            ),
    decreases names.len(),
{
    if names.len() > 0 {
        lemma_assignments_hold(streams, names.drop_last(), url_path);
        let before = streams.after_assignments(names.drop_last(), url_path);
        let key = key_of(names.last(), url_path);
        if before.connection_streams.contains_key(key) {
            assert(before.common.holds(before.connection_streams[key]));
        }
        if before.common.candidates(true, url_path).len() > 0 {
            lemma_candidate_in_pool(before.common, url_path);
        }
        let after = before.after_assignment(names.last(), url_path);
        assert forall|k: Seq<char>| #[trigger]
            after.connection_streams.contains_key(k) implies after.common.holds(
            after.connection_streams[k],
        ) by {
            if k != key {
                assert(before.connection_streams.contains_key(k));
            }
        }
        let front = streams.assignments(names.drop_last(), url_path);
        let all = streams.assignments(names, url_path);
        assert forall|k: int| 0 <= k < all.len() implies streams.common.holds(
            (#[trigger] all[k]).1,
        ) by {
            if k < front.len() {
                assert(all[k] == front[k]);
            }
        }
    }
}

/// No stream that is asked for and finds a connection is lost: it is asked of
/// the server at once where its connection can be used, and kept until the
/// connection is open where it cannot.
pub proof fn law_no_stream_is_lost(
    streams: StreamsView,
    names: Seq<Seq<char>>,
    id: Option<StreamIdView>,
    url_path: Option<Seq<char>>,
    k: int,
)
    requires
        streams.wf(),
        streams.common.pool.len() <= usize::MAX,
        0 <= k < streams.assignments(streams.unfollowed(names, url_path), url_path).len(),
    ensures
        ({
            let fresh = streams.unfollowed(names, url_path);
            let (stream, place) = streams.assignments(fresh, url_path)[k];
            let asked = streams.subscriptions(names, id, url_path);
            if streams.after_assignments(fresh, url_path).common.state(place as int).ready(false) {
                exists|g: int|
                    0 <= g < asked.len() && (#[trigger] asked[g]).connection == place
                        && asked[g].streams.contains(stream)
            } else {
                streams.after_subscribe(names, url_path).common.state(
                    place as int,
                ).pending_subscriptions.contains(stream)
            }
        }),
{
    let fresh = streams.unfollowed(names, url_path);
    let assigned = streams.assignments(fresh, url_path);
    let middle = streams.after_assignments(fresh, url_path);
    let (stream, place) = assigned[k];
    lemma_assignments_hold(streams, fresh, url_path);
    assert(streams.common.holds(assigned[k].1));
    if middle.common.state(place as int).ready(false) {
        law_groups_keep_streams(assigned, k);
        let groups = grouped(assigned);
        let g = choose|g: int|
            0 <= g < groups.len() && (#[trigger] groups[g]).0 == place && groups[g].1.contains(
                stream,
            );
        let usable = |group: (usize, Seq<Seq<char>>)|
            middle.common.state(group.0 as int).ready(false);
        assert(groups.filter(usable).contains(groups[g])) by {
            broadcast use vstd::seq_lib::group_filter_ensures;

            assert(usable(groups[g]));
            assert(groups.contains(groups[g]));
        }
        let sent = middle.sendable(assigned);
        let j = choose|j: int| 0 <= j < sent.len() && sent[j] == groups[g];
        let asked = streams.subscriptions(names, id, url_path);
        assert(asked[j].connection == place && asked[j].streams.contains(stream));
    } else {
        lemma_streams_on_contains(assigned, k);
        let kept = middle.common.state(place as int).pending_subscriptions;
        let added = streams_on(assigned, place as int);
        let j = choose|j: int| 0 <= j < added.len() && added[j] == stream;
        assert((kept + added)[kept.len() + j] == stream);
    }
}

/// A stream that somebody waits for is not let go of.
pub proof fn law_awaited_stream_is_kept(
    streams: StreamsView,
    stream: Seq<char>,
    url_path: Option<Seq<char>>,
)
    requires
        streams.connection_streams.contains_key(key_of(stream, url_path)),
        streams.common.state(
            streams.connection_streams[key_of(stream, url_path)] as int,
        ).has_callbacks(key_of(stream, url_path)),
    ensures
        streams.after_unsubscribe(seq![stream], url_path) == streams,
        streams.released(seq![stream], url_path).len() == 0,
{
    lemma_unsubscribe_one(streams, stream, url_path);
}

proof fn lemma_unsubscribe_one(
    streams: StreamsView,
    stream: Seq<char>,
    url_path: Option<Seq<char>>,
)
    ensures
        streams.after_unsubscribe(seq![stream], url_path) == streams.after_unsubscribe_one(
            stream,
            url_path,
        ),
        streams.released(seq![stream], url_path) == if streams.lets_go(stream, url_path) {
            seq![(stream, streams.connection_streams[key_of(stream, url_path)])]
        } else {
            Seq::empty()
        },
{
    let one = seq![stream];
    assert(one.drop_last() =~= Seq::<Seq<char>>::empty());
    assert(one.last() == stream);
    assert(streams.after_unsubscribe(one.drop_last(), url_path) == streams);
    assert(streams.released(one.drop_last(), url_path) =~= Seq::<Assigned>::empty());
    if streams.lets_go(stream, url_path) {
        assert(streams.released(one, url_path) =~= seq![
            (stream, streams.connection_streams[key_of(stream, url_path)]),
        ]);
    }
}

/// Letting go undoes following: a stream that was asked for on a connection that
/// can be used, and is let go of before anybody waits for it, leaves the client
/// as it was, but for the turn that was taken.
pub proof fn law_unsubscribe_undoes_subscribe(
    streams: StreamsView,
    stream: Seq<char>,
    url_path: Option<Seq<char>>,
)
    requires
        streams.wf(),
        streams.common.pool.len() <= usize::MAX,
        !streams.connection_streams.contains_key(key_of(stream, url_path)),
        streams.common.candidates(true, url_path).len() > 0,
        streams.common.state(streams.common.next_candidate(true, url_path)).ready(false),
        !streams.common.state(
            streams.common.next_candidate(true, url_path),
        ).stream_callbacks.contains_key(key_of(stream, url_path)),
    ensures
        streams.after_subscribe(seq![stream], url_path).after_unsubscribe(seq![stream], url_path)
            == streams.with_common(streams.common.turned()),
{
    let key = key_of(stream, url_path);
    let place = streams.common.next_candidate(true, url_path);
    let state = streams.common.state(place);
    lemma_candidate_in_pool(streams.common, url_path);
    lemma_subscribe_one(streams, stream, url_path);
    let middle = streams.after_assignments(seq![stream], url_path);
    let assigned = seq![(stream, place as usize)];
    let followed = streams.after_subscribe(seq![stream], url_path);
    assert(followed =~= middle) by {
        assert forall|i: int| 0 <= i < middle.common.pool.len() implies followed.common.pool[i]
            == middle.common.pool[i] by {
            if i != place {
                assert(assigned.drop_last() =~= Seq::<Assigned>::empty());
                assert(streams_on(assigned.drop_last(), i) =~= Seq::<Seq<char>>::empty());
                assert(streams_on(assigned, i) =~= Seq::<Seq<char>>::empty());
                let other = middle.common.state(i);
                assert(other.pending_subscriptions + streams_on(assigned, i)
                    =~= other.pending_subscriptions);
            }
        }
        assert(followed.common.pool =~= middle.common.pool);
    }
    lemma_unsubscribe_one(followed, stream, url_path);
    assert(followed.lets_go(stream, url_path));
    let released = followed.after_unsubscribe_one(stream, url_path);
    assert(released.connection_streams =~= streams.connection_streams);
    assert(state.stream_callbacks.insert(key, Seq::<CallbackId>::empty()).remove(key)
        =~= state.stream_callbacks);
    assert(released.common.pool =~= streams.common.pool);
    assert(released =~= streams.with_common(streams.common.turned()));
}

/// A callback that waits for the messages of a stream is handed each of them
/// that arrives on the connection that the stream is followed on.
pub proof fn law_registered_is_delivered(
    streams: StreamsView,
    stream: StreamView,
    callback: CallbackId,
    document: JsonView,
    delivery: Option<StreamDelivery>,
)
    requires
        streams.wf(),
        streams.connection_streams.contains_key(stream.key()),
        document.member("stream"@) == Some(JsonView::Text(stream.stream_or_id)),
        document.member("data"@) is Some,
        streams.common.state(streams.connection_streams[stream.key()] as int).url_path
            == stream.url_path,
        BaseView::Streams(streams).with_registered(stream, callback) is Streams,
        BaseView::Streams(streams).with_registered(stream, callback)->Streams_0.delivers(
            streams.connection_streams[stream.key()] as int,
            document,
            delivery,
        ),
    ensures
        delivery is Some,
        delivery->0.callbacks@.contains(callback),
        Some(crate::json::json_view(delivery->0.payload)) == document.member("data"@),
{
    let key = stream.key();
    let place = streams.connection_streams[key] as int;
    let list = callbacks_at(streams.callbacks_of(key), key);
    let after = BaseView::Streams(streams).with_registered(stream, callback)->Streams_0;
    assert(streams.common.holds(streams.connection_streams[key]));
    assert(after.common.state(place).stream_callbacks == registered(
        streams.callbacks_of(key),
        key,
        callback,
    ));
    if !list.contains(callback) {
        assert(list.push(callback)[list.len() as int] == callback);
    }
}

/// A callback that no longer waits for the messages of a stream is handed none
/// of them.
pub proof fn law_deregistered_is_not_delivered(
    streams: StreamsView,
    stream: StreamView,
    callback: CallbackId,
    document: JsonView,
    delivery: Option<StreamDelivery>,
)
    requires
        streams.wf(),
        streams.connection_streams.contains_key(stream.key()),
        document.member("stream"@) == Some(JsonView::Text(stream.stream_or_id)),
        document.member("data"@) is Some,
        streams.common.state(streams.connection_streams[stream.key()] as int).url_path
            == stream.url_path,
        BaseView::Streams(streams).with_deregistered(stream, callback)->Streams_0.delivers(
            streams.connection_streams[stream.key()] as int,
            document,
            delivery,
        ),
    ensures
        delivery is Some,
        !delivery->0.callbacks@.contains(callback),
{
    let key = stream.key();
    let place = streams.connection_streams[key] as int;
    let list = callbacks_at(streams.callbacks_of(key), key);
    let after = BaseView::Streams(streams).with_deregistered(stream, callback)->Streams_0;
    assert(streams.common.holds(streams.connection_streams[key]));
    assert(after.common.state(place).stream_callbacks == deregistered(
        streams.callbacks_of(key),
        key,
        callback,
    ));
    lemma_filtered(list, callback);
}

proof fn lemma_filtered(list: Seq<CallbackId>, callback: CallbackId)
    ensures
        !without_callback(list, callback).contains(callback),
        !list.contains(callback) ==> without_callback(list, callback) == list,
    decreases list.len(),
{
    reveal(Seq::filter);
    if list.len() > 0 {
        let front = list.drop_last();
        lemma_filtered(front, callback);
        let kept = without_callback(front, callback);
        let all = without_callback(list, callback);
        if all.contains(callback) {
            let i = choose|i: int| 0 <= i < all.len() && all[i] == callback;
            if i < kept.len() {
                assert(kept[i] == callback);
            }
        }
        if !list.contains(callback) {
            assert(list[list.len() - 1] != callback);
            assert forall|i: int| 0 <= i < front.len() implies front[i] != callback by {
                assert(list[i] == front[i]);
            }
            assert(front.push(list.last()) =~= list);
        }
    }
}

/// Taking a callback back undoes its registration: a list that did not hold it
/// is as it was.
pub proof fn law_deregister_undoes_register(list: Seq<CallbackId>, callback: CallbackId)
    requires
        !list.contains(callback),
    ensures
        without_callback(with_callback(list, callback), callback) == list,
{
    reveal(Seq::filter);
    lemma_filtered(list, callback);
    let longer = list.push(callback);
    assert(longer.drop_last() =~= list);
}

/// Once a client is disconnected no stream is followed, nobody waits for a
/// message and no stream is kept for later.
pub proof fn law_disconnect_clears(streams: StreamsView, stream: Seq<char>, i: int)
    requires
        0 <= i < streams.common.pool.len(),
    ensures
        !streams.cleared().subscribed(stream),
        streams.cleared().common.state(i).stream_callbacks == Map::<
            Seq<char>,
            Seq<CallbackId>,
        >::empty(),
        streams.cleared().common.state(i).pending_subscriptions.len() == 0,
{
}

/// The time unit always joins the streams of a URL by an `&`, since the streams
/// stand in its query.
pub proof fn law_stream_url_time_unit(
    configuration: ConfigurationWebsocketStreams,
    streams: Seq<Seq<char>>,
    url_path: Option<Seq<char>>,
    unit: TimeUnit,
)
    requires
        configuration.time_unit == Some(unit),
    ensures
        stream_url(configuration, streams, url_path) == stream_url(
            ConfigurationWebsocketStreams { time_unit: None, ..configuration },
            streams,
            url_path,
        ) + "&"@ + "timeUnit="@ + unit.spelled(),
{
    let plain = ConfigurationWebsocketStreams { time_unit: None, ..configuration };
    let url = stream_url(plain, streams, url_path);
    let base = crate::api::base_url(configuration.ws_url);
    let root = match url_path {
        Some(path) => base + "/"@ + path,
        None => base,
    };
    reveal_strlit("/stream?streams=");
    assert(url == root + "/stream?streams="@ + joined(streams, "/"@));
    assert(url[root.len() as int + 7] == '?');
    assert(url.contains('?'));
}

/// A new client has a full set of connections for each path, so that its
/// attempt to connect is never refused for want of them.
pub proof fn law_new_has_full_sets(given: int, size: int, paths: int)
    requires
        given >= 0,
        size > 0,
        paths >= 0,
    ensures
        missing_connections(given, size, paths) >= 0,
        paths * size <= given + missing_connections(given, size, paths),
        given + missing_connections(given, size, paths) > 0,
{
    assert(paths * size == size * paths) by (nonlinear_arith);
    if paths > 0 {
        assert(size * paths > 0) by (nonlinear_arith)
            requires
                size > 0,
                paths > 0,
        ;
    }
}

/// Each path has connections of its own: no connection is opened for two paths,
/// nor twice for one.
pub proof fn law_paths_share_no_connection(
    targets: Seq<OpenTarget>,
    configuration: ConfigurationWebsocketStreams,
    streams: Seq<Seq<char>>,
    paths: Seq<Seq<char>>,
    i: int,
    j: int,
    k: int,
    l: int,
)
    requires
        are_path_targets(targets, configuration, streams, paths),
        paths.len() * configuration.mode.size() <= usize::MAX,
        0 <= i < targets.len(),
        0 <= k < targets.len(),
        0 <= j < configuration.mode.size(),
        0 <= l < configuration.mode.size(),
        i != k || j != l,
    ensures
        targets[i].connections@[j] != targets[k].connections@[l],
{
    let size = configuration.mode.size() as int;
    let n = paths.len() as int;
    assert(0 <= i * size + j < n * size) by (nonlinear_arith)
        requires
            0 <= i < n,
            0 <= j < size,
    ;
    assert(0 <= k * size + l < n * size) by (nonlinear_arith)
        requires
            0 <= k < n,
            0 <= l < size,
    ;
    assert(i * size + j != k * size + l) by (nonlinear_arith)
        requires
            0 <= j < size,
            0 <= l < size,
            i != k || j != l,
    ;
}

/// A request is sent with a valid identifier: a number where only numbers are
/// valid and, as long as fresh texts are valid, a valid text or a number
/// elsewhere.
pub proof fn law_request_id_is_valid(
    id: Option<StreamIdView>,
    strictly_number: bool,
    fresh_text: Seq<char>,
    fresh_number: u32,
)
    requires
        is_request_text(fresh_text),
    ensures
        ({
            let sent = normalized_id(id, strictly_number, fresh_text, fresh_number);
            &&& strictly_number ==> sent is Number
            &&& sent is Str ==> is_request_text(sent->Str_0)
        }),
{
}

/// A connection that is opened again is opened with each stream that is
/// followed on it.
pub proof fn law_reopened_with_its_streams(
    entries: Seq<(Seq<char>, usize)>,
    followed: Map<Seq<char>, usize>,
    connection: usize,
    key: Seq<char>,
)
    requires
        lists(entries, followed),
        followed.contains_key(key),
        followed[key] == connection,
    ensures
        names_on(entries, connection).contains(after_separator(key)),
{
    assert(has_key(entries, key));
    let k = choose|k: int| #![trigger entries[k]] 0 <= k < entries.len() && entries[k].0 == key;
    lemma_names_on_contains(entries, connection, k);
}

proof fn lemma_names_on_contains(entries: Seq<(Seq<char>, usize)>, connection: usize, k: int)
    requires
        0 <= k < entries.len(),
        entries[k].1 == connection,
    ensures
        names_on(entries, connection).contains(after_separator(entries[k].0)),
    decreases entries.len(),
{
    let front = names_on(entries.drop_last(), connection);
    let all = names_on(entries, connection);
    let name = after_separator(entries[k].0);
    if k < entries.len() - 1 {
        lemma_names_on_contains(entries.drop_last(), connection, k);
        let i = choose|i: int| 0 <= i < front.len() && front[i] == name;
        assert(all[i] == name);
    } else {
        assert(all[front.len() as int] == name);
    }
}

/// A connection that is opened again is opened with no other streams than those
/// that are followed on it.
pub proof fn law_reopened_with_no_other_streams(
    entries: Seq<(Seq<char>, usize)>,
    followed: Map<Seq<char>, usize>,
    connection: usize,
    name: Seq<char>,
)
    requires
        lists(entries, followed),
        names_on(entries, connection).contains(name),
    ensures
        exists|key: Seq<char>| #[trigger]
            followed.contains_key(key) && followed[key] == connection && after_separator(key)
                == name,
{
    let k = lemma_name_comes_from(entries, connection, name);
    assert(followed.contains_key(entries[k].0));
}

proof fn lemma_name_comes_from(
    entries: Seq<(Seq<char>, usize)>,
    connection: usize,
    name: Seq<char>,
) -> (k: int)
    requires
        names_on(entries, connection).contains(name),
    ensures
        0 <= k < entries.len(),
        entries[k].1 == connection,
        after_separator(entries[k].0) == name,
    decreases entries.len(),
{
    let front = names_on(entries.drop_last(), connection);
    let all = names_on(entries, connection);
    let i = choose|i: int| 0 <= i < all.len() && all[i] == name;
    if i < front.len() {
        assert(front[i] == name);
        lemma_name_comes_from(entries.drop_last(), connection, name)
    } else {
        entries.len() - 1
    }
}

/// An event is handed to every callback that waits for events.
pub proof fn law_event_reaches_every_callback(
    entries: Seq<(Seq<char>, Seq<CallbackId>)>,
    waiting: Map<Seq<char>, Seq<CallbackId>>,
    key: Seq<char>,
    callback: CallbackId,
)
    requires
        lists(entries, waiting),
        waiting.contains_key(key),
        waiting[key].contains(callback),
    ensures
        all_callbacks(entries).contains(callback),
{
    assert(has_key(entries, key));
    let k = choose|k: int| #![trigger entries[k]] 0 <= k < entries.len() && entries[k].0 == key;
    lemma_all_callbacks_contains(entries, k, callback);
}

proof fn lemma_all_callbacks_contains(
    entries: Seq<(Seq<char>, Seq<CallbackId>)>,
    k: int,
    callback: CallbackId,
)
    requires
        0 <= k < entries.len(),
        entries[k].1.contains(callback),
    ensures
        all_callbacks(entries).contains(callback),
    decreases entries.len(),
{
    let front = all_callbacks(entries.drop_last());
    let all = all_callbacks(entries);
    if k < entries.len() - 1 {
        lemma_all_callbacks_contains(entries.drop_last(), k, callback);
        let i = choose|i: int| 0 <= i < front.len() && front[i] == callback;
        assert(all[i] == callback);
    } else {
        let list = entries.last().1;
        let i = choose|i: int| 0 <= i < list.len() && list[i] == callback;
        assert(all[front.len() + i] == callback);
    }
}

impl StreamsView {
    /// Every stream that is followed has a list of callbacks, if only an empty
    /// one, on the connection that it is followed on.
    pub open spec fn listens(self) -> bool {
        forall|key: Seq<char>| #[trigger]
            self.connection_streams.contains_key(key) ==> self.callbacks_of(key).contains_key(key)
    }
}

/// A new client, and one that was disconnected, follows no stream.
pub proof fn law_cleared_listens(streams: StreamsView)
    ensures
        streams.cleared().listens(),
{
}

/// Following streams keeps a list of callbacks for every stream that is
/// followed.
pub proof fn law_subscribe_listens(
    streams: StreamsView,
    names: Seq<Seq<char>>,
    url_path: Option<Seq<char>>,
)
    requires
        streams.wf(),
        streams.common.pool.len() <= usize::MAX,
        streams.listens(),
    ensures
        streams.after_subscribe(names, url_path).listens(),
        streams.after_subscribe(names, url_path).wf(),
{
    let fresh = streams.unfollowed(names, url_path);
    let assigned = streams.assignments(fresh, url_path);
    lemma_assignments_listen(streams, fresh, url_path);
    let middle = streams.after_assignments(fresh, url_path);
    let after = middle.with_queued(assigned);
    assert forall|key: Seq<char>| #[trigger]
        after.connection_streams.contains_key(key) implies after.callbacks_of(key).contains_key(
        key,
    ) && after.common.holds(after.connection_streams[key]) by {
        assert(middle.connection_streams.contains_key(key));
        assert(middle.callbacks_of(key).contains_key(key));
        assert(middle.common.holds(middle.connection_streams[key]));
    }
}

proof fn lemma_assignments_listen(
    streams: StreamsView,
    names: Seq<Seq<char>>,
    url_path: Option<Seq<char>>,
)
    requires
        streams.wf(),
        streams.common.pool.len() <= usize::MAX,
        streams.listens(),
    ensures
        streams.after_assignments(names, url_path).listens(),
        streams.after_assignments(names, url_path).wf(),
        streams.after_assignments(names, url_path).common.pool.len() == streams.common.pool.len(),
    decreases names.len(),
{
    if names.len() > 0 {
        lemma_assignments_listen(streams, names.drop_last(), url_path);
        let before = streams.after_assignments(names.drop_last(), url_path);
        let key = key_of(names.last(), url_path);
        let after = before.after_assignment(names.last(), url_path);
        if before.needs_connection(key) && before.common.candidates(true, url_path).len() > 0 {
            lemma_candidate_in_pool(before.common, url_path);
        }
        if before.connection_streams.contains_key(key) {
            assert(before.common.holds(before.connection_streams[key]));
        }
        assert forall|k: Seq<char>| #[trigger]
            after.connection_streams.contains_key(k) implies after.callbacks_of(k).contains_key(k)
            && after.common.holds(after.connection_streams[k]) by {
            if k != key {
                assert(before.connection_streams.contains_key(k));
                assert(before.callbacks_of(k).contains_key(k));
                assert(before.common.holds(before.connection_streams[k]));
            }
        }
    }
}

/// Letting go of streams keeps a list of callbacks for every stream that is
/// still followed.
pub proof fn law_unsubscribe_listens(
    streams: StreamsView,
    names: Seq<Seq<char>>,
    url_path: Option<Seq<char>>,
)
    requires
        streams.wf(),
        streams.listens(),
    ensures
        streams.after_unsubscribe(names, url_path).listens(),
        streams.after_unsubscribe(names, url_path).wf(),
    decreases names.len(),
{
    if names.len() > 0 {
        law_unsubscribe_listens(streams, names.drop_last(), url_path);
        let before = streams.after_unsubscribe(names.drop_last(), url_path);
        let after = before.after_unsubscribe_one(names.last(), url_path);
        let key = key_of(names.last(), url_path);
        if before.connection_streams.contains_key(key) {
            assert(before.common.holds(before.connection_streams[key]));
        }
        assert forall|k: Seq<char>| #[trigger]
            after.connection_streams.contains_key(k) implies after.callbacks_of(k).contains_key(k)
            && after.common.holds(after.connection_streams[k]) by {
            assert(before.connection_streams.contains_key(k));
            assert(before.callbacks_of(k).contains_key(k));
            assert(before.common.holds(before.connection_streams[k]));
        }
    }
}

/// A callback that begins or ceases to wait changes nothing about which streams
/// have lists of callbacks.
pub proof fn law_callbacks_listen(streams: StreamsView, stream: StreamView, callback: CallbackId)
    requires
        streams.wf(),
        streams.listens(),
        streams.connection_streams.contains_key(stream.key()),
    ensures
        BaseView::Streams(streams).with_registered(stream, callback)->Streams_0.listens(),
        BaseView::Streams(streams).with_deregistered(stream, callback)->Streams_0.listens(),
{
    let key = stream.key();
    let with = BaseView::Streams(streams).with_registered(stream, callback)->Streams_0;
    let without = BaseView::Streams(streams).with_deregistered(stream, callback)->Streams_0;
    assert(streams.common.holds(streams.connection_streams[key]));
    assert forall|k: Seq<char>| #[trigger]
        with.connection_streams.contains_key(k) implies with.callbacks_of(k).contains_key(k) by {
        assert(streams.connection_streams.contains_key(k));
        assert(streams.callbacks_of(k).contains_key(k));
    }
    assert forall|k: Seq<char>| #[trigger]
        without.connection_streams.contains_key(k) implies without.callbacks_of(k).contains_key(
        k,
    ) by {
        assert(streams.connection_streams.contains_key(k));
        assert(streams.callbacks_of(k).contains_key(k));
    }
}

} // verus!
