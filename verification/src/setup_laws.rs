//! What holds of callbacks, deliveries and the paths of connections, whatever
//! the streams are.

use crate::api::ApiView;
use crate::common::CommonView;
use crate::connection::{CallbackId, ConnectionStateView, HandlerId};
use crate::failure::{
    io_cause, io_failure, transport_failure, TransportFailure, WebsocketConnectionFailureReason,
};
use crate::json::{json_view, JsonView};
use crate::lifecycle::{
    OpenTarget, CLOSE_WAIT_SECONDS, CONNECT_WAIT_SECONDS, MAX_CONN_SECONDS, NORMAL_CLOSE_CODE,
    RECONNECT_PAUSE_SECONDS,
};
use crate::models::ConfigurationWebsocketStreams;
use crate::stream::{
    callbacks_at, deregistered, registered, with_callback, without_callback, BaseView, StreamView,
};
use crate::stream_setup::{are_path_targets, missing_connections, pool_too_small};
use crate::streams::{key_of, names_on, stream_url, StreamDelivery, StreamsView};
use crate::string_map::lists;
use crate::text::{after_separator, decimal, has_suffix};
use crate::text_laws::law_suffix;
use tokio_tungstenite::tungstenite;
use vstd::arithmetic::div_mod::lemma_fundamental_div_mod_converse;
use vstd::prelude::*;

verus! {

/// A message is delivered exactly where it has a text under `stream` and
/// anything under `data`: what stands under `data` goes to the callbacks of the
/// stream on the path of the connection, in their order, and to nobody where
/// there is no list of them.
pub proof fn law_delivery(
    streams: StreamsView,
    place: int,
    document: JsonView,
    delivery: Option<StreamDelivery>,
)
    requires
        streams.delivers(place, document, delivery),
    ensures
        ({
            let name = document.member("stream"@);
            let data = document.member("data"@);
            let state = streams.common.pool[place].state;
            let key = key_of(name->0->Text_0, state.url_path);
            &&& delivery is Some <==> name is Some && name->0 is Text && data is Some
            &&& delivery is Some ==> json_view(delivery->0.payload) == data->0
            &&& delivery is Some && state.stream_callbacks.contains_key(key)
                ==> delivery->0.callbacks@ == state.stream_callbacks[key]
            &&& delivery is Some && !state.stream_callbacks.contains_key(key)
                ==> delivery->0.callbacks@.len() == 0
        }),
{
}

/// A stream counts as subscribed exactly where a key that is followed is its
/// name, or its name behind some text and `::`.
pub proof fn law_subscribed(streams: StreamsView, stream: Seq<char>)
    ensures
        streams.subscribed(stream) <==> exists|key: Seq<char>| #[trigger]
            streams.connection_streams.contains_key(key) && (key == stream || exists|
                front: Seq<char>,
            |
                key == #[trigger] (front + ("::"@ + stream))),
{
    let suffix = "::"@ + stream;
    if streams.subscribed(stream) {
        let key = choose|key: Seq<char>| #[trigger]
            streams.connection_streams.contains_key(key) && (key == stream || has_suffix(
                key,
                suffix,
            ));
        law_suffix(key, suffix);
        assert(streams.connection_streams.contains_key(key));
    }
    if exists|key: Seq<char>| #[trigger]
        streams.connection_streams.contains_key(key) && (key == stream || exists|
            front: Seq<char>,
        |
            key == #[trigger] (front + suffix)) {
        let key = choose|key: Seq<char>| #[trigger]
            streams.connection_streams.contains_key(key) && (key == stream || exists|
                front: Seq<char>,
            |
                key == #[trigger] (front + suffix));
        law_suffix(key, suffix);
        assert(streams.connection_streams.contains_key(key));
    }
}

/// The names of the streams of a connection are told entry by entry: an entry of
/// the connection gives the name behind its path, any other none.
pub proof fn law_names_one_by_one(
    left: Seq<(Seq<char>, usize)>,
    right: Seq<(Seq<char>, usize)>,
    key: Seq<char>,
    place: usize,
    connection: usize,
)
    ensures
        names_on(left + right, connection) == names_on(left, connection) + names_on(
            right,
            connection,
        ),
        place == connection ==> names_on(seq![(key, place)], connection) == seq![
            after_separator(key),
        ],
        place != connection ==> names_on(seq![(key, place)], connection).len() == 0,
        names_on(Seq::empty(), connection).len() == 0,
    decreases right.len(),
{
    reveal_with_fuel(names_on, 2);
    let one = seq![(key, place)];
    assert(one.drop_last() =~= Seq::<(Seq<char>, usize)>::empty());
    if place == connection {
        assert(names_on(one, connection) =~= seq![after_separator(key)]);
    }
    if right.len() == 0 {
        assert(left + right =~= left);
        assert(names_on(left, connection) + names_on(right, connection) =~= names_on(
            left,
            connection,
        ));
    } else {
        law_names_one_by_one(left, right.drop_last(), key, place, connection);
        assert((left + right).drop_last() =~= left + right.drop_last());
        assert(names_on(left + right, connection) =~= names_on(left, connection) + names_on(
            right,
            connection,
        ));
    }
}

/// A callback that comes to wait stands behind those that wait, unless it is one
/// of them: no other comes, goes or moves.
pub proof fn law_callback_added(callbacks: Seq<CallbackId>, callback: CallbackId)
    ensures
        with_callback(callbacks, callback).contains(callback),
        callbacks.contains(callback) ==> with_callback(callbacks, callback) == callbacks,
        !callbacks.contains(callback) ==> with_callback(callbacks, callback) == callbacks + seq![
            callback,
        ],
{
    if !callbacks.contains(callback) {
        assert(with_callback(callbacks, callback)[callbacks.len() as int] == callback);
        assert(callbacks.push(callback) =~= callbacks + seq![callback]);
    }
}

/// A callback that no longer waits is taken out wherever it stands, and no other
/// comes, goes or moves.
pub proof fn law_callback_removed(
    left: Seq<CallbackId>,
    right: Seq<CallbackId>,
    callback: CallbackId,
    other: CallbackId,
)
    ensures
        without_callback(left + right, callback) == without_callback(left, callback)
            + without_callback(right, callback),
        without_callback(seq![callback], callback).len() == 0,
        other != callback ==> without_callback(seq![other], callback) == seq![other],
    decreases right.len(),
{
    reveal(Seq::filter);
    reveal_with_fuel(Seq::filter, 2);
    assert(seq![callback].drop_last() =~= Seq::<CallbackId>::empty());
    assert(seq![other].drop_last() =~= Seq::<CallbackId>::empty());
    if other != callback {
        assert(without_callback(seq![other], callback) =~= seq![other]);
    }
    if right.len() == 0 {
        assert(left + right =~= left);
        assert(without_callback(left, callback) + without_callback(right, callback)
            =~= without_callback(left, callback));
    } else {
        law_callback_removed(left, right.drop_last(), callback, other);
        assert((left + right).drop_last() =~= left + right.drop_last());
        assert(without_callback(left + right, callback) =~= without_callback(left, callback)
            + without_callback(right, callback));
    }
}

/// A callback that comes to wait under a key makes up a list there or joins it,
/// and one that no longer waits leaves it, without a list nothing happens. Lists
/// under other keys are untouched.
pub proof fn law_lists_of_callbacks(
    callbacks: Map<Seq<char>, Seq<CallbackId>>,
    key: Seq<char>,
    callback: CallbackId,
    other: Seq<char>,
)
    requires
        other != key,
    ensures
        callbacks.contains_key(key) ==> callbacks_at(callbacks, key) == callbacks[key],
        !callbacks.contains_key(key) ==> callbacks_at(callbacks, key).len() == 0,
        registered(callbacks, key, callback).contains_key(key),
        callbacks.contains_key(key) ==> registered(callbacks, key, callback)[key] == with_callback(
            callbacks[key],
            callback,
        ),
        !callbacks.contains_key(key) ==> registered(callbacks, key, callback)[key] == seq![
            callback,
        ],
        registered(callbacks, key, callback).remove(key) == callbacks.remove(key),
        registered(callbacks, key, callback).contains_key(other) <==> callbacks.contains_key(other),
        callbacks.contains_key(other) ==> registered(callbacks, key, callback)[other]
            == callbacks[other],
        callbacks.contains_key(key) ==> deregistered(callbacks, key, callback).contains_key(key)
            && deregistered(callbacks, key, callback)[key] == without_callback(
            callbacks[key],
            callback,
        ),
        !callbacks.contains_key(key) ==> deregistered(callbacks, key, callback) == callbacks,
        deregistered(callbacks, key, callback).remove(key) == callbacks.remove(key),
        deregistered(callbacks, key, callback).contains_key(other) <==> callbacks.contains_key(
            other,
        ),
        callbacks.contains_key(other) ==> deregistered(callbacks, key, callback)[other]
            == callbacks[other],
{
    let empty = Seq::<CallbackId>::empty();
    assert(!empty.contains(callback));
    assert(empty.push(callback) =~= seq![callback]);
    assert(registered(callbacks, key, callback).remove(key) =~= callbacks.remove(key));
    assert(deregistered(callbacks, key, callback).remove(key) =~= callbacks.remove(key));
}

/// The callbacks of a request and reply client are kept by the name of the
/// stream, in the client, and nothing else changes there.
pub proof fn law_callbacks_of_the_client(
    api: ApiView,
    stream: StreamView,
    callback: CallbackId,
)
    ensures
        BaseView::Api(api).with_registered(stream, callback) == BaseView::Api(
            ApiView {
                stream_callbacks: registered(api.stream_callbacks, stream.stream_or_id, callback),
                ..api
            },
        ),
        BaseView::Api(api).with_deregistered(stream, callback) == BaseView::Api(
            ApiView {
                stream_callbacks: deregistered(
                    api.stream_callbacks,
                    stream.stream_or_id,
                    callback,
                ),
                ..api
            },
        ),
        BaseView::Api(api).follows(stream),
{
}

/// The callbacks of a stream that is followed are kept by its key, with the
/// connection that it is followed on. Nothing else about that connection
/// changes, and nothing about any other or about the client.
pub proof fn law_callbacks_of_a_connection(
    streams: StreamsView,
    stream: StreamView,
    callback: CallbackId,
    i: int,
)
    requires
        streams.wf(),
        streams.connection_streams.contains_key(key_of(stream.stream_or_id, stream.url_path)),
        0 <= i < streams.common.pool.len(),
    ensures
        ({
            let key = key_of(stream.stream_or_id, stream.url_path);
            let place = streams.connection_streams[key] as int;
            let state = streams.common.pool[i].state;
            let added = BaseView::Streams(streams).with_registered(stream, callback);
            let removed = BaseView::Streams(streams).with_deregistered(stream, callback);
            &&& BaseView::Streams(streams).follows(stream)
            &&& added is Streams
            &&& added->Streams_0 == (StreamsView {
                common: CommonView { pool: added->Streams_0.common.pool, ..streams.common },
                ..streams
            })
            &&& added->Streams_0.common.pool.len() == streams.common.pool.len()
            &&& added->Streams_0.common.pool[i].id == streams.common.pool[i].id
            &&& added->Streams_0.common.pool[i].state == if i == place {
                ConnectionStateView {
                    stream_callbacks: registered(state.stream_callbacks, key, callback),
                    ..state
                }
            } else {
                state
            }
            &&& removed is Streams
            &&& removed->Streams_0 == (StreamsView {
                common: CommonView { pool: removed->Streams_0.common.pool, ..streams.common },
                ..streams
            })
            &&& removed->Streams_0.common.pool.len() == streams.common.pool.len()
            &&& removed->Streams_0.common.pool[i].id == streams.common.pool[i].id
            &&& removed->Streams_0.common.pool[i].state == if i == place {
                ConnectionStateView {
                    stream_callbacks: deregistered(state.stream_callbacks, key, callback),
                    ..state
                }
            } else {
                state
            }
        }),
{
    let key = key_of(stream.stream_or_id, stream.url_path);
    assert(streams.common.holds(streams.connection_streams[key]));
}

/// With paths, connections are added until there is a full set for each of them,
/// and none where there are enough. Without paths a full set is added where no
/// connection was given.
pub proof fn law_missing_connections(given: int, size: int, paths: int)
    requires
        given >= 0,
        size > 0,
        paths >= 0,
    ensures
        paths > 0 && given <= size * paths ==> given + missing_connections(given, size, paths)
            == size * paths,
        paths > 0 && given > size * paths ==> missing_connections(given, size, paths) == 0,
        paths == 0 && given == 0 ==> missing_connections(given, size, paths) == size,
        paths == 0 && given > 0 ==> missing_connections(given, size, paths) == 0,
{
}

/// There are full sets exactly where there are as many connections as the paths
/// have together.
pub proof fn law_full_sets(streams: StreamsView)
    ensures
        streams.has_full_sets() <==> streams.common.pool.len() >= streams.url_paths.len()
            * streams.configuration.mode.size(),
{
}

/// The report of a pool that is too small tells how many connections each path
/// needs, which path is the first that has too few, and how many it has.
pub proof fn law_pool_too_small(size: int, index: int, rest: int)
    requires
        size > 0,
        index >= 0,
        0 <= rest < size,
    ensures
        pool_too_small(size, index * size + rest)
            == "connection_pool too small for url_paths: need "@ + decimal(size as nat)
            + " per path, got "@ + decimal(rest as nat) + " for path index "@ + decimal(
            index as nat,
        ),
{
    lemma_fundamental_div_mod_converse(index * size + rest, size, index, rest);
}

/// Each path is given to as many connections as a set has, one path after the
/// other, as far as connections were counted. The others keep theirs, and
/// nothing else changes.
pub proof fn law_paths_of_connections(
    common: CommonView,
    size: int,
    paths: Seq<Seq<char>>,
    count: int,
    index: int,
    offset: int,
    i: int,
)
    requires
        0 <= i < common.pool.len(),
        size > 0,
        index >= 0,
        0 <= offset < size,
        i == index * size + offset,
    ensures
        ({
            let after = common.with_paths(size, paths, count);
            &&& after.pool.len() == common.pool.len()
            &&& after.pool[i].id == common.pool[i].id
            &&& i < count ==> after.pool[i].state == (ConnectionStateView {
                url_path: Some(paths[index]),
                ..common.pool[i].state
            })
            &&& i >= count ==> after.pool[i].state == common.pool[i].state
            &&& after == CommonView { pool: after.pool, ..common }
        }),
{
    lemma_fundamental_div_mod_converse(i, size, index, offset);
}

/// Each path is opened at the URL of the streams below it, on as many
/// connections as a set has: those behind the sets of the paths before it.
pub proof fn law_path_targets(
    targets: Seq<OpenTarget>,
    configuration: ConfigurationWebsocketStreams,
    streams: Seq<Seq<char>>,
    paths: Seq<Seq<char>>,
    i: int,
    j: int,
)
    requires
        are_path_targets(targets, configuration, streams, paths),
        0 <= i < paths.len(),
        0 <= j < configuration.mode.size(),
        i * configuration.mode.size() + j <= usize::MAX,
    ensures
        targets.len() == paths.len(),
        targets[i].url@ == stream_url(configuration, streams, Some(paths[i])),
        targets[i].connections@.len() == configuration.mode.size(),
        targets[i].connections@[j] == i * configuration.mode.size() + j,
{
    let size = configuration.mode.size() as int;
    assert(i * size >= 0) by (nonlinear_arith)
        requires
            i >= 0,
            size >= 0,
    ;
    assert(targets[i].connections@.len() == configuration.mode.size());
}

/// A client that lets go of every stream follows none, and no connection has
/// callbacks or streams to ask for. A client that connects has the handler on
/// every connection. Nothing else changes.
pub proof fn law_cleared_and_connecting(streams: StreamsView, handler: HandlerId, i: int)
    requires
        0 <= i < streams.common.pool.len(),
    ensures
        ({
            let cleared = streams.cleared();
            let begun = streams.connecting(handler);
            let state = streams.common.pool[i].state;
            &&& cleared == (StreamsView {
                common: CommonView { pool: cleared.common.pool, ..streams.common },
                connection_streams: Map::empty(),
                ..streams
            })
            &&& cleared.common.pool.len() == streams.common.pool.len()
            &&& cleared.common.pool[i].id == streams.common.pool[i].id
            &&& cleared.common.pool[i].state == (ConnectionStateView {
                stream_callbacks: Map::empty(),
                pending_subscriptions: Seq::empty(),
                ..state
            })
            &&& begun == (StreamsView {
                common: CommonView { pool: begun.common.pool, ..streams.common },
                is_connecting: true,
                ..streams
            })
            &&& begun.common.pool.len() == streams.common.pool.len()
            &&& begun.common.pool[i].id == streams.common.pool[i].id
            &&& begun.common.pool[i].state == (ConnectionStateView {
                handler: Some(handler),
                ..state
            })
        }),
{
}

/// A pool is in order where it has a connection, and a client that follows
/// streams where its pool is and every stream is followed on a connection of it.
pub proof fn law_in_order(common: CommonView, streams: StreamsView, place: usize)
    ensures
        common.wf() <==> common.pool.len() > 0,
        common.holds(place) <==> place < common.pool.len(),
        common.state(place as int) == common.pool[place as int].state,
        streams.wf() <==> streams.common.pool.len() > 0 && forall|key: Seq<char>| #[trigger]
            streams.connection_streams.contains_key(key) ==> streams.connection_streams[key]
                < streams.common.pool.len(),
{
    if streams.wf() {
        assert forall|key: Seq<char>| #[trigger]
            streams.connection_streams.contains_key(key) implies streams.connection_streams[key]
            < streams.common.pool.len() by {
            assert(streams.common.holds(streams.connection_streams[key]));
        }
    }
}

/// A client with another pool is the same client otherwise.
pub proof fn law_other_pool(streams: StreamsView, api: ApiView, common: CommonView)
    ensures
        streams.with_common(common) == (StreamsView { common, ..streams }),
        api.with_common(common) == (ApiView { common, ..api }),
{
}

/// What the entries of a map list is what the map holds: every entry's value
/// under its key, no key twice, and nothing under any other key.
pub proof fn law_lists<W>(
    entries: Seq<(Seq<char>, W)>,
    map: Map<Seq<char>, W>,
    key: Seq<char>,
    i: int,
    j: int,
)
    requires
        lists(entries, map),
    ensures
        0 <= i < entries.len() ==> map.contains_key(entries[i].0) && map[entries[i].0]
            == entries[i].1,
        0 <= i < entries.len() && 0 <= j < entries.len() && entries[i].0 == entries[j].0 ==> i == j,
        map.contains_key(key) ==> exists|k: int|
            0 <= k < entries.len() && (#[trigger] entries[k]).0 == key,
{
    if 0 <= i < entries.len() && 0 <= j < entries.len() && i != j {
        let (a, b) = if i < j {
            (i, j)
        } else {
            (j, i)
        };
        assert(entries[a].0 != entries[b].0);
    }
    if map.contains_key(key) {
        let k = choose|k: int| #![trigger entries[k]] 0 <= k < entries.len() && entries[k].0 == key;
        assert(entries[k].0 == key);
    }
}

/// An error of the transport stands for the reason of its kind, one of input or
/// output for that of what it wraps.
pub proof fn law_reason_of_error(error: tungstenite::Error)
    ensures
        WebsocketConnectionFailureReason::of_error(error)
            == WebsocketConnectionFailureReason::of_transport_failure(
            transport_failure(error),
            io_failure(io_cause(error)),
        ),
        transport_failure(error) == TransportFailure::Io
            ==> WebsocketConnectionFailureReason::of_error(error)
            == WebsocketConnectionFailureReason::of_io_failure(io_failure(io_cause(error))),
{
}

/// A connection is used for 23 hours before it is renewed. Its requests are
/// waited for half a minute when it is closed, with the code of a normal close,
/// an attempt to connect takes ten seconds at most, and attempts to open a
/// connection again are a second apart.
pub proof fn law_waits()
    ensures
        MAX_CONN_SECONDS == 23 * 60 * 60,
        CLOSE_WAIT_SECONDS == 30,
        CONNECT_WAIT_SECONDS == 10,
        RECONNECT_PAUSE_SECONDS == 1,
        NORMAL_CLOSE_CODE == 1000,
{
}

} // verus!
