//! What holds of letting go of many streams at once.

use crate::common::CommonView;
use crate::connection::{ConnectionStateView, ConnectionView};
use crate::json::{json_parse, JsonView};
use crate::models::StreamIdView;
use crate::streams::{key_of, StreamsView};
use crate::subscription::{are_releases, Assigned, StreamMessage};
use crate::text_laws::law_key_tells_streams_apart;
use vstd::prelude::*;

verus! {

/// What a call lets go of, and what that leaves, told from the state before it.
proof fn lemma_unsubscribed(
    streams: StreamsView,
    names: Seq<Seq<char>>,
    url_path: Option<Seq<char>>,
)
    requires
        streams.wf(),
    ensures
        ({
            let after = streams.after_unsubscribe(names, url_path);
            &&& after.wf()
            &&& after.common.pool.len() == streams.common.pool.len()
            &&& after == (StreamsView {
                common: CommonView { pool: after.common.pool, ..streams.common },
                connection_streams: after.connection_streams,
                ..streams
            })
            &&& forall|key: Seq<char>| #[trigger]
                after.connection_streams.contains_key(key)
                    <==> streams.connection_streams.contains_key(key) && !(exists|i: int|
                    #![trigger names[i]]
                    0 <= i < names.len() && key_of(names[i], url_path) == key && streams.lets_go(
                        names[i],
                        url_path,
                    ))
            &&& forall|key: Seq<char>| #[trigger]
                after.connection_streams.contains_key(key) ==> after.connection_streams[key]
                    == streams.connection_streams[key]
            &&& forall|i: int|
                0 <= i < streams.common.pool.len() ==> #[trigger] after.common.pool[i] == (
                ConnectionView {
                    state: ConnectionStateView {
                        stream_callbacks: after.common.pool[i].state.stream_callbacks,
                        ..streams.common.pool[i].state
                    },
                    ..streams.common.pool[i]
                })
            &&& forall|p: int, key: Seq<char>|
                0 <= p < streams.common.pool.len() ==> (
                #[trigger] after.common.pool[p].state.stream_callbacks.contains_key(key)
                    <==> streams.common.pool[p].state.stream_callbacks.contains_key(key) && !(
                streams.connection_streams.contains_key(key) && streams.connection_streams[key] == p
                    && !after.connection_streams.contains_key(key)))
            &&& forall|p: int, key: Seq<char>|
                0 <= p < streams.common.pool.len()
                    && #[trigger] after.common.pool[p].state.stream_callbacks.contains_key(key)
                    ==> after.common.pool[p].state.stream_callbacks[key]
                    == streams.common.pool[p].state.stream_callbacks[key]
        }),
    decreases names.len(), 0int,
{
    if names.len() > 0 {
        let rest = names.drop_last();
        lemma_unsubscribed(streams, rest, url_path);
        lemma_still_lets_go(streams, rest, url_path, names.last());
        let before = streams.after_unsubscribe(rest, url_path);
        let after = streams.after_unsubscribe(names, url_path);
        let last = key_of(names.last(), url_path);
        assert(names[names.len() - 1] == names.last());
        if before.connection_streams.contains_key(last) {
            assert(before.common.holds(before.connection_streams[last]));
        }
        assert forall|key: Seq<char>| #[trigger]
            after.connection_streams.contains_key(key)
                <==> streams.connection_streams.contains_key(key) && !(exists|i: int|
                #![trigger names[i]]
                0 <= i < names.len() && key_of(names[i], url_path) == key && streams.lets_go(
                    names[i],
                    url_path,
                )) by {
            if exists|i: int|
                #![trigger rest[i]]
                0 <= i < rest.len() && key_of(rest[i], url_path) == key && streams.lets_go(
                    rest[i],
                    url_path,
                ) {
                let i = choose|i: int|
                    #![trigger rest[i]]
                    0 <= i < rest.len() && key_of(rest[i], url_path) == key && streams.lets_go(
                        rest[i],
                        url_path,
                    );
                assert(names[i] == rest[i]);
            }
            if exists|i: int|
                #![trigger names[i]]
                0 <= i < names.len() && key_of(names[i], url_path) == key && streams.lets_go(
                    names[i],
                    url_path,
                ) {
                let i = choose|i: int|
                    #![trigger names[i]]
                    0 <= i < names.len() && key_of(names[i], url_path) == key && streams.lets_go(
                        names[i],
                        url_path,
                    );
                if i < rest.len() {
                    assert(rest[i] == names[i]);
                }
                if rest.contains(names.last()) {
                    let j = choose|j: int| 0 <= j < rest.len() && rest[j] == names.last();
                    assert(key_of(rest[j], url_path) == last);
                }
            }
            assert(before.connection_streams.contains_key(key)
                ==> streams.connection_streams.contains_key(key));
        }
        assert forall|key: Seq<char>| #[trigger]
            after.connection_streams.contains_key(key) implies after.connection_streams[key]
            == streams.connection_streams[key] by {
            assert(before.connection_streams.contains_key(key));
        }
        assert forall|i: int| 0 <= i < streams.common.pool.len() implies #[trigger] after.common.pool[i]
            == (ConnectionView {
            state: ConnectionStateView {
                stream_callbacks: after.common.pool[i].state.stream_callbacks,
                ..streams.common.pool[i].state
            },
            ..streams.common.pool[i]
        }) by {
            assert(before.common.pool[i].id == streams.common.pool[i].id);
        }
        assert forall|p: int, key: Seq<char>| 0 <= p < streams.common.pool.len() implies (
        #[trigger] after.common.pool[p].state.stream_callbacks.contains_key(key)
            <==> streams.common.pool[p].state.stream_callbacks.contains_key(key) && !(
        streams.connection_streams.contains_key(key) && streams.connection_streams[key] == p
            && !after.connection_streams.contains_key(key))) by {
            assert(before.common.pool[p].state.stream_callbacks.contains_key(key)
                <==> streams.common.pool[p].state.stream_callbacks.contains_key(key) && !(
            streams.connection_streams.contains_key(key) && streams.connection_streams[key] == p
                && !before.connection_streams.contains_key(key)));
            assert(before.connection_streams.contains_key(last)
                ==> streams.connection_streams.contains_key(last));
        }
        assert forall|p: int, key: Seq<char>|
            0 <= p < streams.common.pool.len()
                && #[trigger] after.common.pool[p].state.stream_callbacks.contains_key(
                key,
            ) implies after.common.pool[p].state.stream_callbacks[key]
            == streams.common.pool[p].state.stream_callbacks[key] by {
            assert(before.common.pool[p].state.stream_callbacks.contains_key(key));
        }
        assert forall|key: Seq<char>| #[trigger]
            after.connection_streams.contains_key(key) implies after.common.holds(
            after.connection_streams[key],
        ) by {
            assert(before.connection_streams.contains_key(key));
            assert(before.common.holds(before.connection_streams[key]));
        }
    }
}

/// A stream that would be let go of is still let go of after others were, and
/// not a second time.
proof fn lemma_still_lets_go(
    streams: StreamsView,
    names: Seq<Seq<char>>,
    url_path: Option<Seq<char>>,
    name: Seq<char>,
)
    requires
        streams.wf(),
    ensures
        streams.after_unsubscribe(names, url_path).lets_go(name, url_path) <==> streams.lets_go(
            name,
            url_path,
        ) && !names.contains(name),
    decreases names.len(), 1int,
{
    lemma_unsubscribed(streams, names, url_path);
    let after = streams.after_unsubscribe(names, url_path);
    let key = key_of(name, url_path);
    if names.contains(name) && streams.lets_go(name, url_path) {
        let i = choose|i: int| 0 <= i < names.len() && names[i] == name;
        assert(key_of(names[i], url_path) == key);
        assert(!after.connection_streams.contains_key(key));
    }
    if streams.connection_streams.contains_key(key) {
        assert(streams.common.holds(streams.connection_streams[key]));
        let place = streams.connection_streams[key] as int;
        assert(after.common.pool[place].state.ws_write_tx
            == streams.common.pool[place].state.ws_write_tx);
        if !after.connection_streams.contains_key(key) {
            let i = choose|i: int|
                #![trigger names[i]]
                0 <= i < names.len() && key_of(names[i], url_path) == key && streams.lets_go(
                    names[i],
                    url_path,
                );
            law_key_tells_streams_apart(names[i], name, url_path);
            assert(names.contains(name));
        } else {
            assert(after.common.pool[place].state.stream_callbacks.contains_key(key)
                <==> streams.common.pool[place].state.stream_callbacks.contains_key(key));
        }
    }
}

/// What is let go of, told from the state before the call.
proof fn lemma_released(streams: StreamsView, names: Seq<Seq<char>>, url_path: Option<Seq<char>>)
    requires
        streams.wf(),
    ensures
        ({
            let released = streams.released(names, url_path);
            &&& forall|k: int|
                0 <= k < released.len() ==> names.contains((#[trigger] released[k]).0)
                    && streams.lets_go(released[k].0, url_path) && released[k].1
                    == streams.connection_streams[key_of(released[k].0, url_path)]
            &&& forall|j: int, k: int|
                0 <= j < k < released.len() ==> (#[trigger] released[j]).0 != (
                #[trigger] released[k]).0
            &&& forall|i: int|
                0 <= i < names.len() && streams.lets_go(#[trigger] names[i], url_path)
                    ==> exists|k: int|
                    0 <= k < released.len() && (#[trigger] released[k]).0 == names[i]
            &&& names.no_duplicates() ==> released == names.filter(
                |name: Seq<char>| streams.lets_go(name, url_path),
            ).map_values(
                |name: Seq<char>| (name, streams.connection_streams[key_of(name, url_path)]),
            )
        }),
    decreases names.len(),
{
    reveal(Seq::filter);
    let goes = |name: Seq<char>| streams.lets_go(name, url_path);
    let pair = |name: Seq<char>| (name, streams.connection_streams[key_of(name, url_path)]);
    let all = streams.released(names, url_path);
    if names.len() > 0 {
        let rest = names.drop_last();
        lemma_released(streams, rest, url_path);
        lemma_unsubscribed(streams, rest, url_path);
        lemma_still_lets_go(streams, rest, url_path, names.last());
        let before = streams.after_unsubscribe(rest, url_path);
        let front = streams.released(rest, url_path);
        let last = names.last();
        assert(names[names.len() - 1] == last);
        assert forall|k: int| 0 <= k < all.len() implies names.contains((#[trigger] all[k]).0)
            && streams.lets_go(all[k].0, url_path) && all[k].1
            == streams.connection_streams[key_of(all[k].0, url_path)] by {
            if k < front.len() {
                assert(all[k] == front[k]);
                let i = choose|i: int| 0 <= i < rest.len() && rest[i] == front[k].0;
                assert(names[i] == front[k].0);
            } else {
                assert(before.connection_streams.contains_key(key_of(last, url_path)));
            }
        }
        assert forall|j: int, k: int| 0 <= j < k < all.len() implies (#[trigger] all[j]).0 != (
        #[trigger] all[k]).0 by {
            assert(all[j] == front[j]);
            if k < front.len() {
                assert(all[k] == front[k]);
            } else {
                assert(rest.contains(front[j].0));
            }
        }
        assert forall|i: int|
            0 <= i < names.len() && streams.lets_go(#[trigger] names[i], url_path) implies exists|
            k: int,
        |
            0 <= k < all.len() && (#[trigger] all[k]).0 == names[i] by {
            if i < rest.len() || rest.contains(last) {
                let h = if i < rest.len() {
                    i
                } else {
                    choose|h: int| 0 <= h < rest.len() && rest[h] == last
                };
                assert(rest[h] == names[i]);
                assert(streams.lets_go(rest[h], url_path));
                let k = choose|k: int| 0 <= k < front.len() && (#[trigger] front[k]).0 == rest[h];
                assert(all[k] == front[k]);
            } else {
                assert(all[front.len() as int].0 == last);
            }
        }
        if names.no_duplicates() {
            assert(rest.no_duplicates()) by {
                assert forall|i: int, j: int|
                    0 <= i < rest.len() && 0 <= j < rest.len() && i != j implies rest[i]
                    != rest[j] by {
                    assert(names[i] != names[j]);
                }
            }
            if rest.contains(last) {
                let i = choose|i: int| 0 <= i < rest.len() && rest[i] == last;
                assert(names[i] == names[names.len() - 1]);
            }
            let kept = rest.filter(goes);
            assert(front == kept.map_values(pair));
            assert(kept.push(last).map_values(pair) =~= kept.map_values(pair).push(pair(last)));
            if goes(last) {
                assert(before.connection_streams.contains_key(key_of(last, url_path)));
            }
            assert(all =~= names.filter(goes).map_values(pair));
        }
    } else {
        assert(all =~= names.filter(goes).map_values(pair));
    }
}

/// A stream that is asked to be let go of is let go of where it is followed on a
/// connection that is open and neither lost nor being closed, and nobody waits
/// for its messages. It is then followed no longer, and exactly one message lets
/// go of it, on that connection, however often it was named and whatever stood
/// before it. Any other stream stays followed where it was, and no message lets
/// go of it.
pub proof fn law_unsubscribe_each(
    streams: StreamsView,
    names: Seq<Seq<char>>,
    url_path: Option<Seq<char>>,
    name: Seq<char>,
)
    requires
        streams.wf(),
    ensures
        ({
            let key = key_of(name, url_path);
            let followed = streams.connection_streams.contains_key(key);
            let place = streams.connection_streams[key];
            let state = streams.common.pool[place as int].state;
            let usable = state.ws_write_tx is Some && !state.reconnection_pending
                && !state.close_initiated;
            let awaited = state.stream_callbacks.contains_key(key)
                && state.stream_callbacks[key].len() > 0;
            let after = streams.after_unsubscribe(names, url_path).connection_streams;
            let released = streams.released(names, url_path);
            if names.contains(name) && followed && usable && !awaited {
                &&& !after.contains_key(key)
                &&& exists|k: int|
                    0 <= k < released.len() && #[trigger] released[k] == (name, place)
                &&& forall|j: int, k: int|
                    0 <= j < k < released.len() ==> !((#[trigger] released[j]).0 == name && (
                    #[trigger] released[k]).0 == name)
            } else {
                &&& after.contains_key(key) <==> followed
                &&& followed ==> after[key] == place
                &&& forall|k: int| 0 <= k < released.len() ==> (#[trigger] released[k]).0 != name
            }
        }),
{
    lemma_unsubscribed(streams, names, url_path);
    lemma_released(streams, names, url_path);
    let key = key_of(name, url_path);
    let after = streams.after_unsubscribe(names, url_path).connection_streams;
    let released = streams.released(names, url_path);
    if names.contains(name) && streams.lets_go(name, url_path) {
        let i = choose|i: int| 0 <= i < names.len() && names[i] == name;
        assert(streams.lets_go(names[i], url_path));
        let k = choose|k: int| 0 <= k < released.len() && (#[trigger] released[k]).0 == names[i];
        assert(released[k] == (name, streams.connection_streams[key]));
        assert(!after.contains_key(key));
    } else if streams.connection_streams.contains_key(key) && !after.contains_key(key) {
        let i = choose|i: int|
            #![trigger names[i]]
            0 <= i < names.len() && key_of(names[i], url_path) == key && streams.lets_go(
                names[i],
                url_path,
            );
        law_key_tells_streams_apart(names[i], name, url_path);
        assert(names.contains(name));
    }
}

/// Streams that were not named, on the path or at all, stay followed where they
/// were.
pub proof fn law_unsubscribe_leaves_others(
    streams: StreamsView,
    names: Seq<Seq<char>>,
    url_path: Option<Seq<char>>,
    key: Seq<char>,
)
    requires
        streams.wf(),
        forall|i: int| 0 <= i < names.len() ==> key_of(#[trigger] names[i], url_path) != key,
    ensures
        ({
            let after = streams.after_unsubscribe(names, url_path).connection_streams;
            &&& after.contains_key(key) <==> streams.connection_streams.contains_key(key)
            &&& after.contains_key(key) ==> after[key] == streams.connection_streams[key]
        }),
{
    lemma_unsubscribed(streams, names, url_path);
}

/// Messages let go of streams in the order in which they were named: with
/// different names, exactly those that are let go of, each with its connection.
pub proof fn law_unsubscribe_in_order(
    streams: StreamsView,
    names: Seq<Seq<char>>,
    url_path: Option<Seq<char>>,
)
    requires
        streams.wf(),
        names.no_duplicates(),
    ensures
        streams.released(names, url_path) == names.filter(
            |name: Seq<char>|
                {
                    let key = key_of(name, url_path);
                    let state =
                        streams.common.pool[streams.connection_streams[key] as int].state;
                    &&& streams.connection_streams.contains_key(key)
                    &&& state.ws_write_tx is Some
                    &&& !state.reconnection_pending
                    &&& !state.close_initiated
                    &&& !state.stream_callbacks.contains_key(key)
                        || state.stream_callbacks[key].len() == 0
                },
        ).map_values(
            |name: Seq<char>| (name, streams.connection_streams[key_of(name, url_path)]),
        ),
{
    lemma_released(streams, names, url_path);
    let goes = |name: Seq<char>| streams.lets_go(name, url_path);
    let told = |name: Seq<char>|
        {
            let key = key_of(name, url_path);
            let state = streams.common.pool[streams.connection_streams[key] as int].state;
            &&& streams.connection_streams.contains_key(key)
            &&& state.ws_write_tx is Some
            &&& !state.reconnection_pending
            &&& !state.close_initiated
            &&& !state.stream_callbacks.contains_key(key) || state.stream_callbacks[key].len() == 0
        };
    assert(goes =~= told);
}

/// Letting go of streams touches where streams are followed and, of each
/// connection, the lists of callbacks: the list of a stream that was let go of
/// on it is gone, every other one is as it was. Nothing else changes.
pub proof fn law_unsubscribe_leaves_the_rest(
    streams: StreamsView,
    names: Seq<Seq<char>>,
    url_path: Option<Seq<char>>,
    place: int,
    key: Seq<char>,
)
    requires
        streams.wf(),
        0 <= place < streams.common.pool.len(),
    ensures
        ({
            let after = streams.after_unsubscribe(names, url_path);
            let state = streams.common.pool[place].state;
            let now = after.common.pool[place].state;
            let gone = streams.connection_streams.contains_key(key)
                && streams.connection_streams[key] == place
                && !after.connection_streams.contains_key(key);
            &&& after == (StreamsView {
                common: CommonView { pool: after.common.pool, ..streams.common },
                connection_streams: after.connection_streams,
                ..streams
            })
            &&& after.common.pool.len() == streams.common.pool.len()
            &&& after.common.pool[place].id == streams.common.pool[place].id
            &&& now == (ConnectionStateView { stream_callbacks: now.stream_callbacks, ..state })
            &&& now.stream_callbacks.contains_key(key) <==> state.stream_callbacks.contains_key(key)
                && !gone
            &&& now.stream_callbacks.contains_key(key) ==> now.stream_callbacks[key]
                == state.stream_callbacks[key]
        }),
{
    lemma_unsubscribed(streams, names, url_path);
}

/// There is one message for each stream that is let go of, in order, on its
/// connection. It is a request whose method is `UNSUBSCRIBE`, whose only
/// parameter is the stream and whose identifier is the given one, and nothing
/// else.
pub proof fn law_release_messages(
    messages: Seq<StreamMessage>,
    released: Seq<Assigned>,
    id: StreamIdView,
    k: int,
    key: Seq<char>,
)
    requires
        are_releases(messages, released, id),
        0 <= k < released.len(),
    ensures
        messages.len() == released.len(),
        messages[k].connection == released[k].1,
        ({
            let document = json_parse(messages[k].payload@)->0;
            &&& json_parse(messages[k].payload@) is Some
            &&& document.member("method"@) == Some(JsonView::Text("UNSUBSCRIBE"@))
            &&& document.member("params"@) == Some(
                JsonView::Array(seq![JsonView::Text(released[k].0)]),
            )
            &&& id is Number ==> document.member("id"@) == Some(
                JsonView::Integer(id->Number_0 as int),
            )
            &&& id is Str ==> document.member("id"@) == Some(JsonView::Text(id->Str_0))
            &&& key != "method"@ && key != "params"@ && key != "id"@ ==> document.member(
                key,
            ) is None
        }),
{
    reveal_strlit("method");
    reveal_strlit("params");
    reveal_strlit("id");
    assert("method"@[0] == 'm' && "params"@[0] == 'p' && "id"@[0] == 'i');
    assert(messages[k].connection == released[k].1);
    let params = seq![released[k].0];
    assert(params.map_values(|param: Seq<char>| JsonView::Text(param)) =~= seq![
        JsonView::Text(released[k].0),
    ]);
}

} // verus!
