//! One stream and the callback that waits for its messages.

use crate::api::{ApiView, WebsocketApi};
use crate::connection::{CallbackId, ConnectionStateView};
use crate::models::{clone_id, normalized_id, StreamId, StreamIdView};
use crate::streams::{clone_callbacks, key_of, StreamsView, WebsocketStreams};
use crate::subscription::{are_releases, StreamMessage, SubscriptionRequest};
use crate::text::same_text;
use std::marker::PhantomData;
use vstd::prelude::*;

verus! {

/// The client that the messages of a stream come through.
pub enum WebsocketBase {
    WebsocketApi(WebsocketApi),
    WebsocketStreams(WebsocketStreams),
}

/// The client that the messages of a stream come through, as a mathematical
/// value.
pub enum BaseView {
    Api(ApiView),
    Streams(StreamsView),
}

impl View for WebsocketBase {
    type V = BaseView;

    open spec fn view(&self) -> BaseView {
        match self {
            WebsocketBase::WebsocketApi(api) => BaseView::Api(api@),
            WebsocketBase::WebsocketStreams(streams) => BaseView::Streams(streams@),
        }
    }
}

/// A stream. `T` is what its messages are to be read as.
pub struct WebsocketStream<T> {
    pub stream_or_id: String,
    pub url_path: Option<String>,
    pub callback: Option<CallbackId>,
    pub id: Option<StreamId>,
    pub _phantom: PhantomData<T>,
}

/// A stream, as a mathematical value.
pub struct StreamView {
    pub stream_or_id: Seq<char>,
    pub url_path: Option<Seq<char>>,
    pub callback: Option<CallbackId>,
    pub id: Option<StreamIdView>,
}

impl<T> View for WebsocketStream<T> {
    type V = StreamView;

    open spec fn view(&self) -> StreamView {
        StreamView {
            stream_or_id: self.stream_or_id@,
            url_path: self.url_path.deep_view(),
            callback: self.callback,
            id: self.id.deep_view(),
        }
    }
}

/// The callbacks under the key; none where there is no list.
pub open spec fn callbacks_at(
    callbacks: Map<Seq<char>, Seq<CallbackId>>,
    key: Seq<char>,
) -> Seq<CallbackId> {
    if callbacks.contains_key(key) {
        callbacks[key]
    } else {
        Seq::empty()
    }
}

/// The callbacks with one more, unless it is among them.
pub open spec fn with_callback(
    callbacks: Seq<CallbackId>,
    callback: CallbackId,
) -> Seq<CallbackId> {
    if callbacks.contains(callback) {
        callbacks
    } else {
        callbacks.push(callback)
    }
}

/// The callbacks without one of them.
pub open spec fn without_callback(
    callbacks: Seq<CallbackId>,
    callback: CallbackId,
) -> Seq<CallbackId> {
    callbacks.filter(|other: CallbackId| other != callback)
}

/// The lists of callbacks once `callback` waits under `key`.
pub open spec fn registered(
    callbacks: Map<Seq<char>, Seq<CallbackId>>,
    key: Seq<char>,
    callback: CallbackId,
) -> Map<Seq<char>, Seq<CallbackId>> {
    callbacks.insert(key, with_callback(callbacks_at(callbacks, key), callback))
}

/// The lists of callbacks once `callback` no longer waits under `key`.
pub open spec fn deregistered(
    callbacks: Map<Seq<char>, Seq<CallbackId>>,
    key: Seq<char>,
    callback: CallbackId,
) -> Map<Seq<char>, Seq<CallbackId>> {
    if callbacks.contains_key(key) {
        callbacks.insert(key, without_callback(callbacks[key], callback))
    } else {
        callbacks
    }
}

impl StreamsView {
    /// The client with the lists of callbacks of the connection that `key` is
    /// followed on changed.
    pub open spec fn with_callbacks(
        self,
        key: Seq<char>,
        callbacks: Map<Seq<char>, Seq<CallbackId>>,
    ) -> StreamsView {
        let place = self.connection_streams[key] as int;
        self.with_common(
            self.common.with_state(
                place,
                ConnectionStateView { stream_callbacks: callbacks, ..self.common.state(place) },
            ),
        )
    }

    /// The lists of callbacks of the connection that `key` is followed on.
    pub open spec fn callbacks_of(self, key: Seq<char>) -> Map<Seq<char>, Seq<CallbackId>> {
        self.common.state(self.connection_streams[key] as int).stream_callbacks
    }
}

impl BaseView {
    /// The client once `callback` waits for the messages of the stream.
    pub open spec fn with_registered(self, stream: StreamView, callback: CallbackId) -> BaseView {
        match self {
            BaseView::Api(api) => BaseView::Api(
                ApiView {
                    stream_callbacks: registered(
                        api.stream_callbacks,
                        stream.stream_or_id,
                        callback,
                    ),
                    ..api
                },
            ),
            BaseView::Streams(streams) => {
                let key = stream.key();
                BaseView::Streams(
                    streams.with_callbacks(
                        key,
                        registered(streams.callbacks_of(key), key, callback),
                    ),
                )
            },
        }
    }

    /// The client once `callback` no longer waits for the messages of the
    /// stream.
    pub open spec fn with_deregistered(self, stream: StreamView, callback: CallbackId) -> BaseView {
        match self {
            BaseView::Api(api) => BaseView::Api(
                ApiView {
                    stream_callbacks: deregistered(
                        api.stream_callbacks,
                        stream.stream_or_id,
                        callback,
                    ),
                    ..api
                },
            ),
            BaseView::Streams(streams) => {
                let key = stream.key();
                BaseView::Streams(
                    streams.with_callbacks(
                        key,
                        deregistered(streams.callbacks_of(key), key, callback),
                    ),
                )
            },
        }
    }

    /// The client is in order, and where it follows streams it follows this one.
    pub open spec fn follows(self, stream: StreamView) -> bool {
        match self {
            BaseView::Api(_) => true,
            BaseView::Streams(streams) => streams.wf() && streams.connection_streams.contains_key(
                stream.key(),
            ),
        }
    }
}

impl StreamView {
    /// The key of the stream.
    pub open spec fn key(self) -> Seq<char> {
        key_of(self.stream_or_id, self.url_path)
    }
}

fn add_callback(callbacks: &Vec<CallbackId>, callback: CallbackId) -> (result: Vec<CallbackId>)
    ensures
        result@ == with_callback(callbacks@, callback),
{
    let mut result = clone_callbacks(callbacks);
    let mut i: usize = 0;
    while i < callbacks.len()
        invariant
            i <= callbacks.len(),
            result@ == callbacks@,
            forall|j: int| 0 <= j < i ==> callbacks[j] != callback,
        decreases callbacks.len() - i,
    {
        if callbacks[i] == callback {
            return result;
        }
        i += 1;
    }
    result.push(callback);
    result
}

fn drop_callback(callbacks: &Vec<CallbackId>, callback: CallbackId) -> (result: Vec<CallbackId>)
    ensures
        result@ == without_callback(callbacks@, callback),
{
    let mut result: Vec<CallbackId> = Vec::new();
    let mut i: usize = 0;
    proof {
        reveal(Seq::filter);
        assert(result@ =~= without_callback(callbacks@.take(0), callback));
    }
    while i < callbacks.len()
        invariant
            i <= callbacks.len(),
            result@ == without_callback(callbacks@.take(i as int), callback),
        decreases callbacks.len() - i,
    {
        proof {
            reveal(Seq::filter);
            assert(callbacks@.take(i + 1).drop_last() =~= callbacks@.take(i as int));
        }
        if callbacks[i] != callback {
            result.push(callbacks[i]);
        }
        i += 1;
    }
    proof {
        assert(callbacks@.take(i as int) =~= callbacks@);
    }
    result
}

impl<T> WebsocketStream<T> {
    /// Has `callback` wait for the messages of the stream. There is no other
    /// event than `message`; for any other name nothing happens.
    pub fn on(&mut self, base: &mut WebsocketBase, event: &str, callback: CallbackId)
        requires
            event@ == "message"@ ==> old(base)@.follows(old(self)@),
        ensures
            if event@ == "message"@ {
                &&& final(self)@ == (StreamView { callback: Some(callback), ..old(self)@ })
                &&& final(base)@ == old(base)@.with_registered(old(self)@, callback)
                &&& final(base)@.follows(old(self)@)
            } else {
                &&& final(self)@ == old(self)@
                &&& final(base)@ == old(base)@
            },
    {
        if !same_text(event, "message") {
            return;
        }
        self.callback = Some(callback);
        match base {
            WebsocketBase::WebsocketApi(api) => {
                let callbacks = match api.stream_callbacks.get(&self.stream_or_id) {
                    Some(callbacks) => add_callback(callbacks, callback),
                    None => add_callback(&Vec::new(), callback),
                };
                api.stream_callbacks.insert(self.stream_or_id.clone(), callbacks);
            },
            WebsocketBase::WebsocketStreams(streams) => {
                let ghost before = streams@;
                let path = match &self.url_path {
                    Some(path) => Some(path.as_str()),
                    None => None,
                };
                let key = streams.stream_key(self.stream_or_id.as_str(), path);
                let place: usize = *streams.connection_streams.get(&key).unwrap();
                proof {
                    assert(before.common.holds(before.connection_streams[key@]));
                }
                let callbacks = match streams.common.connection_pool[place].state.stream_callbacks.get(
                    &key,
                ) {
                    Some(callbacks) => add_callback(callbacks, callback),
                    None => add_callback(&Vec::new(), callback),
                };
                streams.common.connection_pool[place].state.stream_callbacks.insert(key, callbacks);
                proof {
                    assert(streams@.common =~= before.with_callbacks(
                        key@,
                        registered(before.callbacks_of(key@), key@, callback),
                    ).common);
                }
            },
        }
    }

    /// Has `callback` wait for the messages of the stream.
    pub fn on_message(&mut self, base: &mut WebsocketBase, callback: CallbackId)
        requires
            old(base)@.follows(old(self)@),
        ensures
            final(self)@ == (StreamView { callback: Some(callback), ..old(self)@ }),
            final(base)@ == old(base)@.with_registered(old(self)@, callback),
            final(base)@.follows(old(self)@),
    {
        self.on(base, "message", callback);
    }

    /// Has the callback, where there is one, no longer wait for the messages of
    /// the stream, and lets go of the stream where nobody else waits for them.
    /// Answers the messages to send.
    pub fn unsubscribe(
        &mut self,
        base: &mut WebsocketBase,
        fresh_text: String,
        fresh_number: u32,
    ) -> (result: Vec<StreamMessage>)
        requires
            old(self)@.callback is Some ==> old(base)@.follows(old(self)@),
        ensures
            final(self)@ == (StreamView { callback: None, ..old(self)@ }),
            match old(self)@.callback {
                None => result.len() == 0 && final(base)@ == old(base)@,
                Some(callback) => match old(base)@.with_deregistered(old(self)@, callback) {
                    BaseView::Api(api) => result.len() == 0 && final(base)@ == BaseView::Api(api),
                    BaseView::Streams(streams) => {
                        let names = seq![old(self)@.stream_or_id];
                        &&& final(base)@ == BaseView::Streams(
                            streams.after_unsubscribe(names, old(self)@.url_path),
                        )
                        &&& streams.after_unsubscribe(names, old(self)@.url_path).wf()
                        &&& are_releases(
                            result@,
                            streams.released(names, old(self)@.url_path),
                            normalized_id(
                                old(self)@.id,
                                streams.stream_id_is_strictly_number,
                                fresh_text@,
                                fresh_number,
                            ),
                        )
                    },
                },
            },
    {
        let callback: CallbackId = match self.callback {
            Some(callback) => callback,
            None => {
                return Vec::new();
            },
        };
        self.callback = None;
        match base {
            WebsocketBase::WebsocketApi(api) => {
                let callbacks = match api.stream_callbacks.get(&self.stream_or_id) {
                    Some(callbacks) => drop_callback(callbacks, callback),
                    None => {
                        return Vec::new();
                    },
                };
                api.stream_callbacks.insert(self.stream_or_id.clone(), callbacks);
                Vec::new()
            },
            WebsocketBase::WebsocketStreams(streams) => {
                let ghost before = streams@;
                let path = match &self.url_path {
                    Some(path) => Some(path.as_str()),
                    None => None,
                };
                let key = streams.stream_key(self.stream_or_id.as_str(), path);
                let place: usize = *streams.connection_streams.get(&key).unwrap();
                proof {
                    assert(before.common.holds(before.connection_streams[key@]));
                }
                let kept = match streams.common.connection_pool[place].state.stream_callbacks.get(
                    &key,
                ) {
                    Some(callbacks) => Some(drop_callback(callbacks, callback)),
                    None => None,
                };
                if let Some(callbacks) = kept {
                    streams.common.connection_pool[place].state.stream_callbacks.insert(
                        key.clone(),
                        callbacks,
                    );
                }
                let ghost dropped = before.with_callbacks(
                    key@,
                    deregistered(before.callbacks_of(key@), key@, callback),
                );
                proof {
                    assert(streams@.common =~= dropped.common);
                    assert(streams@ =~= dropped);
                }
                let names: Vec<String> = vec![self.stream_or_id.clone()];
                proof {
                    assert(names.deep_view() =~= seq![self@.stream_or_id]);
                }
                streams.unsubscribe(names, clone_id(&self.id), path, fresh_text, fresh_number)
            },
        }
    }
}

/// A stream with no callback yet. A client that follows streams follows it from
/// now on; the subscriptions to ask for come with it.
pub fn create_stream_handler<T>(
    base: &mut WebsocketBase,
    stream_or_id: String,
    id: Option<StreamId>,
    url_path: Option<String>,
) -> (result: (WebsocketStream<T>, Vec<SubscriptionRequest>))
    requires
        old(base)@ matches BaseView::Streams(streams) ==> streams.wf(),
    ensures
        result.0@ == (StreamView {
            stream_or_id: stream_or_id@,
            url_path: url_path.deep_view(),
            callback: None,
            id: id.deep_view(),
        }),
        match old(base)@ {
            BaseView::Api(_) => result.1.len() == 0 && final(base)@ == old(base)@,
            BaseView::Streams(streams) => {
                let names = seq![stream_or_id@];
                &&& result.1.deep_view() == streams.subscriptions(
                    names,
                    id.deep_view(),
                    url_path.deep_view(),
                )
                &&& final(base)@ == BaseView::Streams(
                    streams.after_subscribe(names, url_path.deep_view()),
                )
                &&& streams.after_subscribe(names, url_path.deep_view()).wf()
            },
        },
{
    let requests = match base {
        WebsocketBase::WebsocketApi(_) => Vec::new(),
        WebsocketBase::WebsocketStreams(streams) => {
            let path = match &url_path {
                Some(path) => Some(path.as_str()),
                None => None,
            };
            let names: Vec<String> = vec![stream_or_id.clone()];
            proof {
                assert(names.deep_view() =~= seq![stream_or_id@]);
            }
            streams.subscribe(names, clone_id(&id), path)
        },
    };
    (
        WebsocketStream { stream_or_id, url_path, callback: None, id, _phantom: PhantomData },
        requests,
    )
}

} // verus!
