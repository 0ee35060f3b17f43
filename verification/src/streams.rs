//! The client that follows streams.

use crate::api::base_url;
use crate::common::{CommonView, WebsocketCommon};
use crate::connection::{CallbackId, ConnectionStateView};
use crate::json::{json_parse, json_view, member, parse, JsonView};
use crate::models::{append_time_unit, text_view, with_time_unit, ConfigurationWebsocketStreams};
use crate::string_map::{has_key, lists, StringMap};
use crate::subscription::{SubscriptionRequest, SubscriptionRequestView};
use crate::text::{after_separator, ends_with, has_suffix, join, joined, strip_to_separator};
use serde_json::Value;
use vstd::prelude::*;

verus! {

/// The client that follows streams.
pub struct WebsocketStreams {
    pub common: WebsocketCommon,
    pub stream_id_is_strictly_number: bool,
    pub url_paths: Vec<String>,
    pub is_connecting: bool,
    pub connection_streams: StringMap<usize>,
    pub configuration: ConfigurationWebsocketStreams,
}

/// The client that follows streams, as a mathematical value.
#[verifier::ext_equal]
pub struct StreamsView {
    pub common: CommonView,
    pub stream_id_is_strictly_number: bool,
    pub url_paths: Seq<Seq<char>>,
    pub is_connecting: bool,
    pub connection_streams: Map<Seq<char>, usize>,
    pub configuration: ConfigurationWebsocketStreams,
}

impl View for WebsocketStreams {
    type V = StreamsView;

    open spec fn view(&self) -> StreamsView {
        StreamsView {
            common: self.common@,
            stream_id_is_strictly_number: self.stream_id_is_strictly_number,
            url_paths: self.url_paths.deep_view(),
            is_connecting: self.is_connecting,
            connection_streams: self.connection_streams@,
            configuration: self.configuration,
        }
    }
}

/// A message of a stream and the callbacks that it is handed to, in turn.
#[derive(Debug)]
pub struct StreamDelivery {
    pub payload: Value,
    pub callbacks: Vec<CallbackId>,
}

/// The key of a stream: its name, behind its path where it has one.
pub open spec fn key_of(stream: Seq<char>, url_path: Option<Seq<char>>) -> Seq<char> {
    match url_path {
        Some(path) => if path.len() > 0 {
            path + "::"@ + stream
        } else {
            stream
        },
        None => stream,
    }
}

/// The URL of the given streams, below the path where there is one.
pub open spec fn stream_url(
    configuration: ConfigurationWebsocketStreams,
    streams: Seq<Seq<char>>,
    url_path: Option<Seq<char>>,
) -> Seq<char> {
    let base = base_url(configuration.ws_url);
    let root = match url_path {
        Some(path) => base + "/"@ + path,
        None => base,
    };
    with_time_unit(
        root + "/stream?streams="@ + joined(streams, "/"@),
        configuration.time_unit,
    )
}

impl StreamsView {
    /// There is at least one connection, and every stream that is followed is
    /// followed on one of them.
    pub open spec fn wf(self) -> bool {
        &&& self.common.wf()
        &&& forall|key: Seq<char>| #[trigger]
            self.connection_streams.contains_key(key) ==> self.common.holds(
                self.connection_streams[key],
            )
    }

    /// The same client with another pool.
    pub open spec fn with_common(self, common: CommonView) -> StreamsView {
        StreamsView { common, ..self }
    }

    /// A message that names its stream and carries data is handed to the
    /// callbacks of that stream on the connection's path; others are passed over.
    pub open spec fn delivers(
        self,
        place: int,
        document: JsonView,
        delivery: Option<StreamDelivery>,
    ) -> bool {
        let name = match document.member("stream"@) {
            Some(name) => name.text(),
            None => None,
        };
        let data = document.member("data"@);
        if name is None || data is None {
            delivery is None
        } else {
            let state = self.common.state(place);
            let key = key_of(name->0, state.url_path);
            &&& delivery is Some
            &&& json_view(delivery->0.payload) == data->0
            &&& delivery->0.callbacks@ == if state.stream_callbacks.contains_key(key) {
                state.stream_callbacks[key]
            } else {
                Seq::empty()
            }
        }
    }

    /// The stream is followed, on some path or on none.
    pub open spec fn subscribed(self, stream: Seq<char>) -> bool {
        exists|key: Seq<char>| #[trigger]
            self.connection_streams.contains_key(key) && (key == stream || has_suffix(
                key,
                "::"@ + stream,
            ))
    }
}

impl WebsocketStreams {
    /// The key of a stream: its name, behind its path where it has one.
    pub fn stream_key(&self, stream: &str, url_path: Option<&str>) -> (result: String)
        ensures
            result@ == key_of(stream@, text_view(url_path)),
    {
        match url_path {
            Some(path) => {
                if path.is_empty() {
                    stream.to_owned()
                } else {
                    let mut key = path.to_owned();
                    key.append("::");
                    key.append(stream);
                    key
                }
            },
            None => stream.to_owned(),
        }
    }

    /// The URL of the given streams, below the path where there is one.
    pub fn prepare_url(&self, streams: &Vec<String>, url_path: Option<&str>) -> (result: String)
        ensures
            result@ == stream_url(self@.configuration, streams.deep_view(), text_view(url_path)),
    {
        let mut url = match &self.configuration.ws_url {
            Some(url) => url.clone(),
            None => String::new(),
        };
        if let Some(path) = url_path {
            url.append("/");
            url.append(path);
        }
        url.append("/stream?streams=");
        url.append(join(streams, "/").as_str());
        append_time_unit(url, &self.configuration.time_unit)
    }

    /// Whether the stream is followed, on some path or on none.
    pub fn is_subscribed(&self, stream: &str) -> (result: bool)
        ensures
            result == self@.subscribed(stream@),
    {
        let name = stream.to_owned();
        if self.connection_streams.contains_key(&name) {
            proof {
                assert(self@.connection_streams.contains_key(stream@));
            }
            return true;
        }
        proof {
            use_type_invariant(&self.connection_streams);
            self.connection_streams.lemma_listed();
        }
        let ghost entries = self.connection_streams.listed();
        let mut suffix = "::".to_owned();
        suffix.append(stream);
        let mut i: usize = 0;
        while i < self.connection_streams.len()
            invariant
                i <= entries.len(),
                entries == self.connection_streams.listed(),
                lists(entries, self.connection_streams@),
                suffix@ == "::"@ + stream@,
                !self.connection_streams@.contains_key(stream@),
                forall|j: int| 0 <= j < i ==> !has_suffix((#[trigger] entries[j]).0, suffix@),
            decreases entries.len() - i,
        {
            let key = self.connection_streams.key_at(i);
            if ends_with(key.as_str(), suffix.as_str()) {
                proof {
                    assert(self@.connection_streams.contains_key(entries[i as int].0));
                }
                return true;
            }
            i += 1;
        }
        proof {
            if self@.subscribed(stream@) {
                let key = choose|key: Seq<char>| #[trigger]
                    self@.connection_streams.contains_key(key) && (key == stream@ || has_suffix(
                        key,
                        "::"@ + stream@,
                    ));
                assert(has_key(entries, key));
                let j = choose|j: int|
                    #![trigger entries[j]]
                    0 <= j < entries.len() && entries[j].0 == key;
                assert(!has_suffix(entries[j].0, suffix@));
            }
        }
        false
    }

    /// The subscription that is to be asked for once the connection is open:
    /// the streams that were kept for later, where there are any.
    pub fn on_open(&mut self, connection: usize) -> (result: Option<SubscriptionRequest>)
        requires
            old(self)@.common.holds(connection),
        ensures
            ({
                let state = old(self)@.common.state(connection as int);
                &&& result.deep_view() == if state.pending_subscriptions.len() == 0 {
                    None
                } else {
                    Some(
                        SubscriptionRequestView {
                            connection,
                            streams: state.pending_subscriptions,
                            id: None,
                        },
                    )
                }
                &&& final(self)@ == old(self)@.with_common(
                    old(self)@.common.with_state(
                        connection as int,
                        ConnectionStateView { pending_subscriptions: Seq::empty(), ..state },
                    ),
                )
            }),
            old(self)@.wf() ==> final(self)@.wf(),
    {
        let mut streams: Vec<String> = Vec::new();
        std::mem::swap(
            &mut streams,
            &mut self.common.connection_pool[connection].state.pending_subscriptions,
        );
        proof {
            let state = old(self)@.common.state(connection as int);
            assert(self@.common.state(connection as int).pending_subscriptions =~= Seq::<
                Seq<char>,
            >::empty());
            assert(self@.common =~= old(self)@.common.with_state(
                connection as int,
                ConnectionStateView { pending_subscriptions: Seq::empty(), ..state },
            ));
        }
        if streams.len() == 0 {
            None
        } else {
            Some(SubscriptionRequest { connection, streams, id: None })
        }
    }

    /// What is to be done about a message that arrived on the connection.
    pub fn on_message(&self, data: &str, connection: usize) -> (result: Option<StreamDelivery>)
        requires
            self@.common.holds(connection),
        ensures
            match json_parse(data@) {
                None => result is None,
                Some(document) => self@.delivers(connection as int, document, result),
            },
    {
        match parse(data) {
            Ok(message) => self.handle_message(&message, connection),
            Err(_) => None,
        }
    }

    /// What is to be done about a message with a readable document that arrived
    /// on the connection.
    pub fn handle_message(&self, message: &Value, connection: usize) -> (result: Option<
        StreamDelivery,
    >)
        requires
            self@.common.holds(connection),
        ensures
            self@.delivers(connection as int, json_view(*message), result),
    {
        let name = match member(message, "stream") {
            Some(name) => match name.as_str() {
                Some(name) => name,
                None => {
                    return None;
                },
            },
            None => {
                return None;
            },
        };
        let payload = match member(message, "data") {
            Some(payload) => payload.clone(),
            None => {
                return None;
            },
        };
        let path = match &self.common.connection_pool[connection].state.url_path {
            Some(path) => Some(path.as_str()),
            None => None,
        };
        let key = self.stream_key(name, path);
        let callbacks = match self.common.connection_pool[connection].state.stream_callbacks.get(
            &key,
        ) {
            Some(callbacks) => clone_callbacks(callbacks),
            None => Vec::new(),
        };
        Some(StreamDelivery { payload, callbacks })
    }

    /// The URL to open the connection with again: that of the streams that are
    /// followed on it, below its path.
    pub fn get_reconnect_url(&self, connection: usize) -> (result: String)
        requires
            self@.common.holds(connection),
        ensures
            result@ == stream_url(
                self@.configuration,
                names_on(self.connection_streams.listed(), connection),
                self@.common.state(connection as int).url_path,
            ),
            lists(self.connection_streams.listed(), self@.connection_streams),
    {
        proof {
            use_type_invariant(&self.connection_streams);
            self.connection_streams.lemma_listed();
        }
        let ghost entries = self.connection_streams.listed();
        let mut streams: Vec<String> = Vec::new();
        let mut i: usize = 0;
        proof {
            assert(streams.deep_view() =~= names_on(entries.take(0), connection));
        }
        while i < self.connection_streams.len()
            invariant
                i <= entries.len(),
                entries == self.connection_streams.listed(),
                streams.deep_view() == names_on(entries.take(i as int), connection),
            decreases entries.len() - i,
        {
            let ghost listed = streams.deep_view();
            proof {
                assert(entries.take(i + 1).drop_last() =~= entries.take(i as int));
            }
            if *self.connection_streams.value_at(i) == connection {
                let name = strip_to_separator(self.connection_streams.key_at(i).as_str());
                streams.push(name);
                proof {
                    assert(streams.deep_view() =~= listed.push(name@));
                }
            }
            i += 1;
        }
        proof {
            assert(entries.take(i as int) =~= entries);
        }
        let path = match &self.common.connection_pool[connection].state.url_path {
            Some(path) => Some(path.as_str()),
            None => None,
        };
        self.prepare_url(&streams, path)
    }
}

/// The names of the streams that are followed on the connection, in the order
/// of the entries.
pub open spec fn names_on(entries: Seq<(Seq<char>, usize)>, connection: usize) -> Seq<Seq<char>>
    decreases entries.len(),
{
    if entries.len() == 0 {
        Seq::empty()
    } else {
        let front = names_on(entries.drop_last(), connection);
        if entries.last().1 == connection {
            front.push(after_separator(entries.last().0))
        } else {
            front
        }
    }
}

/// Clones a list of callbacks.
pub fn clone_callbacks(callbacks: &Vec<CallbackId>) -> (result: Vec<CallbackId>)
    ensures
        result@ == callbacks@,
{
    let mut result: Vec<CallbackId> = Vec::new();
    let mut i: usize = 0;
    while i < callbacks.len()
        invariant
            i <= callbacks.len(),
            result@ == callbacks@.take(i as int),
        decreases callbacks.len() - i,
    {
        result.push(callbacks[i]);
        i += 1;
    }
    proof {
        assert(callbacks@.take(i as int) =~= callbacks@);
    }
    result
}

} // verus!
