//! One connection and what is remembered about it.

use crate::json::{json_view, JsonView};
use crate::options::WebsocketMessageSendOptions;
use crate::string_map::StringMap;
use serde_json::Value;
use vstd::prelude::*;

verus! {

/// The sending half of an open connection.
pub type WriterId = u64;

/// A handler of what arrives on a connection.
pub type HandlerId = u64;

/// A callback that is waiting for the messages of a stream.
pub type CallbackId = u64;

/// The place where the reply to a request is awaited.
pub type CompletionId = u64;

/// A request whose reply has not arrived.
#[derive(Debug, Clone, Copy, PartialEq, Eq)]
pub struct PendingRequest {
    pub completion: CompletionId,
}

impl View for PendingRequest {
    type V = CompletionId;

    open spec fn view(&self) -> CompletionId {
        self.completion
    }
}

/// The request that opened a session, kept to open it again.
#[derive(Debug)]
pub struct WebsocketSessionLogonReq {
    pub method: String,
    pub payload: Vec<(String, Value)>,
    pub options: WebsocketMessageSendOptions,
}

/// The request that opened a session, as a mathematical value.
pub struct LogonRequestView {
    pub method: Seq<char>,
    pub payload: Seq<(Seq<char>, JsonView)>,
    pub options: WebsocketMessageSendOptions,
}

/// The parameters of a request, as a mathematical value.
pub open spec fn payload_view(payload: Seq<(String, Value)>) -> Seq<(Seq<char>, JsonView)> {
    payload.map_values(|entry: (String, Value)| (entry.0@, json_view(entry.1)))
}

/// No name occurs twice among the parameters of a request.
pub open spec fn distinct_keys(payload: Seq<(Seq<char>, JsonView)>) -> bool {
    forall|i: int, j: int|
        0 <= i < j < payload.len() ==> (#[trigger] payload[i]).0 != (#[trigger] payload[j]).0
}

impl LogonRequestView {
    /// The parameters have names of their own.
    pub open spec fn wf(self) -> bool {
        distinct_keys(self.payload)
    }
}

/// Clones the parameters of a request.
pub fn clone_payload(payload: &Vec<(String, Value)>) -> (result: Vec<(String, Value)>)
    ensures
        payload_view(result@) == payload_view(payload@),
{
    let mut result: Vec<(String, Value)> = Vec::new();
    let mut i: usize = 0;
    while i < payload.len()
        invariant
            i <= payload.len(),
            result.len() == i,
            forall|j: int|
                0 <= j < i ==> (#[trigger] result[j]).0@ == payload[j].0@ && json_view(result[j].1)
                    == json_view(payload[j].1),
        decreases payload.len() - i,
    {
        result.push((payload[i].0.clone(), payload[i].1.clone()));
        i += 1;
    }
    proof {
        assert(payload_view(result@) =~= payload_view(payload@));
    }
    result
}

impl View for WebsocketSessionLogonReq {
    type V = LogonRequestView;

    open spec fn view(&self) -> LogonRequestView {
        LogonRequestView {
            method: self.method@,
            payload: payload_view(self.payload@),
            options: self.options,
        }
    }
}

impl DeepView for WebsocketSessionLogonReq {
    type V = LogonRequestView;

    open spec fn deep_view(&self) -> LogonRequestView {
        self@
    }
}

impl Clone for WebsocketSessionLogonReq {
    fn clone(&self) -> (result: Self)
        ensures
            result@ == self@,
    {
        WebsocketSessionLogonReq {
            method: self.method.clone(),
            payload: clone_payload(&self.payload),
            options: self.options,
        }
    }
}

/// What is remembered about a connection.
pub struct WebsocketConnectionState {
    pub reconnection_pending: bool,
    pub renewal_pending: bool,
    pub close_initiated: bool,
    pub pending_requests: StringMap<PendingRequest>,
    pub pending_subscriptions: Vec<String>,
    pub stream_callbacks: StringMap<Vec<CallbackId>>,
    pub is_session_logged_on: bool,
    pub session_logon_req: Option<WebsocketSessionLogonReq>,
    pub url_path: Option<String>,
    pub handler: Option<HandlerId>,
    pub ws_write_tx: Option<WriterId>,
}

/// What is remembered about a connection, as a mathematical value.
#[verifier::ext_equal]
pub struct ConnectionStateView {
    pub reconnection_pending: bool,
    pub renewal_pending: bool,
    pub close_initiated: bool,
    pub pending_requests: Map<Seq<char>, CompletionId>,
    pub pending_subscriptions: Seq<Seq<char>>,
    pub stream_callbacks: Map<Seq<char>, Seq<CallbackId>>,
    pub is_session_logged_on: bool,
    pub session_logon_req: Option<LogonRequestView>,
    pub url_path: Option<Seq<char>>,
    pub handler: Option<HandlerId>,
    pub ws_write_tx: Option<WriterId>,
}

impl View for WebsocketConnectionState {
    type V = ConnectionStateView;

    open spec fn view(&self) -> ConnectionStateView {
        ConnectionStateView {
            reconnection_pending: self.reconnection_pending,
            renewal_pending: self.renewal_pending,
            close_initiated: self.close_initiated,
            pending_requests: self.pending_requests@,
            pending_subscriptions: self.pending_subscriptions.deep_view(),
            stream_callbacks: self.stream_callbacks@,
            is_session_logged_on: self.is_session_logged_on,
            session_logon_req: self.session_logon_req.deep_view(),
            url_path: self.url_path.deep_view(),
            handler: self.handler,
            ws_write_tx: self.ws_write_tx,
        }
    }
}

impl ConnectionStateView {
    /// A connection that has not been opened.
    pub open spec fn fresh() -> Self {
        ConnectionStateView {
            reconnection_pending: false,
            renewal_pending: false,
            close_initiated: false,
            pending_requests: Map::empty(),
            pending_subscriptions: Seq::empty(),
            stream_callbacks: Map::empty(),
            is_session_logged_on: false,
            session_logon_req: None,
            url_path: None,
            handler: None,
            ws_write_tx: None,
        }
    }

    /// The request that is kept to open a session again, if there is one, has
    /// parameters with names of their own.
    pub open spec fn request_wf(self) -> bool {
        self.session_logon_req is Some ==> self.session_logon_req->0.wf()
    }

    /// The connection can be used: it is open, or need not be, and is neither
    /// waiting to be opened again nor being closed.
    pub open spec fn ready(self, allow_non_established: bool) -> bool {
        &&& allow_non_established || self.ws_write_tx is Some
        &&& !self.reconnection_pending
        &&& !self.close_initiated
    }
}

impl Default for WebsocketConnectionState {
    fn default() -> (result: Self)
        ensures
            result@ == ConnectionStateView::fresh(),
    {
        Self::new()
    }
}

impl WebsocketConnectionState {
    /// A connection that has not been opened.
    #[must_use]
    pub fn new() -> (result: Self)
        ensures
            result@ == ConnectionStateView::fresh(),
    {
        let result = WebsocketConnectionState {
            reconnection_pending: false,
            renewal_pending: false,
            close_initiated: false,
            pending_requests: StringMap::new(),
            pending_subscriptions: Vec::new(),
            stream_callbacks: StringMap::new(),
            is_session_logged_on: false,
            session_logon_req: None,
            url_path: None,
            handler: None,
            ws_write_tx: None,
        };
        proof {
            assert(result@ =~= ConnectionStateView::fresh());
        }
        result
    }

    /// Whether the connection can be used.
    pub fn is_ready(&self, allow_non_established: bool) -> (result: bool)
        ensures
            result == self@.ready(allow_non_established),
    {
        (allow_non_established || self.ws_write_tx.is_some()) && !self.reconnection_pending
            && !self.close_initiated
    }
}

/// A connection of the pool.
pub struct WebsocketConnection {
    pub id: String,
    pub state: WebsocketConnectionState,
}

/// A connection of the pool, as a mathematical value.
#[verifier::ext_equal]
pub struct ConnectionView {
    pub id: Seq<char>,
    pub state: ConnectionStateView,
}

impl View for WebsocketConnection {
    type V = ConnectionView;

    open spec fn view(&self) -> ConnectionView {
        ConnectionView { id: self.id@, state: self.state@ }
    }
}

impl DeepView for WebsocketConnection {
    type V = ConnectionView;

    open spec fn deep_view(&self) -> ConnectionView {
        self@
    }
}

impl WebsocketConnection {
    /// A connection named `id` that has not been opened.
    pub fn new(id: &str) -> (result: Self)
        ensures
            result@ == (ConnectionView { id: id@, state: ConnectionStateView::fresh() }),
    {
        WebsocketConnection { id: id.to_owned(), state: WebsocketConnectionState::new() }
    }

    /// Sets the handler of what arrives on the connection.
    pub fn set_handler(&mut self, handler: HandlerId)
        ensures
            final(self)@ == (ConnectionView {
                state: ConnectionStateView { handler: Some(handler), ..old(self)@.state },
                ..old(self)@
            }),
    {
        self.state.handler = Some(handler);
    }
}

} // verus!
