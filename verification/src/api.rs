//! The request and reply client.

use crate::common::{CommonView, WebsocketCommon};
use crate::connection::{
    clone_payload, distinct_keys, payload_view, CallbackId, CompletionId, ConnectionStateView,
    ConnectionView, HandlerId, LogonRequestView, WebsocketConnection, WebsocketSessionLogonReq,
    WriterId,
};
use crate::json::{json_parse, json_view, json_views, member, parse, JsonView};
use crate::lifecycle::{ConnectStep, OpenTarget, ReconnectEntry, ReconnectEntryView};
use crate::models::{
    append_time_unit, with_time_unit, ApiResponseView, ConfigurationWebsocketApi,
    WebsocketApiResponse, WebsocketError, WebsocketErrorView,
};
use crate::options::{SendWebsocketMessageResult, WebsocketMessageSendOptions};
use crate::string_map::{lists, StringMap};
use crate::text::same_text;
use serde_json::Value;
use std::marker::PhantomData;
use vstd::prelude::*;

verus! {

/// The request and reply client.
pub struct WebsocketApi {
    pub common: WebsocketCommon,
    pub configuration: ConfigurationWebsocketApi,
    pub is_connecting: bool,
    pub stream_callbacks: StringMap<Vec<CallbackId>>,
}

/// The request and reply client, as a mathematical value.
#[verifier::ext_equal]
pub struct ApiView {
    pub common: CommonView,
    pub configuration: ConfigurationWebsocketApi,
    pub is_connecting: bool,
    pub stream_callbacks: Map<Seq<char>, Seq<CallbackId>>,
}

impl View for WebsocketApi {
    type V = ApiView;

    open spec fn view(&self) -> ApiView {
        ApiView {
            common: self.common@,
            configuration: self.configuration,
            is_connecting: self.is_connecting,
            stream_callbacks: self.stream_callbacks@,
        }
    }
}

/// The connections that a request goes out on.
#[derive(Debug)]
pub struct MessagePlan {
    pub connections: Vec<usize>,
    /// The session makes an API key and a signature unnecessary.
    pub skip_auth: bool,
}

/// What became of waiting for a reply.
#[derive(Debug)]
pub enum Reply {
    /// It was not waited for.
    NotAwaited,
    /// Nobody is left to give one.
    Abandoned,
    /// It came, or the request failed. `readable` tells of each entry of the
    /// rate limits of a reply whether it can be read.
    Received { outcome: Result<Value, WebsocketError>, readable: Vec<bool> },
}

/// What is to be done about a message of the server.
#[derive(Debug)]
pub enum ApiStep {
    /// Nothing.
    Nothing,
    /// Hand the outcome of a request to where it is awaited, and tell who waits
    /// for the requests of the connection to be answered.
    Complete { completion: CompletionId, outcome: Result<Value, WebsocketError> },
    /// Ask for the connection to be opened anew by the entry. It counts as being
    /// renewed from now on, so that an attempt to open it for a renewal is
    /// skipped.
    Renew(ReconnectEntry),
    /// Hand the event to each callback in turn.
    Deliver { event: Value, callbacks: Vec<CallbackId> },
    /// The reply carries a status that no error code can hold.
    StatusOutOfRange,
}

/// The text of a server that is about to shut down.
pub open spec fn shutdown_event() -> Seq<char> {
    "serverShutdown"@
}

/// The optional base URL; an empty one where there is none.
pub open spec fn base_url(url: Option<String>) -> Seq<char> {
    match url {
        Some(url) => url@,
        None => Seq::empty(),
    }
}

/// An outcome of a request, as a mathematical value.
pub open spec fn outcome_view(outcome: Result<Value, WebsocketError>) -> Result<
    JsonView,
    WebsocketErrorView,
> {
    match outcome {
        Ok(value) => Ok(json_view(value)),
        Err(error) => Err(error@),
    }
}

/// The outcome of waiting for a reply.
pub open spec fn reply_view(reply: Reply) -> Result<JsonView, WebsocketErrorView> {
    match reply {
        Reply::NotAwaited => Err(WebsocketErrorView::NoResponse),
        Reply::Abandoned => Err(WebsocketErrorView::Timeout),
        Reply::Received { outcome, .. } => outcome_view(outcome),
    }
}

/// Of each entry of the rate limits of a reply, whether it can be read.
pub open spec fn reply_readable(reply: Reply) -> Seq<bool> {
    match reply {
        Reply::Received { readable, .. } => readable@,
        _ => Seq::empty(),
    }
}

/// The entries that can be read, in order. One of which nothing is said cannot.
pub open spec fn readable_entries(items: Seq<JsonView>, readable: Seq<bool>) -> Seq<JsonView>
    decreases items.len(),
{
    if items.len() == 0 {
        Seq::empty()
    } else {
        let front = readable_entries(items.drop_last(), readable);
        let last = items.len() - 1;
        if last < readable.len() && readable[last] {
            front.push(items.last())
        } else {
            front
        }
    }
}

/// The entries of the rate limits of a reply.
pub open spec fn limit_entries(document: JsonView) -> Seq<JsonView> {
    match document.member("rateLimits"@) {
        Some(JsonView::Array(items)) => items,
        _ => Seq::empty(),
    }
}

/// The rate limits that a reply carries: the entries of its list of them that
/// can be read. A list with an empty entry counts as none.
pub open spec fn rate_limits_of(document: JsonView, readable: Seq<bool>) -> Option<Seq<JsonView>> {
    match document.member("rateLimits"@) {
        Some(JsonView::Array(items)) => if exists|i: int|
            0 <= i < items.len() && (#[trigger] items[i]) is Null {
            None
        } else {
            Some(readable_entries(items, readable))
        },
        _ => None,
    }
}

/// The result that a reply carries: what stands under `result`, or else under
/// `response`, or else nothing.
pub open spec fn result_of(document: JsonView) -> JsonView {
    match document.member("result"@) {
        Some(result) => result,
        None => match document.member("response"@) {
            Some(response) => response,
            None => JsonView::Null,
        },
    }
}

/// What a reply says.
pub open spec fn response_of(document: JsonView, readable: Seq<bool>) -> ApiResponseView {
    ApiResponseView { raw: result_of(document), rate_limits: rate_limits_of(document, readable) }
}

/// The status of a reply; 200 where it has none.
pub open spec fn status_of(document: JsonView) -> u64 {
    match document.member("status"@) {
        Some(status) => match status.unsigned() {
            Some(status) => status,
            None => 200,
        },
        None => 200,
    }
}

/// The request that a message answers.
pub open spec fn answered_request(document: JsonView) -> Option<Seq<char>> {
    match document.member("id"@) {
        Some(id) => id.text(),
        None => None,
    }
}

/// The member `key` of the error that a reply carries.
pub open spec fn error_member(document: JsonView, key: Seq<char>) -> Option<JsonView> {
    match document.member("error"@) {
        Some(error) => error.member(key),
        None => None,
    }
}

/// The code of the error of a reply; its status where it has none.
pub open spec fn error_code(document: JsonView) -> i64 {
    match error_member(document, "code"@) {
        Some(code) => match code.signed() {
            Some(code) => code,
            None => status_of(document) as i64,
        },
        None => status_of(document) as i64,
    }
}

/// The message of the error of a reply.
pub open spec fn error_message(document: JsonView) -> Seq<char> {
    match error_member(document, "msg"@) {
        Some(message) => match message.text() {
            Some(message) => message,
            None => "Unknown error"@,
        },
        None => "Unknown error"@,
    }
}

/// The outcome that a reply is for its request: the reply itself, or its error
/// where the status is one.
pub open spec fn reply_outcome(document: JsonView) -> Result<JsonView, WebsocketErrorView> {
    if status_of(document) >= 400 {
        Err(
            WebsocketErrorView::ResponseError {
                code: error_code(document),
                message: error_message(document),
            },
        )
    } else {
        Ok(document)
    }
}

/// The type of the event that a message carries, where it carries one.
pub open spec fn event_type(document: JsonView) -> Option<JsonView> {
    match document.member("event"@) {
        Some(event) => event.member("e"@),
        None => None,
    }
}

/// All callbacks, those of one entry after those of the entry before.
pub open spec fn all_callbacks(entries: Seq<(Seq<char>, Seq<CallbackId>)>) -> Seq<CallbackId>
    decreases entries.len(),
{
    if entries.len() == 0 {
        Seq::empty()
    } else {
        all_callbacks(entries.drop_last()) + entries.last().1
    }
}

impl ConnectionStateView {
    /// The connection is being renewed.
    pub open spec fn renewing(self) -> ConnectionStateView {
        ConnectionStateView { renewal_pending: true, ..self }
    }

    /// The connection has a session, to be opened again by `request`.
    pub open spec fn with_session(self, request: LogonRequestView) -> ConnectionStateView {
        ConnectionStateView {
            is_session_logged_on: true,
            session_logon_req: Some(request),
            ..self
        }
    }

    /// The message answers a request whose reply is awaited, with a status that
    /// no error code can hold.
    pub open spec fn status_out_of_range(self, document: JsonView) -> bool {
        &&& answered_request(document) is Some
        &&& self.pending_requests.contains_key(answered_request(document)->0)
        &&& status_of(document) > i64::MAX
    }
}

impl CommonView {
    /// The same pool with the states at the given places changed.
    pub open spec fn with_states_at(
        self,
        chosen: Seq<int>,
        change: spec_fn(ConnectionStateView) -> ConnectionStateView,
    ) -> CommonView {
        CommonView {
            pool: Seq::new(
                self.pool.len(),
                |i: int|
                    if chosen.contains(i) {
                        ConnectionView { state: change(self.pool[i].state), ..self.pool[i] }
                    } else {
                        self.pool[i]
                    },
            ),
            ..self
        }
    }
}

impl ApiView {
    /// The same client with another pool.
    pub open spec fn with_common(self, common: CommonView) -> ApiView {
        ApiView { common, ..self }
    }

    /// The client after a request with the given options succeeded on the given
    /// connections.
    pub open spec fn after_replies(
        self,
        chosen: Seq<int>,
        request: LogonRequestView,
    ) -> ApiView {
        let options = request.options;
        if !(options.logs_on() || options.logs_out()) || !self.configuration.auto_session_relogon {
            self
        } else if options.logs_on() {
            self.with_common(
                self.common.with_states_at(
                    chosen,
                    |state: ConnectionStateView| state.with_session(request),
                ),
            )
        } else {
            self.with_common(
                self.common.with_states_at(
                    chosen,
                    |state: ConnectionStateView| state.without_session(),
                ),
            )
        }
    }
}

impl WebsocketApi {
    /// What is to be done about a message with the given document that arrived
    /// on the connection at `place`, and what it leaves behind.
    pub open spec fn handles(
        &self,
        place: int,
        document: JsonView,
        step: ApiStep,
        after: ApiView,
    ) -> bool {
        let state = self@.common.state(place);
        if answered_request(document) is Some {
            let id = answered_request(document)->0;
            if state.pending_requests.contains_key(id) {
                &&& step matches ApiStep::Complete { completion, outcome } && completion
                    == state.pending_requests[id] && outcome_view(outcome) == reply_outcome(
                    document,
                )
                &&& after == self@.with_common(
                    self@.common.with_state(place, state.not_awaiting(id)),
                )
            } else {
                &&& step is Nothing
                &&& after == self@
            }
        } else if event_type(document) == Some(JsonView::Text(shutdown_event())) {
            if state.renewal_pending || state.close_initiated {
                &&& step is Nothing
                &&& after == self@
            } else {
                &&& step matches ApiStep::Renew(entry) && entry@ == (ReconnectEntryView {
                    connection_id: self@.common.pool[place].id,
                    url: match state.url_path {
                        Some(path) => path,
                        None => Seq::empty(),
                    },
                    is_renewal: true,
                })
                &&& after == self@.with_common(self@.common.with_state(place, state.renewing()))
            }
        } else if event_type(document) is Some {
            &&& step matches ApiStep::Deliver { event, callbacks } && Some(json_view(event))
                == document.member("event"@) && callbacks@ == all_callbacks(
                self.stream_callbacks.listed(),
            )
            &&& after == self@
        } else {
            &&& step is Nothing
            &&& after == self@
        }
    }

    /// A client with the given connections, or with new ones named by the fresh
    /// identifiers where none are given.
    #[must_use]
    pub fn new(
        configuration: ConfigurationWebsocketApi,
        connection_pool: Vec<WebsocketConnection>,
        fresh_ids: &Vec<String>,
    ) -> (result: Self)
        requires
            configuration.mode.size() > 0,
            configuration.reconnect_delay <= usize::MAX,
            connection_pool.len() == 0 ==> fresh_ids.len() >= configuration.mode.size(),
        ensures
            result@.configuration == configuration,
            !result@.is_connecting,
            result@.stream_callbacks == Map::<Seq<char>, Seq<CallbackId>>::empty(),
            result@.common == (CommonView {
                events: Seq::empty(),
                message_events: Seq::empty(),
                mode: configuration.mode,
                round_robin_index: 0,
                pool: if connection_pool.len() == 0 {
                    crate::lifecycle::fresh_pool(
                        fresh_ids.deep_view().take(configuration.mode.size() as int),
                    )
                } else {
                    connection_pool.deep_view()
                },
                reconnect_delay: configuration.reconnect_delay as usize,
                user_agent: Some(configuration.user_agent@),
            }),
            result@.common.wf(),
    {
        let common = WebsocketCommon::new(
            connection_pool,
            configuration.mode,
            configuration.reconnect_delay as usize,
            Some(configuration.user_agent.clone()),
            fresh_ids,
        );
        WebsocketApi {
            common,
            configuration,
            is_connecting: false,
            stream_callbacks: StringMap::new(),
        }
    }

    /// The URL with the configured time unit, where there is one, as a parameter
    /// of its query.
    pub fn prepare_url(&self, ws_url: &str) -> (result: String)
        ensures
            result@ == with_time_unit(ws_url@, self@.configuration.time_unit),
    {
        append_time_unit(ws_url.to_owned(), &self.configuration.time_unit)
    }

    /// Begins to connect, unless a connection is in use or being opened. From
    /// now on `handler` handles what arrives on every connection.
    pub fn connect(&mut self, handler: HandlerId) -> (result: ConnectStep)
        ensures
            if old(self)@.common.connected() {
                &&& result is AlreadyConnected
                &&& final(self)@ == old(self)@
            } else if old(self)@.is_connecting {
                &&& result is AlreadyConnecting
                &&& final(self)@ == old(self)@
            } else {
                &&& result matches ConnectStep::Open(targets) && targets.len() == 1 && targets[0].url@
                    == with_time_unit(
                    base_url(old(self)@.configuration.ws_url),
                    old(self)@.configuration.time_unit,
                ) && targets[0].connections@ == Seq::new(
                    old(self)@.common.pool.len(),
                    |i: int| i as usize,
                )
                &&& final(self)@ == (ApiView {
                    common: old(self)@.common.with_states(
                        |state: ConnectionStateView| state.handled_by(handler),
                    ),
                    is_connecting: true,
                    ..old(self)@
                })
            },
    {
        if self.common.is_connected(None) {
            return ConnectStep::AlreadyConnected;
        }
        if self.is_connecting {
            return ConnectStep::AlreadyConnecting;
        }
        self.is_connecting = true;
        let url = match &self.configuration.ws_url {
            Some(url) => self.prepare_url(url.as_str()),
            None => {
                proof {
                    reveal_strlit("");
                    assert(""@ =~= Seq::<char>::empty());
                }
                self.prepare_url("")
            },
        };
        self.common.set_handlers(handler);
        ConnectStep::Open(vec![OpenTarget { url, connections: self.common.all_connections() }])
    }

    /// Ends the attempt to connect with what came of it; nothing where it took
    /// too long. The attempt succeeds only where a connection is in use.
    pub fn finish_connect(&mut self, connected: Option<Result<(), WebsocketError>>) -> (result:
        Result<(), WebsocketError>)
        ensures
            match connected {
                Some(Ok(())) => if old(self)@.common.connected() {
                    result is Ok
                } else {
                    result is Err && result->Err_0@ == WebsocketErrorView::NotConnected
                },
                Some(Err(error)) => result is Err && result->Err_0 == error,
                None => result is Err && result->Err_0@ == WebsocketErrorView::Timeout,
            },
            result is Ok ==> final(self)@.common.connected(),
            final(self)@ == (ApiView { is_connecting: false, ..old(self)@ }),
    {
        self.is_connecting = false;
        match connected {
            Some(Ok(())) => {
                if self.common.is_connected(None) {
                    Ok(())
                } else {
                    Err(WebsocketError::NotConnected)
                }
            },
            Some(Err(error)) => Err(error),
            None => Err(WebsocketError::Timeout),
        }
    }

    /// Begins to close every connection. Answers the open ones, each with the
    /// writer to close. Where none is in use, there is nothing to close and
    /// nothing changes.
    pub fn disconnect(&mut self) -> (result: Result<Vec<(usize, WriterId)>, WebsocketError>)
        ensures
            if old(self)@.common.connected() {
                &&& result is Ok
                &&& result->Ok_0@ == old(self)@.common.writers()
                &&& final(self)@ == old(self)@.with_common(old(self)@.common.closing())
            } else {
                &&& result is Err
                &&& result->Err_0@ == WebsocketErrorView::NotConnected
                &&& final(self)@ == old(self)@
            },
    {
        match self.common.disconnect() {
            Some(open) => Ok(open),
            None => Err(WebsocketError::NotConnected),
        }
    }

    /// Whether some connection is in use.
    pub fn is_connected(&self) -> (result: bool)
        ensures
            result == self@.common.connected(),
    {
        self.common.is_connected(None)
    }

    /// The connections that a ping goes out on.
    pub fn ping_server(&self) -> (result: Vec<(String, WriterId)>)
        ensures
            result.deep_view() == self@.common.pinged(),
    {
        self.common.ping_server()
    }

    /// Chooses the connections that a request with the given options goes out
    /// on: the one whose turn it is, or all that can be used where the request
    /// concerns the session.
    pub fn send_message(&mut self, options: &WebsocketMessageSendOptions) -> (result: Result<
        MessagePlan,
        WebsocketError,
    >)
        requires
            old(self)@.common.wf(),
        ensures
            ({
                let common = old(self)@.common;
                let all = options.logs_on() || options.logs_out();
                if !common.connected() || (!all && common.candidates(false, None).len() == 0) {
                    &&& result is Err
                    &&& result->Err_0@ == WebsocketErrorView::NotConnected
                    &&& final(self)@ == old(self)@
                } else {
                    &&& result is Ok
                    &&& forall|k: int|
                        0 <= k < result->Ok_0.connections.len() ==> common.holds(
                            #[trigger] result->Ok_0.connections[k],
                        )
                    &&& result->Ok_0.connections@.map_values(|place: usize| place as int) == if all {
                        common.available(false, false)
                    } else {
                        seq![common.next_candidate(false, None)]
                    }
                    &&& result->Ok_0.skip_auth == (!all
                        && old(self)@.configuration.auto_session_relogon && common.state(
                        common.next_candidate(false, None),
                    ).is_session_logged_on)
                    &&& final(self)@ == if all {
                        old(self)@
                    } else {
                        old(self)@.with_common(common.turned())
                    }
                }
            }),
    {
        if !self.common.is_connected(None) {
            return Err(WebsocketError::NotConnected);
        }
        if options.concerns_session() {
            let connections = self.common.get_available_connections(false, None);
            return Ok(MessagePlan { connections, skip_auth: false });
        }
        let place: usize = match self.common.get_connection(false, None) {
            Ok(place) => place,
            Err(error) => {
                return Err(error);
            },
        };
        let skip_auth = self.configuration.auto_session_relogon
            && self.common.connection_pool[place].state.is_session_logged_on;
        let connections: Vec<usize> = vec![place];
        proof {
            assert(connections@.map_values(|place: usize| place as int) =~= seq![place as int]);
        }
        Ok(MessagePlan { connections, skip_auth })
    }

    /// Ends a request with what became of waiting for its replies, one for each
    /// connection that it went out on, or as many as were waited for until one
    /// failed. The first that failed, if any, is its outcome. Otherwise a request that concerns the session leaves its mark on
    /// the connections, where sessions are opened again.
    pub fn finish_message<R>(
        &mut self,
        connections: &Vec<usize>,
        method: &str,
        payload: &Vec<(String, Value)>,
        options: &WebsocketMessageSendOptions,
        replies: Vec<Reply>,
    ) -> (result: Result<SendWebsocketMessageResult<R>, WebsocketError>)
        requires
            forall|k: int|
                0 <= k < connections.len() ==> old(self)@.common.holds(#[trigger] connections[k]),
            replies.len() == connections.len() || exists|k: int|
                0 <= k < replies.len() && reply_view(#[trigger] replies[k]) is Err,
            distinct_keys(payload_view(payload@)),
        ensures
            old(self)@.common.requests_wf() ==> final(self)@.common.requests_wf(),
            match result {
                Err(error) => {
                    &&& exists|k: int| #[trigger]
                        first_failure(replies@, k) && reply_view(replies[k]) == Err::<
                            JsonView,
                            WebsocketErrorView,
                        >(error@)
                    &&& final(self)@ == old(self)@
                },
                Ok(responses) => {
                    &&& forall|k: int| 0 <= k < replies.len() ==> reply_view(#[trigger] replies[k]) is Ok
                    &&& responses.reply_views() == replies@.map_values(
                        |reply: Reply| response_of(reply_view(reply)->Ok_0, reply_readable(reply)),
                    )
                    &&& (responses is Single <==> replies.len() == 1 && !(options.logs_on()
                        || options.logs_out()))
                    &&& final(self)@ == old(self)@.after_replies(
                        connections@.map_values(|place: usize| place as int),
                        LogonRequestView {
                            method: method@,
                            payload: payload_view(payload@),
                            options: *options,
                        },
                    )
                },
            },
    {
        let mut responses: Vec<WebsocketApiResponse<R>> = match read_replies(replies) {
            Ok(responses) => responses,
            Err(error) => {
                return Err(error);
            },
        };
        let all = options.concerns_session();
        if all && self.configuration.auto_session_relogon {
            self.mark_sessions(connections, method, payload, options);
        }
        let ghost views = responses@.map_values(|r: WebsocketApiResponse<R>| r@);
        if responses.len() == 1 && !all {
            let response = responses.remove(0);
            let result = SendWebsocketMessageResult::Single(response);
            proof {
                assert(result.reply_views() =~= views);
            }
            Ok(result)
        } else {
            let result = SendWebsocketMessageResult::Multiple(responses);
            proof {
                assert(result.reply_views() =~= views);
            }
            Ok(result)
        }
    }

    fn mark_sessions(
        &mut self,
        connections: &Vec<usize>,
        method: &str,
        payload: &Vec<(String, Value)>,
        options: &WebsocketMessageSendOptions,
    )
        requires
            forall|k: int|
                0 <= k < connections.len() ==> old(self)@.common.holds(#[trigger] connections[k]),
            old(self)@.configuration.auto_session_relogon,
            options.logs_on() || options.logs_out(),
        ensures
            final(self)@ == old(self)@.after_replies(
                connections@.map_values(|place: usize| place as int),
                LogonRequestView {
                    method: method@,
                    payload: payload_view(payload@),
                    options: *options,
                },
            ),
    {
        let ghost before = self@;
        let ghost chosen = connections@.map_values(|place: usize| place as int);
        let ghost request = LogonRequestView {
            method: method@,
            payload: payload_view(payload@),
            options: *options,
        };
        let ghost change = |state: ConnectionStateView|
            if options.logs_on() {
                state.with_session(request)
            } else {
                state.without_session()
            };
        let mut k: usize = 0;
        while k < connections.len()
            invariant
                k <= connections.len(),
                chosen == connections@.map_values(|place: usize| place as int),
                request == (LogonRequestView {
                    method: method@,
                    payload: payload_view(payload@),
                    options: *options,
                }),
                change == (|state: ConnectionStateView|
                    if options.logs_on() {
                        state.with_session(request)
                    } else {
                        state.without_session()
                    }),
                forall|j: int|
                    0 <= j < connections.len() ==> before.common.holds(#[trigger] connections[j]),
                self@.common.pool.len() == before.common.pool.len(),
                self@ == before.with_common(
                    before.common.with_states_at(chosen.take(k as int), change),
                ),
            decreases connections.len() - k,
        {
            let place: usize = connections[k];
            let ghost previous = self@;
            let ghost marked = chosen.take(k as int);
            proof {
                assert(before.common.holds(connections[k as int]));
            }
            if options.opens_session() {
                self.common.connection_pool[place].state.is_session_logged_on = true;
                self.common.connection_pool[place].state.session_logon_req = Some(
                    WebsocketSessionLogonReq {
                        method: method.to_owned(),
                        payload: clone_payload(payload),
                        options: *options,
                    },
                );
            } else {
                self.common.connection_pool[place].state.is_session_logged_on = false;
                self.common.connection_pool[place].state.session_logon_req = None;
            }
            proof {
                let state = before.common.state(place as int);
                assert(self@.common =~= previous.common.with_state(place as int, change(state)));
                lemma_mark(before.common, marked, change, place as int);
                assert(chosen.take(k + 1) =~= marked.push(place as int));
            }
            k += 1;
        }
        proof {
            assert(chosen.take(k as int) =~= chosen);
            if options.logs_on() {
                assert(change =~= (|state: ConnectionStateView| state.with_session(request)));
            } else {
                assert(change =~= (|state: ConnectionStateView| state.without_session()));
            }
        }
    }
}

impl WebsocketApi {
    /// The request by which the session of a connection that was just opened is
    /// to be opened again, where it has one to open.
    pub fn on_open(&self, connection: usize) -> (result: Option<WebsocketSessionLogonReq>)
        requires
            self@.common.holds(connection),
        ensures
            result.deep_view() == if self@.common.state(connection as int).is_session_logged_on {
                None
            } else {
                self@.common.state(connection as int).session_logon_req
            },
            self@.common.requests_wf() && result is Some ==> result->0@.wf(),
    {
        proof {
            assert(self@.common.requests_wf() ==> self@.common.pool[connection as int].state.request_wf());
        }
        match &self.common.connection_pool[connection].state.session_logon_req {
            None => None,
            Some(request) => {
                if self.common.connection_pool[connection].state.is_session_logged_on {
                    None
                } else {
                    Some(request.clone())
                }
            },
        }
    }

    /// Ends the opening of a session again with what became of it; nothing
    /// where no reply came in time, or none could be asked for.
    pub fn finish_relogon(
        &mut self,
        connection: usize,
        outcome: Option<Result<Value, WebsocketError>>,
    )
        requires
            old(self)@.common.holds(connection),
        ensures
            final(self)@ == match outcome {
                Some(Ok(_)) => old(self)@.with_common(
                    old(self)@.common.with_state(
                        connection as int,
                        ConnectionStateView {
                            is_session_logged_on: true,
                            ..old(self)@.common.state(connection as int)
                        },
                    ),
                ),
                _ => old(self)@,
            },
    {
        if let Some(Ok(_)) = outcome {
            self.common.connection_pool[connection].state.is_session_logged_on = true;
            proof {
                assert(self@.common =~= old(self)@.common.with_state(
                    connection as int,
                    ConnectionStateView {
                        is_session_logged_on: true,
                        ..old(self)@.common.state(connection as int)
                    },
                ));
            }
        }
    }

    /// The URL to open a connection with again: the one it was opened with.
    pub fn get_reconnect_url(&self, default_url: String, connection: usize) -> (result: String)
        ensures
            result@ == default_url@,
    {
        default_url
    }

    /// What is to be done about a message that arrived on the connection.
    pub fn on_message(&mut self, data: &str, connection: usize) -> (result: ApiStep)
        requires
            old(self)@.common.holds(connection),
        ensures
            match json_parse(data@) {
                None => {
                    &&& result is Nothing
                    &&& final(self)@ == old(self)@
                },
                Some(document) => if old(self)@.common.state(
                    connection as int,
                ).status_out_of_range(document) {
                    &&& result is StatusOutOfRange
                    &&& final(self)@ == old(self)@
                } else {
                    old(self).handles(connection as int, document, result, final(self)@)
                },
            },
            lists(old(self).stream_callbacks.listed(), old(self)@.stream_callbacks),
    {
        proof {
            use_type_invariant(&self.stream_callbacks);
            self.stream_callbacks.lemma_listed();
        }
        let message = match parse(data) {
            Ok(message) => message,
            Err(_) => {
                return ApiStep::Nothing;
            },
        };
        let limit: u64 = 0x7fff_ffff_ffff_ffff;
        if read_status(&message) > limit {
            let id = read_request_id(&message);
            if let Some(id) = id {
                if self.common.connection_pool[connection].state.pending_requests.contains_key(
                    &id,
                ) {
                    return ApiStep::StatusOutOfRange;
                }
            }
        }
        self.handle_message(&message, connection)
    }

    /// What is to be done about a message with a readable document that arrived
    /// on the connection.
    pub fn handle_message(&mut self, message: &Value, connection: usize) -> (result: ApiStep)
        requires
            old(self)@.common.holds(connection),
            !old(self)@.common.state(connection as int).status_out_of_range(json_view(*message)),
        ensures
            old(self).handles(connection as int, json_view(*message), result, final(self)@),
            lists(old(self).stream_callbacks.listed(), old(self)@.stream_callbacks),
    {
        proof {
            use_type_invariant(&self.stream_callbacks);
            self.stream_callbacks.lemma_listed();
        }
        if let Some(id) = read_request_id(message) {
            let removed = self.common.connection_pool[connection].state.pending_requests.remove(
                &id,
            );
            proof {
                let state = old(self)@.common.state(connection as int);
                assert(self@.common =~= old(self)@.common.with_state(
                    connection as int,
                    state.not_awaiting(id@),
                ));
                if !state.pending_requests.contains_key(id@) {
                    assert(state.pending_requests.remove(id@) =~= state.pending_requests);
                    assert(self@ =~= old(self)@);
                }
            }
            return match removed {
                Some(request) => ApiStep::Complete {
                    completion: request.completion,
                    outcome: read_outcome(message),
                },
                None => ApiStep::Nothing,
            };
        }
        let event = match member(message, "event") {
            Some(event) => event,
            None => {
                return ApiStep::Nothing;
            },
        };
        let kind = match member(event, "e") {
            Some(kind) => kind,
            None => {
                return ApiStep::Nothing;
            },
        };
        let shutdown = match kind.as_str() {
            Some(text) => same_text(text, "serverShutdown"),
            None => false,
        };
        if shutdown {
            if self.common.connection_pool[connection].state.renewal_pending
                || self.common.connection_pool[connection].state.close_initiated {
                return ApiStep::Nothing;
            }
            self.common.connection_pool[connection].state.renewal_pending = true;
            proof {
                let state = old(self)@.common.state(connection as int);
                assert(self@.common =~= old(self)@.common.with_state(
                    connection as int,
                    state.renewing(),
                ));
            }
            let url = match &self.common.connection_pool[connection].state.url_path {
                Some(path) => path.clone(),
                None => String::new(),
            };
            return ApiStep::Renew(self.common.reconnect_entry(connection, url, true));
        }
        ApiStep::Deliver { event: event.clone(), callbacks: self.every_callback() }
    }

    fn every_callback(&self) -> (result: Vec<CallbackId>)
        ensures
            result@ == all_callbacks(self.stream_callbacks.listed()),
    {
        let mut result: Vec<CallbackId> = Vec::new();
        let ghost entries = self.stream_callbacks.listed();
        let mut i: usize = 0;
        while i < self.stream_callbacks.len()
            invariant
                i <= entries.len(),
                entries == self.stream_callbacks.listed(),
                result@ == all_callbacks(entries.take(i as int)),
            decreases entries.len() - i,
        {
            proof {
                assert(entries.take(i + 1).drop_last() =~= entries.take(i as int));
            }
            let callbacks = self.stream_callbacks.value_at(i);
            let ghost before = result@;
            let mut k: usize = 0;
            while k < callbacks.len()
                invariant
                    k <= callbacks.len(),
                    result@ == before + callbacks@.take(k as int),
                decreases callbacks.len() - k,
            {
                result.push(callbacks[k]);
                proof {
                    assert(before + callbacks@.take(k + 1) =~= (before + callbacks@.take(
                        k as int,
                    )).push(callbacks[k as int]));
                }
                k += 1;
            }
            proof {
                assert(callbacks@.take(k as int) =~= callbacks@);
            }
            i += 1;
        }
        proof {
            assert(entries.take(i as int) =~= entries);
        }
        result
    }
}

/// The request that a message answers.
fn read_request_id(message: &Value) -> (result: Option<String>)
    ensures
        result.deep_view() == answered_request(json_view(*message)),
{
    match member(message, "id") {
        Some(id) => match id.as_str() {
            Some(id) => Some(id.to_owned()),
            None => None,
        },
        None => None,
    }
}

/// The status of a reply.
fn read_status(message: &Value) -> (result: u64)
    ensures
        result == status_of(json_view(*message)),
{
    match member(message, "status") {
        Some(status) => match status.as_u64() {
            Some(status) => status,
            None => 200,
        },
        None => 200,
    }
}

/// The outcome that a reply is for its request.
pub fn read_outcome(message: &Value) -> (result: Result<Value, WebsocketError>)
    requires
        status_of(json_view(*message)) <= i64::MAX,
    ensures
        outcome_view(result) == reply_outcome(json_view(*message)),
{
    let status: u64 = read_status(message);
    if status < 400 {
        return Ok(message.clone());
    }
    let fallback: i64 = status as i64;
    let (code, text) = match member(message, "error") {
        Some(error) => (
            match member(error, "code") {
                Some(code) => match code.as_i64() {
                    Some(code) => code,
                    None => fallback,
                },
                None => fallback,
            },
            match member(error, "msg") {
                Some(text) => match text.as_str() {
                    Some(text) => text.to_owned(),
                    None => "Unknown error".to_owned(),
                },
                None => "Unknown error".to_owned(),
            },
        ),
        None => (fallback, "Unknown error".to_owned()),
    };
    Err(WebsocketError::ResponseError { code, message: text })
}

/// The first reply that failed stands at `k`.
pub open spec fn first_failure(replies: Seq<Reply>, k: int) -> bool {
    &&& 0 <= k < replies.len()
    &&& reply_view(replies[k]) is Err
    &&& forall|j: int| 0 <= j < k ==> reply_view(#[trigger] replies[j]) is Ok
}

proof fn lemma_mark(
    common: CommonView,
    marked: Seq<int>,
    change: spec_fn(ConnectionStateView) -> ConnectionStateView,
    place: int,
)
    requires
        0 <= place < common.pool.len(),
    ensures
        common.with_states_at(marked.push(place), change) == common.with_states_at(
            marked,
            change,
        ).with_state(place, change(common.state(place))),
{
    let longer = marked.push(place);
    let left = common.with_states_at(longer, change);
    let right = common.with_states_at(marked, change).with_state(
        place,
        change(common.state(place)),
    );
    assert forall|i: int| 0 <= i < left.pool.len() implies left.pool[i] == right.pool[i] by {
        assert(longer[marked.len() as int] == place);
        if marked.contains(i) {
            let j = choose|j: int| 0 <= j < marked.len() && marked[j] == i;
            assert(longer[j] == i);
        }
        if longer.contains(i) && i != place {
            let j = choose|j: int| 0 <= j < longer.len() && longer[j] == i;
            assert(marked[j] == i);
        }
    }
    assert(left =~= right);
}

/// The entries of the rate limits of a reply, each to be read by itself.
pub fn rate_limit_entries(message: &Value) -> (result: Vec<Value>)
    ensures
        json_views(result@) == limit_entries(json_view(*message)),
{
    let mut result: Vec<Value> = Vec::new();
    if let Some(entry) = member(message, "rateLimits") {
        if let Some(items) = entry.as_array() {
            let mut i: usize = 0;
            while i < items.len()
                invariant
                    i <= items.len(),
                    result.len() == i,
                    forall|j: int|
                        0 <= j < i ==> json_view(#[trigger] result[j]) == json_view(items[j]),
                decreases items.len() - i,
            {
                result.push(items[i].clone());
                i += 1;
            }
            proof {
                assert(json_views(result@) =~= json_views(items@));
            }
            return result;
        }
    }
    proof {
        assert(json_views(result@) =~= limit_entries(json_view(*message)));
    }
    result
}

/// The rate limits that a reply carries: those of its entries that can be read.
pub fn read_rate_limits(message: &Value, readable: &Vec<bool>) -> (result: Option<Vec<Value>>)
    ensures
        crate::models::optional_json_views(result) == rate_limits_of(
            json_view(*message),
            readable@,
        ),
{
    let entry = match member(message, "rateLimits") {
        Some(entry) => entry,
        None => {
            return None;
        },
    };
    let items = match entry.as_array() {
        Some(items) => items,
        None => {
            return None;
        },
    };
    let ghost documents = json_views(items@);
    let mut result: Vec<Value> = Vec::new();
    let mut i: usize = 0;
    proof {
        assert(json_views(result@) =~= readable_entries(documents.take(0), readable@));
    }
    while i < items.len()
        invariant
            i <= items.len(),
            documents == json_views(items@),
            rate_limits_of(json_view(*message), readable@) == if exists|k: int|
                0 <= k < documents.len() && (#[trigger] documents[k]) is Null {
                None
            } else {
                Some(readable_entries(documents, readable@))
            },
            json_views(result@) == readable_entries(documents.take(i as int), readable@),
            forall|j: int| 0 <= j < i ==> !((#[trigger] documents[j]) is Null),
        decreases items.len() - i,
    {
        if items[i].is_null() {
            proof {
                assert(documents[i as int] is Null);
            }
            return None;
        }
        proof {
            assert(!(documents[i as int] is Null));
            assert(documents.take(i + 1).drop_last() =~= documents.take(i as int));
        }
        if i < readable.len() && readable[i] {
            let ghost kept = json_views(result@);
            result.push(items[i].clone());
            proof {
                assert(json_views(result@) =~= kept.push(documents[i as int]));
            }
        }
        i += 1;
    }
    proof {
        assert(documents.take(i as int) =~= documents);
    }
    Some(result)
}

/// What a reply says.
pub fn read_response<R>(message: &Value, readable: &Vec<bool>) -> (result: WebsocketApiResponse<R>)
    ensures
        result@ == response_of(json_view(*message), readable@),
{
    let raw = match member(message, "result") {
        Some(found) => found.clone(),
        None => match member(message, "response") {
            Some(found) => found.clone(),
            None => Value::default(),
        },
    };
    WebsocketApiResponse {
        raw,
        rate_limits: read_rate_limits(message, readable),
        _marker: PhantomData,
    }
}

/// What the replies say; the first failure where there is one.
fn read_replies<R>(replies: Vec<Reply>) -> (result: Result<
    Vec<WebsocketApiResponse<R>>,
    WebsocketError,
>)
    ensures
        match result {
            Err(error) => exists|k: int| #[trigger]
                first_failure(replies@, k) && reply_view(replies[k]) == Err::<
                    JsonView,
                    WebsocketErrorView,
                >(error@),
            Ok(responses) => {
                &&& forall|k: int| 0 <= k < replies.len() ==> reply_view(#[trigger] replies[k]) is Ok
                &&& responses@.map_values(|r: WebsocketApiResponse<R>| r@) == replies@.map_values(
                    |reply: Reply| response_of(reply_view(reply)->Ok_0, reply_readable(reply)),
                )
            },
        },
{
    let mut result: Vec<WebsocketApiResponse<R>> = Vec::new();
    let mut i: usize = 0;
    while i < replies.len()
        invariant
            i <= replies.len(),
            result.len() == i,
            forall|j: int| 0 <= j < i ==> reply_view(#[trigger] replies[j]) is Ok,
            forall|j: int|
                0 <= j < i ==> (#[trigger] result[j])@ == response_of(
                    reply_view(replies[j])->Ok_0,
                    reply_readable(replies[j]),
                ),
        decreases replies.len() - i,
    {
        match &replies[i] {
            Reply::NotAwaited => {
                proof {
                    assert(first_failure(replies@, i as int));
                }
                return Err(WebsocketError::NoResponse);
            },
            Reply::Abandoned => {
                proof {
                    assert(first_failure(replies@, i as int));
                }
                return Err(WebsocketError::Timeout);
            },
            Reply::Received { outcome: Err(error), .. } => {
                proof {
                    assert(first_failure(replies@, i as int));
                }
                return Err(error.clone());
            },
            Reply::Received { outcome: Ok(message), readable } => {
                result.push(read_response(message, readable));
            },
        }
        i += 1;
    }
    proof {
        assert(result@.map_values(|r: WebsocketApiResponse<R>| r@) =~= replies@.map_values(
            |reply: Reply| response_of(reply_view(reply)->Ok_0, reply_readable(reply)),
        ));
    }
    Ok(result)
}

} // verus!
