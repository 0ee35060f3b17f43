//! Opening, watching and closing the connections of the pool.

use crate::common::{CommonView, WebsocketCommon};
use crate::connection::{
    ConnectionStateView, ConnectionView, HandlerId, WebsocketConnection, WriterId,
};
use crate::emitter::{WebsocketEventEmitter, WebsocketMessageEventEmitter};
use crate::failure::WebsocketConnectionFailureReason;
use crate::inflate::{inflate_text, zlib_text};
use crate::models::{
    WebsocketError, WebsocketErrorView, WebsocketEvent, WebsocketEventView, WebsocketMode,
};
use tokio_tungstenite::tungstenite;
use vstd::prelude::*;

verus! {

/// How long a connection is used before it is renewed, in seconds.
pub const MAX_CONN_SECONDS: u64 = 82_800;

/// How long the requests of a connection that is being closed are waited for,
/// in seconds.
pub const CLOSE_WAIT_SECONDS: u64 = 30;

/// How long an attempt to open connections may take, in seconds.
pub const CONNECT_WAIT_SECONDS: u64 = 10;

/// How long to pause after each attempt to open a connection again, in seconds.
pub const RECONNECT_PAUSE_SECONDS: u64 = 1;

/// The code of a normal close.
pub const NORMAL_CLOSE_CODE: u16 = 1000;

/// A connection that is to be opened again.
#[derive(Debug)]
pub struct ReconnectEntry {
    pub connection_id: String,
    pub url: String,
    pub is_renewal: bool,
}

/// A connection that is to be opened again, as a mathematical value.
pub struct ReconnectEntryView {
    pub connection_id: Seq<char>,
    pub url: Seq<char>,
    pub is_renewal: bool,
}

impl View for ReconnectEntry {
    type V = ReconnectEntryView;

    open spec fn view(&self) -> ReconnectEntryView {
        ReconnectEntryView {
            connection_id: self.connection_id@,
            url: self.url@,
            is_renewal: self.is_renewal,
        }
    }
}

/// What was done for a connection that was opened.
#[derive(Debug)]
pub struct Opened {
    /// The writer that the new one took the place of.
    pub old_writer: Option<WriterId>,
    /// The identifier under which the renewal of the connection is scheduled.
    pub renewal_id: String,
    /// The URL to renew the connection with.
    pub renewal_url: String,
}

/// Connections that are to be opened at a URL.
#[derive(Debug)]
pub struct OpenTarget {
    pub url: String,
    pub connections: Vec<usize>,
}

/// What is to be done to connect.
#[derive(Debug)]
pub enum ConnectStep {
    /// A connection is in use already.
    AlreadyConnected,
    /// Connections are being opened already.
    AlreadyConnecting,
    /// Open the connections of each target.
    Open(Vec<OpenTarget>),
}

/// What is to be done once a connection is open.
#[derive(Debug, PartialEq, Eq)]
pub enum OpenStep {
    /// Tell the subscribers.
    Announce,
    /// Close a writer, once its requests are answered.
    Close(WriterId),
    /// Nothing.
    Nothing,
}

/// What is to be done about a failed connection.
#[derive(Debug)]
pub struct Failure {
    pub reason: WebsocketConnectionFailureReason,
    /// The connection is to be opened again.
    pub reconnect: bool,
    /// What the subscribers are told where it is not.
    pub event: Option<WebsocketEvent>,
}

/// What is to be done about an error in reading from a connection: tell the
/// subscribers, and see to the failure.
#[derive(Debug)]
pub struct ReadFailure {
    pub event: WebsocketEvent,
    pub failure: Failure,
}

/// What arrives on a connection.
#[derive(Debug)]
pub enum Frame {
    Text(String),
    Binary(Vec<u8>),
    Ping(Vec<u8>),
    Pong,
    Close(Option<(u16, String)>),
    Other,
}

/// What is to be done about a frame.
#[derive(Debug)]
pub enum FrameStep {
    /// Hand the text to the handler and to the subscribers.
    Message(String),
    /// Tell the subscribers, and answer through the writer, where there is one.
    Ping { reply: Option<WriterId>, payload: Vec<u8> },
    /// Tell the subscribers.
    Pong,
    /// Tell the subscribers of the close, and see to the failure. No frame
    /// follows.
    Closed { event: WebsocketEvent, failure: Failure },
    /// Nothing.
    Nothing,
}

/// The pool of one new connection for each identifier.
pub open spec fn fresh_pool(ids: Seq<Seq<char>>) -> Seq<ConnectionView> {
    ids.map_values(
        |id: Seq<char>| ConnectionView { id, state: ConnectionStateView::fresh() },
    )
}

/// The first place of the pool whose connection has the identifier `id`.
pub open spec fn is_place_of(pool: Seq<ConnectionView>, id: Seq<char>, place: int) -> bool {
    &&& 0 <= place < pool.len()
    &&& pool[place].id == id
    &&& forall|j: int| 0 <= j < place ==> (#[trigger] pool[j]).id != id
}

/// The report of a connection that is not opened again.
pub open spec fn permanent_failure(
    id: Seq<char>,
    reason: WebsocketConnectionFailureReason,
) -> WebsocketEventView {
    WebsocketEventView::Error(
        "[CRITICAL] Connection "@ + id + " permanently failed: "@ + reason.spelled(),
    )
}

/// A compressed message counts as the text it holds; one that holds none is
/// passed over.
pub open spec fn is_binary_step(text: Option<Seq<char>>, step: FrameStep) -> bool {
    match text {
        Some(text) => step matches FrameStep::Message(message) && message@ == text,
        None => step is Nothing,
    }
}

/// What is to be done about a compressed message that holds `text`.
pub fn binary_step(text: Option<String>) -> (result: FrameStep)
    ensures
        is_binary_step(text.deep_view(), result),
{
    match text {
        Some(text) => FrameStep::Message(text),
        None => FrameStep::Nothing,
    }
}

impl ConnectionStateView {
    /// An attempt to open the connection does nothing: it is being renewed
    /// already, or it is open and is neither renewed nor lost.
    pub open spec fn skips_opening(self, is_renewal: bool) -> bool {
        ||| is_renewal && self.renewal_pending
        ||| !is_renewal && self.ws_write_tx is Some && !self.reconnection_pending
    }

    /// An attempt to open the connection is under way.
    pub open spec fn opening(self, is_renewal: bool) -> ConnectionStateView {
        ConnectionStateView {
            renewal_pending: self.renewal_pending || is_renewal,
            is_session_logged_on: false,
            ..self
        }
    }

    /// The connection is open.
    pub open spec fn opened(self, writer: WriterId) -> ConnectionStateView {
        ConnectionStateView {
            reconnection_pending: false,
            ws_write_tx: Some(writer),
            ..self
        }
    }

    /// A failure of the connection is answered by opening it again.
    pub open spec fn recovers(
        self,
        is_renewal: bool,
        reason: WebsocketConnectionFailureReason,
    ) -> bool {
        !self.close_initiated && !is_renewal && reason.recoverable()
    }

    /// What arrives on the connection is handled by `handler`.
    pub open spec fn handled_by(self, handler: HandlerId) -> ConnectionStateView {
        ConnectionStateView { handler: Some(handler), ..self }
    }

    /// The connection is lost and waits to be opened again.
    pub open spec fn lost(self) -> ConnectionStateView {
        ConnectionStateView {
            reconnection_pending: true,
            is_session_logged_on: false,
            ..self
        }
    }
}

impl CommonView {
    /// The connection that an attempt to open one is for, where there is one:
    /// the given one, or else the one whose turn it is.
    pub open spec fn opening_place(self, connection: Option<usize>) -> Option<int> {
        match connection {
            Some(place) => Some(place as int),
            None => if self.candidates(true, None).len() > 0 {
                Some(self.next_candidate(true, None))
            } else {
                None
            },
        }
    }

    /// An attempt to open a connection does open one.
    pub open spec fn opens(self, is_renewal: bool, connection: Option<usize>) -> bool {
        match self.opening_place(connection) {
            Some(place) => !self.state(place).skips_opening(is_renewal),
            None => false,
        }
    }

    /// The pool once an attempt to open a connection has begun. A turn is taken
    /// only where no connection was given.
    pub open spec fn after_init(self, is_renewal: bool, connection: Option<usize>) -> CommonView {
        let chosen = if connection is None && self.opening_place(connection) is Some {
            self.turned()
        } else {
            self
        };
        if self.opens(is_renewal, connection) {
            let place = self.opening_place(connection)->0;
            chosen.with_state(place, self.state(place).opening(is_renewal))
        } else {
            chosen
        }
    }

    /// The pool after a failure of the connection at `place`.
    pub open spec fn after_failure(
        self,
        place: int,
        is_renewal: bool,
        reason: WebsocketConnectionFailureReason,
    ) -> CommonView {
        if self.state(place).recovers(is_renewal, reason) {
            self.with_state(place, self.state(place).lost())
        } else {
            self
        }
    }

    /// What is to be done about a failure of the connection at `place`.
    pub open spec fn answers_failure(
        self,
        place: int,
        is_renewal: bool,
        reason: WebsocketConnectionFailureReason,
        failure: Failure,
    ) -> bool {
        &&& failure.reason == reason
        &&& failure.reconnect == self.state(place).recovers(is_renewal, reason)
        &&& failure.event.deep_view() == if failure.reconnect {
            None
        } else {
            Some(permanent_failure(self.pool[place].id, reason))
        }
    }
}

/// The first outcome that is a failure stands at `k`.
pub open spec fn first_error(outcomes: Seq<Result<(), WebsocketError>>, k: int) -> bool {
    &&& 0 <= k < outcomes.len()
    &&& outcomes[k] is Err
    &&& forall|j: int| 0 <= j < k ==> (#[trigger] outcomes[j]) is Ok
}

/// The outcome of opening several connections: a success where each of them was
/// opened, or else the first failure.
pub fn pool_outcome(outcomes: Vec<Result<(), WebsocketError>>) -> (result: Result<
    (),
    WebsocketError,
>)
    ensures
        result is Ok <==> forall|k: int| 0 <= k < outcomes.len() ==> (#[trigger] outcomes[k]) is Ok,
        result is Err ==> exists|k: int| #[trigger]
            first_error(outcomes@, k) && outcomes[k]->Err_0@ == result->Err_0@,
{
    let mut i: usize = 0;
    while i < outcomes.len()
        invariant
            i <= outcomes.len(),
            forall|k: int| 0 <= k < i ==> (#[trigger] outcomes[k]) is Ok,
        decreases outcomes.len() - i,
    {
        if let Err(error) = &outcomes[i] {
            proof {
                assert(first_error(outcomes@, i as int));
            }
            return Err(error.clone());
        }
        i += 1;
    }
    Ok(())
}

impl WebsocketCommon {
    /// A pool of the given connections. Where none are given, there is a new one
    /// for each connection of the mode, named by the fresh identifiers.
    #[must_use]
    pub fn new(
        initial_pool: Vec<WebsocketConnection>,
        mode: WebsocketMode,
        reconnect_delay: usize,
        user_agent: Option<String>,
        fresh_ids: &Vec<String>,
    ) -> (result: Self)
        requires
            mode.size() > 0,
            initial_pool.len() == 0 ==> fresh_ids.len() >= mode.size(),
        ensures
            result@ == (CommonView {
                events: Seq::empty(),
                message_events: Seq::empty(),
                mode,
                round_robin_index: 0,
                pool: if initial_pool.len() == 0 {
                    fresh_pool(fresh_ids.deep_view().take(mode.size() as int))
                } else {
                    initial_pool.deep_view()
                },
                reconnect_delay,
                user_agent: user_agent.deep_view(),
            }),
            result@.wf(),
    {
        let mut pool = initial_pool;
        if pool.len() == 0 {
            let size: usize = mode.pool_size();
            let mut i: usize = 0;
            while i < size
                invariant
                    i <= size,
                    pool.len() == i,
                    size <= fresh_ids.len(),
                    forall|j: int|
                        0 <= j < i ==> (#[trigger] pool[j])@ == (ConnectionView {
                            id: fresh_ids[j]@,
                            state: ConnectionStateView::fresh(),
                        }),
                decreases size - i,
            {
                pool.push(WebsocketConnection::new(fresh_ids[i].as_str()));
                i += 1;
            }
            proof {
                assert(pool.deep_view() =~= fresh_pool(
                    fresh_ids.deep_view().take(mode.size() as int),
                ));
            }
        }
        WebsocketCommon {
            events: WebsocketEventEmitter::new(),
            message_events: WebsocketMessageEventEmitter::new(),
            mode,
            round_robin_index: 0,
            connection_pool: pool,
            reconnect_delay,
            user_agent,
        }
    }

    /// The place of the connection named `id`, if there is one.
    pub fn find_connection(&self, id: &String) -> (result: Option<usize>)
        ensures
            match result {
                Some(place) => is_place_of(self@.pool, id@, place as int),
                None => forall|j: int| 0 <= j < self@.pool.len() ==> (#[trigger] self@.pool[j]).id
                    != id@,
            },
    {
        let mut i: usize = 0;
        while i < self.connection_pool.len()
            invariant
                i <= self.connection_pool.len(),
                forall|j: int| 0 <= j < i ==> (#[trigger] self@.pool[j]).id != id@,
            decreases self.connection_pool.len() - i,
        {
            if self.connection_pool[i].id == *id {
                return Some(i);
            }
            i += 1;
        }
        None
    }

    /// Begins to open a connection: the given one, or else one handed out in
    /// turn, where there is one. Answers the connection to open; nothing where
    /// the attempt is skipped.
    pub fn init_connect(&mut self, is_renewal: bool, connection: Option<usize>) -> (result: Result<
        Option<usize>,
        WebsocketError,
    >)
        requires
            old(self)@.wf(),
            connection is Some ==> old(self)@.holds(connection->0),
        ensures
            match old(self)@.opening_place(connection) {
                None => {
                    &&& result is Err
                    &&& result->Err_0@ == WebsocketErrorView::NotConnected
                },
                Some(place) => if old(self)@.opens(is_renewal, connection) {
                    &&& result is Ok
                    &&& result->Ok_0 is Some
                    &&& result->Ok_0->0 == place
                } else {
                    result == Ok::<Option<usize>, WebsocketError>(None)
                },
            },
            final(self)@ == old(self)@.after_init(is_renewal, connection),
    {
        let place: usize = match connection {
            Some(place) => place,
            None => match self.get_connection(true, None) {
                Ok(place) => place,
                Err(error) => {
                    return Err(error);
                },
            },
        };
        let ghost before = self@;
        let renewal_pending = self.connection_pool[place].state.renewal_pending;
        let reconnection_pending = self.connection_pool[place].state.reconnection_pending;
        let established = self.connection_pool[place].state.ws_write_tx.is_some();
        if renewal_pending && is_renewal {
            return Ok(None);
        }
        if established && !is_renewal && !reconnection_pending {
            return Ok(None);
        }
        if is_renewal {
            self.connection_pool[place].state.renewal_pending = true;
        }
        self.connection_pool[place].state.is_session_logged_on = false;
        proof {
            assert(self@ =~= before.with_state(
                place as int,
                before.state(place as int).opening(is_renewal),
            ));
        }
        Ok(Some(place))
    }

    /// Ends the opening of the connection at `connection` with what the
    /// handshake gave: a writer, or an error, which leaves everything as it is.
    pub fn finish_connect(
        &mut self,
        connection: usize,
        url: &str,
        handshake: Result<WriterId, WebsocketError>,
    ) -> (result: Result<Opened, WebsocketError>)
        requires
            old(self)@.holds(connection),
        ensures
            match handshake {
                Ok(writer) => {
                    &&& result is Ok
                    &&& result->Ok_0.old_writer == old(self)@.state(connection as int).ws_write_tx
                    &&& result->Ok_0.renewal_id@ == old(self)@.pool[connection as int].id
                    &&& result->Ok_0.renewal_url@ == url@
                    &&& final(self)@ == old(self)@.with_state(
                        connection as int,
                        old(self)@.state(connection as int).opened(writer),
                    )
                },
                Err(error) => {
                    &&& result is Err
                    &&& result->Err_0 == error
                    &&& final(self)@ == old(self)@
                },
            },
    {
        let writer: WriterId = match handshake {
            Ok(writer) => writer,
            Err(error) => {
                return Err(error);
            },
        };
        let old_writer = self.connection_pool[connection].state.ws_write_tx;
        self.connection_pool[connection].state.reconnection_pending = false;
        self.connection_pool[connection].state.ws_write_tx = Some(writer);
        proof {
            assert(self@ =~= old(self)@.with_state(
                connection as int,
                old(self)@.state(connection as int).opened(writer),
            ));
        }
        Ok(
            Opened {
                old_writer,
                renewal_id: self.connection_pool[connection].id.clone(),
                renewal_url: url.to_owned(),
            },
        )
    }

    /// The handler of the connection at `connection`.
    pub fn handler_of(&self, connection: usize) -> (result: Option<HandlerId>)
        requires
            self@.holds(connection),
        ensures
            result == self@.state(connection as int).handler,
    {
        self.connection_pool[connection].state.handler
    }

    /// What is to be done once the handler knows that the connection is open.
    /// A renewed connection lets go of its previous writer without telling
    /// anyone; one that was closed in the meantime is closed again.
    pub fn on_open(&mut self, connection: usize, old_writer: Option<WriterId>) -> (result: OpenStep)
        requires
            old(self)@.holds(connection),
        ensures
            ({
                let state = old(self)@.state(connection as int);
                if state.renewal_pending {
                    &&& result == match old_writer {
                        Some(writer) => OpenStep::Close(writer),
                        None => OpenStep::Nothing,
                    }
                    &&& final(self)@ == old(self)@.with_state(
                        connection as int,
                        ConnectionStateView { renewal_pending: false, ..state },
                    )
                } else {
                    &&& result == if !state.close_initiated {
                        OpenStep::Announce
                    } else {
                        match state.ws_write_tx {
                            Some(writer) => OpenStep::Close(writer),
                            None => OpenStep::Nothing,
                        }
                    }
                    &&& final(self)@ == old(self)@
                }
            }),
    {
        if self.connection_pool[connection].state.renewal_pending {
            self.connection_pool[connection].state.renewal_pending = false;
            proof {
                let state = old(self)@.state(connection as int);
                assert(self@ =~= old(self)@.with_state(
                    connection as int,
                    ConnectionStateView { renewal_pending: false, ..state },
                ));
            }
            return match old_writer {
                Some(writer) => OpenStep::Close(writer),
                None => OpenStep::Nothing,
            };
        }
        if self.connection_pool[connection].state.close_initiated {
            return match self.connection_pool[connection].state.ws_write_tx {
                Some(writer) => OpenStep::Close(writer),
                None => OpenStep::Nothing,
            };
        }
        OpenStep::Announce
    }

    /// Notes a failure of the connection: it is opened again where the failure
    /// is one that passes, nobody asked for the connection to be closed and it
    /// was not opened to renew another.
    pub fn note_failure(
        &mut self,
        connection: usize,
        is_renewal: bool,
        reason: WebsocketConnectionFailureReason,
    ) -> (result: bool)
        requires
            old(self)@.holds(connection),
        ensures
            result == old(self)@.state(connection as int).recovers(is_renewal, reason),
            final(self)@ == old(self)@.after_failure(connection as int, is_renewal, reason),
    {
        if !self.connection_pool[connection].state.close_initiated && !is_renewal
            && reason.should_reconnect() {
            self.connection_pool[connection].state.reconnection_pending = true;
            self.connection_pool[connection].state.is_session_logged_on = false;
            proof {
                assert(self@ =~= old(self)@.with_state(
                    connection as int,
                    old(self)@.state(connection as int).lost(),
                ));
            }
            true
        } else {
            false
        }
    }

    /// Sees to a failure of the connection that its reader met.
    pub fn report_failure(
        &mut self,
        connection: usize,
        is_renewal: bool,
        reason: WebsocketConnectionFailureReason,
    ) -> (result: Failure)
        requires
            old(self)@.holds(connection),
        ensures
            old(self)@.answers_failure(connection as int, is_renewal, reason, result),
            final(self)@ == old(self)@.after_failure(connection as int, is_renewal, reason),
    {
        if self.note_failure(connection, is_renewal, reason) {
            return Failure { reason, reconnect: true, event: None };
        }
        let mut text = "[CRITICAL] Connection ".to_owned();
        text.append(self.connection_pool[connection].id.as_str());
        text.append(" permanently failed: ");
        text.append(reason.name());
        Failure { reason, reconnect: false, event: Some(WebsocketEvent::Error(text)) }
    }

    /// Sees to an error that the writer of the connection met. Answers whether
    /// the connection is to be opened again.
    pub fn on_write_error(
        &mut self,
        connection: usize,
        is_renewal: bool,
        error: &tungstenite::Error,
    ) -> (result: bool)
        requires
            old(self)@.holds(connection),
        ensures
            result == old(self)@.state(connection as int).recovers(
                is_renewal,
                WebsocketConnectionFailureReason::of_error(*error),
            ),
            final(self)@ == old(self)@.after_failure(
                connection as int,
                is_renewal,
                WebsocketConnectionFailureReason::of_error(*error),
            ),
    {
        let reason = WebsocketConnectionFailureReason::from_tungstenite_error(error);
        self.note_failure(connection, is_renewal, reason)
    }

    /// Sees to an error that the reader of the connection met, and that is
    /// described by `error_text`. No frame follows.
    pub fn on_read_error(
        &mut self,
        connection: usize,
        is_renewal: bool,
        error: &tungstenite::Error,
        error_text: String,
    ) -> (result: ReadFailure)
        requires
            old(self)@.holds(connection),
        ensures
            result.event@ == WebsocketEventView::Error(error_text@),
            old(self)@.answers_failure(
                connection as int,
                is_renewal,
                WebsocketConnectionFailureReason::of_error(*error),
                result.failure,
            ),
            final(self)@ == old(self)@.after_failure(
                connection as int,
                is_renewal,
                WebsocketConnectionFailureReason::of_error(*error),
            ),
    {
        let reason = WebsocketConnectionFailureReason::from_tungstenite_error(error);
        ReadFailure {
            event: WebsocketEvent::Error(error_text),
            failure: self.report_failure(connection, is_renewal, reason),
        }
    }

    /// Sees to a frame that arrived on the connection.
    pub fn on_frame(&mut self, connection: usize, is_renewal: bool, frame: Frame) -> (result:
        FrameStep)
        requires
            old(self)@.holds(connection),
        ensures
            ({
                let state = old(self)@.state(connection as int);
                match frame {
                    Frame::Text(text) => {
                        &&& result matches FrameStep::Message(message) && message@ == text@
                        &&& final(self)@ == old(self)@
                    },
                    Frame::Binary(data) => {
                        &&& is_binary_step(zlib_text(data@), result)
                        &&& final(self)@ == old(self)@
                    },
                    Frame::Ping(data) => {
                        &&& result matches FrameStep::Ping { reply, payload } && reply
                            == state.ws_write_tx && payload@ == data@
                        &&& final(self)@ == old(self)@
                    },
                    Frame::Pong => {
                        &&& result is Pong
                        &&& final(self)@ == old(self)@
                    },
                    Frame::Close(frame) => {
                        let (code, text) = match frame {
                            Some((code, text)) => (code, text@),
                            None => (NORMAL_CLOSE_CODE, Seq::<char>::empty()),
                        };
                        let reason = WebsocketConnectionFailureReason::of_close_code(
                            code,
                            state.close_initiated,
                        );
                        &&& result matches FrameStep::Closed { event, failure } && event@
                            == WebsocketEventView::Close(code, text)
                            && old(self)@.answers_failure(
                            connection as int,
                            is_renewal,
                            reason,
                            failure,
                        )
                        &&& final(self)@ == old(self)@.after_failure(
                            connection as int,
                            is_renewal,
                            reason,
                        )
                    },
                    Frame::Other => {
                        &&& result is Nothing
                        &&& final(self)@ == old(self)@
                    },
                }
            }),
    {
        match frame {
            Frame::Text(text) => FrameStep::Message(text),
            Frame::Binary(data) => binary_step(inflate_text(data.as_slice())),
            Frame::Ping(payload) => FrameStep::Ping {
                reply: self.connection_pool[connection].state.ws_write_tx,
                payload,
            },
            Frame::Pong => FrameStep::Pong,
            Frame::Close(frame) => {
                let (code, text) = match frame {
                    Some((code, text)) => (code, text),
                    None => (NORMAL_CLOSE_CODE, String::new()),
                };
                let user_initiated = self.connection_pool[connection].state.close_initiated;
                let reason = WebsocketConnectionFailureReason::from_close_code(
                    code,
                    user_initiated,
                );
                let failure = self.report_failure(connection, is_renewal, reason);
                FrameStep::Closed { event: WebsocketEvent::Close(code, text), failure }
            },
            Frame::Other => FrameStep::Nothing,
        }
    }

    /// Sees to the end of what arrives on the connection. `reason` is what a
    /// close frame or an error had given before. Answers whether the connection
    /// is to be opened again; if so, its writer is gone.
    pub fn on_stream_end(
        &mut self,
        connection: usize,
        is_renewal: bool,
        reason: Option<WebsocketConnectionFailureReason>,
    ) -> (result: bool)
        requires
            old(self)@.holds(connection),
        ensures
            ({
                let state = old(self)@.state(connection as int);
                let cause = match reason {
                    Some(reason) => reason,
                    None => WebsocketConnectionFailureReason::StreamEnded,
                };
                &&& result == state.recovers(is_renewal, cause)
                &&& final(self)@ == if result {
                    old(self)@.with_state(
                        connection as int,
                        ConnectionStateView { ws_write_tx: None, ..state.lost() },
                    )
                } else {
                    old(self)@
                }
            }),
    {
        let cause = reason.unwrap_or(WebsocketConnectionFailureReason::StreamEnded);
        if self.note_failure(connection, is_renewal, cause) {
            let ghost lost = self@;
            proof {
                assert(lost.holds(connection));
            }
            self.connection_pool[connection].state.ws_write_tx = None;
            proof {
                assert(self@ =~= lost.with_state(
                    connection as int,
                    ConnectionStateView { ws_write_tx: None, ..lost.state(connection as int) },
                ));
                let state = old(self)@.state(connection as int);
                assert(self@ =~= old(self)@.with_state(
                    connection as int,
                    ConnectionStateView { ws_write_tx: None, ..state.lost() },
                ));
            }
            true
        } else {
            false
        }
    }

    /// The URL to open the connection with again: what its handler answered,
    /// or the one it was opened with where it has no handler.
    pub fn get_reconnect_url(
        &self,
        default_url: &str,
        connection: usize,
        handler_answer: Option<String>,
    ) -> (result: String)
        requires
            self@.holds(connection),
            self@.state(connection as int).handler is Some ==> handler_answer is Some,
        ensures
            result@ == if self@.state(connection as int).handler is Some {
                handler_answer->0@
            } else {
                default_url@
            },
    {
        if self.connection_pool[connection].state.handler.is_some() {
            handler_answer.unwrap()
        } else {
            default_url.to_owned()
        }
    }

    /// The entry by which the connection is opened again.
    pub fn reconnect_entry(&self, connection: usize, url: String, is_renewal: bool) -> (result:
        ReconnectEntry)
        requires
            self@.holds(connection),
        ensures
            result@ == (ReconnectEntryView {
                connection_id: self@.pool[connection as int].id,
                url: url@,
                is_renewal,
            }),
    {
        ReconnectEntry {
            connection_id: self.connection_pool[connection].id.clone(),
            url,
            is_renewal,
        }
    }

    /// The milliseconds to wait before an entry is seen to. A renewal does not
    /// wait.
    pub fn reconnect_wait(&self, entry: &ReconnectEntry) -> (result: Option<usize>)
        ensures
            result == if entry.is_renewal {
                None
            } else {
                Some(self@.reconnect_delay)
            },
    {
        if entry.is_renewal {
            None
        } else {
            Some(self.reconnect_delay)
        }
    }

    /// Sets the handler of every connection.
    pub fn set_handlers(&mut self, handler: HandlerId)
        ensures
            final(self)@ == old(self)@.with_states(
                |state: ConnectionStateView| state.handled_by(handler),
            ),
    {
        let ghost before = self@;
        let mut i: usize = 0;
        while i < self.connection_pool.len()
            invariant
                i <= self.connection_pool.len(),
                self@.pool.len() == before.pool.len(),
                self@ == (CommonView { pool: self@.pool, ..before }),
                forall|j: int|
                    0 <= j < i ==> #[trigger] self@.pool[j] == (ConnectionView {
                        state: before.pool[j].state.handled_by(handler),
                        ..before.pool[j]
                    }),
                forall|j: int|
                    i <= j < before.pool.len() ==> #[trigger] self@.pool[j] == before.pool[j],
            decreases self.connection_pool.len() - i,
        {
            let ghost previous = self@;
            self.connection_pool[i].state.handler = Some(handler);
            proof {
                assert(previous.pool[i as int] == before.pool[i as int]);
                assert(self@ =~= previous.with_state(
                    i as int,
                    previous.state(i as int).handled_by(handler),
                ));
            }
            i += 1;
        }
        proof {
            assert(self@ =~= before.with_states(
                |state: ConnectionStateView| state.handled_by(handler),
            ));
        }
    }

    /// Every place of the pool.
    pub fn all_connections(&self) -> (result: Vec<usize>)
        ensures
            result@ == Seq::new(self@.pool.len(), |i: int| i as usize),
    {
        let mut result: Vec<usize> = Vec::new();
        let mut i: usize = 0;
        while i < self.connection_pool.len()
            invariant
                i <= self.connection_pool.len(),
                result.len() == i,
                forall|j: int| 0 <= j < i ==> #[trigger] result[j] == j,
            decreases self.connection_pool.len() - i,
        {
            result.push(i);
            i += 1;
        }
        proof {
            assert(result@ =~= Seq::new(self@.pool.len(), |i: int| i as usize));
        }
        result
    }
}

} // verus!
