//! Sending through the pool, telling of what arrives, and closing down.

use crate::common::{places, CommonView, WebsocketCommon};
use crate::connection::{
    CompletionId, ConnectionStateView, ConnectionView, HandlerId, PendingRequest, WriterId,
};
use crate::emitter::{clamped_time, SubscriberId};
use crate::models::{
    clone_text, MessageEventView, WebsocketError, WebsocketErrorView, WebsocketEvent,
    WebsocketEventView, WebsocketMessageEvent,
};
use vstd::prelude::*;

verus! {

/// A text that is to be written.
#[derive(Debug)]
pub struct Dispatch {
    /// The connection it goes out on.
    pub connection: usize,
    /// The writer to hand it to.
    pub writer: WriterId,
    pub payload: String,
    /// The request whose reply is awaited, if one is.
    pub request_id: Option<String>,
}

/// One of the things to be done about a text message.
#[derive(Debug)]
pub enum MessageAction {
    /// Deliver the message to the subscribers to text messages.
    Deliver(Vec<(SubscriberId, WebsocketMessageEvent)>),
    /// Hand the message to the handler, and wait until it is done with it.
    Handle { handler: HandlerId, text: String },
    /// Tell the subscribers.
    Tell(WebsocketEvent),
}

/// One of the things to be done about a text message, as a mathematical value.
pub enum MessageActionView {
    Deliver(Seq<(SubscriberId, MessageEventView)>),
    Handle { handler: HandlerId, text: Seq<char> },
    Tell(WebsocketEventView),
}

impl View for MessageAction {
    type V = MessageActionView;

    open spec fn view(&self) -> MessageActionView {
        match self {
            MessageAction::Deliver(deliveries) => MessageActionView::Deliver(
                deliveries.deep_view(),
            ),
            MessageAction::Handle { handler, text } => MessageActionView::Handle {
                handler: *handler,
                text: text@,
            },
            MessageAction::Tell(event) => MessageActionView::Tell(event@),
        }
    }
}

impl DeepView for MessageAction {
    type V = MessageActionView;

    open spec fn deep_view(&self) -> MessageActionView {
        self@
    }
}

impl ConnectionStateView {
    /// The reply to the request `id` is awaited at `completion`.
    pub open spec fn awaiting(self, id: Seq<char>, completion: CompletionId) -> ConnectionStateView {
        ConnectionStateView {
            pending_requests: self.pending_requests.insert(id, completion),
            ..self
        }
    }

    /// The reply to the request `id` is not awaited.
    pub open spec fn not_awaiting(self, id: Seq<char>) -> ConnectionStateView {
        ConnectionStateView { pending_requests: self.pending_requests.remove(id), ..self }
    }

    /// The connection is being closed.
    pub open spec fn closing(self) -> ConnectionStateView {
        ConnectionStateView { close_initiated: true, ..self }
    }

    /// The connection has no session, and none to open again.
    pub open spec fn without_session(self) -> ConnectionStateView {
        ConnectionStateView { is_session_logged_on: false, session_logon_req: None, ..self }
    }

    /// No request of the connection awaits a reply.
    pub open spec fn drained(self) -> bool {
        self.pending_requests == Map::<Seq<char>, CompletionId>::empty()
    }
}

impl CommonView {
    /// The event of a text message that arrived on the connection at `place`.
    pub open spec fn message_event(
        self,
        place: int,
        text: Seq<char>,
        since_epoch_ms: Option<u128>,
    ) -> MessageEventView {
        MessageEventView {
            payload: text,
            connection_id: self.pool[place].id,
            url_path: self.state(place).url_path,
            received_at_ms: clamped_time(since_epoch_ms),
        }
    }

    /// What is to be done about a text message that arrived on the connection at
    /// `place`, one thing after the other: the subscribers to text messages get
    /// it, the handler sees to it, and then the subscribers are told.
    pub open spec fn message_actions(
        self,
        place: int,
        text: Seq<char>,
        since_epoch_ms: Option<u128>,
    ) -> Seq<MessageActionView> {
        let event = self.message_event(place, text, since_epoch_ms);
        let deliver = MessageActionView::Deliver(
            self.message_events.map_values(|subscriber: SubscriberId| (subscriber, event)),
        );
        let tell = MessageActionView::Tell(WebsocketEventView::Message(text));
        match self.state(place).handler {
            Some(handler) => seq![deliver, MessageActionView::Handle { handler, text }, tell],
            None => seq![deliver, tell],
        }
    }

    /// The same pool with every connection's state changed.
    pub open spec fn with_states(
        self,
        change: spec_fn(ConnectionStateView) -> ConnectionStateView,
    ) -> CommonView {
        CommonView {
            pool: self.pool.map_values(
                |c: ConnectionView| ConnectionView { state: change(c.state), ..c },
            ),
            ..self
        }
    }

    /// The pool is being closed.
    pub open spec fn closing(self) -> CommonView {
        self.with_states(|state: ConnectionStateView| state.closing())
    }

    /// No connection has a session.
    pub open spec fn without_sessions(self) -> CommonView {
        self.with_states(|state: ConnectionStateView| state.without_session())
    }

    /// The open connections, in order, each with its writer.
    pub open spec fn writers(self) -> Seq<(usize, WriterId)> {
        places(self.pool, |c: ConnectionView| c.state.ws_write_tx is Some).map_values(
            |place: int| (place as usize, self.state(place).ws_write_tx->0),
        )
    }

    /// The connections that can be used, in order, each by its identifier and
    /// its writer.
    pub open spec fn pinged(self) -> Seq<(Seq<char>, WriterId)> {
        places(self.pool, |c: ConnectionView| c.state.ready(false)).map_values(
            |place: int| (self.pool[place].id, self.state(place).ws_write_tx->0),
        )
    }

    /// The connection that a text goes out on, where there is one: the given
    /// one, or the one whose turn it is.
    pub open spec fn sender(self, connection: Option<usize>) -> Option<int> {
        match connection {
            Some(place) => Some(place as int),
            None => if self.candidates(false, None).len() > 0 {
                Some(self.next_candidate(false, None))
            } else {
                None
            },
        }
    }

    /// The pool after a sender was chosen: a turn was taken where none was
    /// given and there was one to choose.
    pub open spec fn after_choice(self, connection: Option<usize>) -> CommonView {
        if connection is None && self.candidates(false, None).len() > 0 {
            self.turned()
        } else {
            self
        }
    }

    /// A text goes out on the connection at `place`: the connection can be
    /// used, and where a reply is awaited the request is named.
    pub open spec fn sends(self, place: Option<int>, id: Option<Seq<char>>, wait_for_reply: bool) -> bool {
        &&& place is Some
        &&& self.state(place->0).ready(false)
        &&& wait_for_reply ==> id is Some
    }
}

impl WebsocketCommon {
    /// What is to be done about a text message that arrived on the connection,
    /// one thing after the other.
    pub fn on_message(&self, message: String, connection: usize, since_epoch_ms: Option<u128>) -> (result:
        Vec<MessageAction>)
        requires
            self@.holds(connection),
        ensures
            result.deep_view() == self@.message_actions(
                connection as int,
                message@,
                since_epoch_ms,
            ),
    {
        let url_path = clone_text(&self.connection_pool[connection].state.url_path);
        let path = match &url_path {
            Some(path) => Some(path.as_str()),
            None => None,
        };
        let deliveries = self.message_events.emit(
            message.as_str(),
            self.connection_pool[connection].id.as_str(),
            path,
            since_epoch_ms,
        );
        proof {
            let event = self@.message_event(connection as int, message@, since_epoch_ms);
            assert(deliveries.deep_view() =~= self@.message_events.map_values(
                |subscriber: SubscriberId| (subscriber, event),
            ));
        }
        let mut result: Vec<MessageAction> = vec![MessageAction::Deliver(deliveries)];
        if let Some(handler) = self.handler_of(connection) {
            result.push(MessageAction::Handle { handler, text: message.clone() });
        }
        result.push(MessageAction::Tell(WebsocketEvent::Message(message)));
        proof {
            assert(result.deep_view() =~= self@.message_actions(
                connection as int,
                message@,
                since_epoch_ms,
            ));
        }
        result
    }

    /// Begins to send a text, on the given connection or on the one whose turn
    /// it is. Where a reply is awaited, it is from now on, at `completion`.
    pub fn send(
        &mut self,
        payload: String,
        id: Option<String>,
        wait_for_reply: bool,
        completion: CompletionId,
        connection: Option<usize>,
    ) -> (result: Result<Dispatch, WebsocketError>)
        requires
            old(self)@.wf(),
            connection is Some ==> old(self)@.holds(connection->0),
        ensures
            ({
                let place = old(self)@.sender(connection);
                let chosen = old(self)@.after_choice(connection);
                if !old(self)@.sends(place, id.deep_view(), wait_for_reply) {
                    &&& result is Err
                    &&& result->Err_0@ == WebsocketErrorView::NotConnected
                    &&& final(self)@ == chosen
                } else {
                    let state = old(self)@.state(place->0);
                    &&& result is Ok
                    &&& result->Ok_0.connection == place->0
                    &&& old(self)@.holds(result->Ok_0.connection)
                    &&& Some(result->Ok_0.writer) == state.ws_write_tx
                    &&& result->Ok_0.payload@ == payload@
                    &&& result->Ok_0.request_id.deep_view() == if wait_for_reply {
                        id.deep_view()
                    } else {
                        None
                    }
                    &&& final(self)@ == if wait_for_reply {
                        chosen.with_state(place->0, state.awaiting(id->0@, completion))
                    } else {
                        chosen
                    }
                }
            }),
    {
        let place: usize = match connection {
            Some(place) => place,
            None => match self.get_connection(false, None) {
                Ok(place) => place,
                Err(error) => {
                    return Err(error);
                },
            },
        };
        let ghost chosen = self@;
        if !self.is_connected(Some(place)) {
            return Err(WebsocketError::NotConnected);
        }
        let writer: WriterId = match self.connection_pool[place].state.ws_write_tx {
            Some(writer) => writer,
            None => {
                return Err(WebsocketError::NotConnected);
            },
        };
        if !wait_for_reply {
            return Ok(Dispatch { connection: place, writer, payload, request_id: None });
        }
        let request_id = match id {
            Some(id) => id,
            None => {
                return Err(WebsocketError::NotConnected);
            },
        };
        self.connection_pool[place].state.pending_requests.insert(
            request_id.clone(),
            PendingRequest { completion },
        );
        proof {
            let state = chosen.state(place as int);
            assert(self@ =~= chosen.with_state(
                place as int,
                state.awaiting(request_id@, completion),
            ));
        }
        Ok(Dispatch { connection: place, writer, payload, request_id: Some(request_id) })
    }

    /// Ends the sending of a text. One that could not be written awaits no
    /// reply. Answers whether a reply is awaited.
    pub fn finish_send(&mut self, connection: usize, request_id: &Option<String>, written: bool) -> (result:
        Result<bool, WebsocketError>)
        requires
            old(self)@.holds(connection),
        ensures
            if written {
                &&& result == Ok::<bool, WebsocketError>(request_id is Some)
                &&& final(self)@ == old(self)@
            } else {
                &&& result is Err
                &&& result->Err_0@ == WebsocketErrorView::NotConnected
                &&& final(self)@ == match request_id {
                    Some(id) => old(self)@.with_state(
                        connection as int,
                        old(self)@.state(connection as int).not_awaiting(id@),
                    ),
                    None => old(self)@,
                }
            },
    {
        if written {
            return Ok(request_id.is_some());
        }
        match request_id {
            Some(id) => {
                self.connection_pool[connection].state.pending_requests.remove(id);
                proof {
                    assert(self@ =~= old(self)@.with_state(
                        connection as int,
                        old(self)@.state(connection as int).not_awaiting(id@),
                    ));
                }
            },
            None => {},
        }
        Err(WebsocketError::NotConnected)
    }

    /// Gives up on the reply to a request whose time is over. Answers where it
    /// was awaited, if it still was: there the request fails with a timeout.
    pub fn expire_request(&mut self, connection: usize, request_id: &String) -> (result: Option<
        CompletionId,
    >)
        requires
            old(self)@.holds(connection),
        ensures
            ({
                let state = old(self)@.state(connection as int);
                &&& result == if state.pending_requests.contains_key(request_id@) {
                    Some(state.pending_requests[request_id@])
                } else {
                    None
                }
                &&& final(self)@ == old(self)@.with_state(
                    connection as int,
                    state.not_awaiting(request_id@),
                )
            }),
    {
        let removed = self.connection_pool[connection].state.pending_requests.remove(request_id);
        proof {
            assert(self@ =~= old(self)@.with_state(
                connection as int,
                old(self)@.state(connection as int).not_awaiting(request_id@),
            ));
        }
        match removed {
            Some(request) => Some(request.completion),
            None => None,
        }
    }

    /// The connections that a ping goes out on: each one that can be used, by
    /// its identifier and its writer.
    pub fn ping_server(&self) -> (result: Vec<(String, WriterId)>)
        ensures
            result.deep_view() == self@.pinged(),
    {
        let mut result: Vec<(String, WriterId)> = Vec::new();
        let ghost pick = |c: ConnectionView| c.state.ready(false);
        let ghost entry = |place: int| (self@.pool[place].id, self@.state(place).ws_write_tx->0);
        let mut i: usize = 0;
        while i < self.connection_pool.len()
            invariant
                i <= self.connection_pool.len(),
                pick == (|c: ConnectionView| c.state.ready(false)),
                entry == (|place: int| (self@.pool[place].id, self@.state(place).ws_write_tx->0)),
                result.deep_view() == places(self@.pool.take(i as int), pick).map_values(entry),
            decreases self.connection_pool.len() - i,
        {
            proof {
                assert(self@.pool.take(i + 1).drop_last() =~= self@.pool.take(i as int));
            }
            if self.is_connection_ready(i, false) {
                if let Some(writer) = self.connection_pool[i].state.ws_write_tx {
                    let ghost listed = result.deep_view();
                    result.push((self.connection_pool[i].id.clone(), writer));
                    proof {
                        assert(result.deep_view() =~= listed.push(entry(i as int)));
                    }
                }
            }
            proof {
                assert(result.deep_view() =~= places(self@.pool.take(i + 1), pick).map_values(
                    entry,
                ));
            }
            i += 1;
        }
        proof {
            assert(self@.pool.take(i as int) =~= self@.pool);
        }
        result
    }

    /// Whether a connection that is being closed can be: its requests are
    /// answered, or it was waited for long enough.
    pub fn can_close(&self, connection: usize, waited_out: bool) -> (result: bool)
        requires
            self@.holds(connection),
        ensures
            result == (waited_out || self@.state(connection as int).drained()),
    {
        waited_out || self.connection_pool[connection].state.pending_requests.is_empty()
    }

    /// Begins to close every connection, where any is in use. Answers the open
    /// ones, each with the writer to close.
    pub fn disconnect(&mut self) -> (result: Option<Vec<(usize, WriterId)>>)
        ensures
            if old(self)@.connected() {
                &&& result is Some
                &&& result->0@ == old(self)@.writers()
                &&& final(self)@ == old(self)@.closing()
            } else {
                &&& result is None
                &&& final(self)@ == old(self)@
            },
    {
        if !self.is_connected(None) {
            return None;
        }
        let ghost before = self@;
        let ghost pick = |c: ConnectionView| c.state.ws_write_tx is Some;
        let ghost entry = |place: int| (place as usize, before.state(place).ws_write_tx->0);
        let mut open: Vec<(usize, WriterId)> = Vec::new();
        let mut i: usize = 0;
        while i < self.connection_pool.len()
            invariant
                i <= self.connection_pool.len(),
                pick == (|c: ConnectionView| c.state.ws_write_tx is Some),
                entry == (|place: int| (place as usize, before.state(place).ws_write_tx->0)),
                self@.pool.len() == before.pool.len(),
                self@ == (CommonView { pool: self@.pool, ..before }),
                forall|j: int|
                    0 <= j < i ==> #[trigger] self@.pool[j] == (ConnectionView {
                        state: before.pool[j].state.closing(),
                        ..before.pool[j]
                    }),
                forall|j: int|
                    i <= j < before.pool.len() ==> #[trigger] self@.pool[j] == before.pool[j],
                open@ == places(before.pool.take(i as int), pick).map_values(entry),
            decreases self.connection_pool.len() - i,
        {
            proof {
                assert(before.pool.take(i + 1).drop_last() =~= before.pool.take(i as int));
                assert(self@.pool[i as int] == before.pool[i as int]);
            }
            if let Some(writer) = self.connection_pool[i].state.ws_write_tx {
                open.push((i, writer));
            }
            proof {
                assert(open@ =~= places(before.pool.take(i + 1), pick).map_values(entry));
            }
            let ghost previous = self@;
            self.connection_pool[i].state.close_initiated = true;
            proof {
                assert(self@ =~= previous.with_state(
                    i as int,
                    previous.state(i as int).closing(),
                ));
            }
            i += 1;
        }
        proof {
            assert(before.pool.take(i as int) =~= before.pool);
            assert(self@ =~= before.closing());
        }
        Some(open)
    }

    /// Ends the closing of the connections with what came of it; nothing where
    /// it took too long. Once all are closed, none has a session.
    pub fn finish_disconnect(&mut self, closed: Option<Result<(), WebsocketError>>) -> (result:
        Result<(), WebsocketError>)
        ensures
            match closed {
                Some(Ok(())) => {
                    &&& result is Ok
                    &&& final(self)@ == old(self)@.without_sessions()
                },
                Some(Err(error)) => {
                    &&& result is Err
                    &&& result->Err_0 == error
                    &&& final(self)@ == old(self)@
                },
                None => {
                    &&& result is Err
                    &&& result->Err_0@ == WebsocketErrorView::Timeout
                    &&& final(self)@ == old(self)@
                },
            },
    {
        match closed {
            Some(Ok(())) => {},
            Some(Err(error)) => {
                return Err(error);
            },
            None => {
                return Err(WebsocketError::Timeout);
            },
        }
        let ghost before = self@;
        let mut i: usize = 0;
        while i < self.connection_pool.len()
            invariant
                i <= self.connection_pool.len(),
                self@.pool.len() == before.pool.len(),
                self@ == (CommonView { pool: self@.pool, ..before }),
                forall|j: int|
                    0 <= j < i ==> #[trigger] self@.pool[j] == (ConnectionView {
                        state: before.pool[j].state.without_session(),
                        ..before.pool[j]
                    }),
                forall|j: int|
                    i <= j < before.pool.len() ==> #[trigger] self@.pool[j] == before.pool[j],
            decreases self.connection_pool.len() - i,
        {
            let ghost previous = self@;
            self.connection_pool[i].state.is_session_logged_on = false;
            self.connection_pool[i].state.session_logon_req = None;
            proof {
                assert(previous.pool[i as int] == before.pool[i as int]);
                assert(self@ =~= previous.with_state(
                    i as int,
                    previous.state(i as int).without_session(),
                ));
            }
            i += 1;
        }
        proof {
            assert(self@ =~= before.without_sessions());
        }
        Ok(())
    }
}

} // verus!
