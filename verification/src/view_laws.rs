//! What the mathematical values say of the values that they stand for.

use crate::api::WebsocketApi;
use crate::common::WebsocketCommon;
use crate::connection::{
    PendingRequest, WebsocketConnection, WebsocketConnectionState, WebsocketSessionLogonReq,
};
use crate::emitter::{WebsocketEventEmitter, WebsocketMessageEventEmitter};
use crate::exchange::MessageAction;
use crate::json::json_view;
use crate::lifecycle::ReconnectEntry;
use crate::models::{StreamId, WebsocketError, WebsocketEvent, WebsocketMessageEvent};
use crate::stream::{WebsocketBase, WebsocketStream};
use crate::streams::{key_of, WebsocketStreams};
use crate::subscription::SubscriptionRequest;
use vstd::prelude::*;

verus! {

/// Nothing that is remembered about a connection is left out.
pub proof fn law_view_of_state(state: WebsocketConnectionState, i: int)
    ensures
        state@.reconnection_pending == state.reconnection_pending,
        state@.renewal_pending == state.renewal_pending,
        state@.close_initiated == state.close_initiated,
        state@.pending_requests == state.pending_requests@,
        state@.pending_subscriptions.len() == state.pending_subscriptions.len(),
        0 <= i < state.pending_subscriptions.len() ==> state@.pending_subscriptions[i]
            == state.pending_subscriptions[i]@,
        state@.stream_callbacks == state.stream_callbacks@,
        state@.is_session_logged_on == state.is_session_logged_on,
        state@.session_logon_req is Some <==> state.session_logon_req is Some,
        state.session_logon_req is Some ==> state@.session_logon_req->0
            == state.session_logon_req->0@,
        state@.url_path is Some <==> state.url_path is Some,
        state.url_path is Some ==> state@.url_path->0 == state.url_path->0@,
        state@.handler == state.handler,
        state@.ws_write_tx == state.ws_write_tx,
{
}

/// Nothing of a request that is kept, and of one that is awaited, is left out.
pub proof fn law_view_of_requests(
    request: WebsocketSessionLogonReq,
    pending: PendingRequest,
    i: int,
)
    ensures
        request@.method == request.method@,
        request@.payload.len() == request.payload.len(),
        0 <= i < request.payload.len() ==> request@.payload[i] == (
            request.payload[i].0@,
            json_view(request.payload[i].1),
        ),
        request@.options == request.options,
        pending@ == pending.completion,
{
}

/// Nothing of a connection, a pool and its subscribers is left out.
pub proof fn law_view_of_pool(
    connection: WebsocketConnection,
    common: WebsocketCommon,
    events: WebsocketEventEmitter,
    messages: WebsocketMessageEventEmitter,
    i: int,
)
    ensures
        connection@.id == connection.id@,
        connection@.state == connection.state@,
        common@.events == common.events.subscribers@,
        common@.message_events == common.message_events.subscribers@,
        common@.mode == common.mode,
        common@.round_robin_index == common.round_robin_index,
        common@.pool.len() == common.connection_pool.len(),
        0 <= i < common.connection_pool.len() ==> common@.pool[i] == common.connection_pool[i]@,
        common@.reconnect_delay == common.reconnect_delay,
        common@.user_agent is Some <==> common.user_agent is Some,
        common.user_agent is Some ==> common@.user_agent->0 == common.user_agent->0@,
        events@ == events.subscribers@,
        messages@ == messages.subscribers@,
{
}

/// Nothing of a client is left out.
pub proof fn law_view_of_clients(api: WebsocketApi, streams: WebsocketStreams, i: int)
    ensures
        api@.common == api.common@,
        api@.configuration == api.configuration,
        api@.is_connecting == api.is_connecting,
        api@.stream_callbacks == api.stream_callbacks@,
        streams@.common == streams.common@,
        streams@.stream_id_is_strictly_number == streams.stream_id_is_strictly_number,
        streams@.url_paths.len() == streams.url_paths.len(),
        0 <= i < streams.url_paths.len() ==> streams@.url_paths[i] == streams.url_paths[i]@,
        streams@.is_connecting == streams.is_connecting,
        streams@.connection_streams == streams.connection_streams@,
        streams@.configuration == streams.configuration,
{
}

/// Nothing of a stream and of the client that it comes through is left out.
pub proof fn law_view_of_stream<T>(stream: WebsocketStream<T>, base: WebsocketBase)
    ensures
        stream@.stream_or_id == stream.stream_or_id@,
        stream@.url_path is Some <==> stream.url_path is Some,
        stream.url_path is Some ==> stream@.url_path->0 == stream.url_path->0@,
        stream@.callback == stream.callback,
        stream@.id is Some <==> stream.id is Some,
        stream.id is Some ==> stream@.id->0 == stream.id->0@,
        stream@.key() == key_of(stream@.stream_or_id, stream@.url_path),
        base is WebsocketApi <==> base@ is Api,
        base is WebsocketApi ==> base@->Api_0 == base->WebsocketApi_0@,
        base is WebsocketStreams <==> base@ is Streams,
        base is WebsocketStreams ==> base@->Streams_0 == base->WebsocketStreams_0@,
{
}

/// Nothing of a subscription that is to be asked for, and of a connection that
/// is to be opened again, is left out.
pub proof fn law_view_of_orders(request: SubscriptionRequest, entry: ReconnectEntry, i: int)
    ensures
        request@.connection == request.connection,
        request@.streams.len() == request.streams.len(),
        0 <= i < request.streams.len() ==> request@.streams[i] == request.streams[i]@,
        request@.id is Some <==> request.id is Some,
        request.id is Some ==> request@.id->0 == request.id->0@,
        entry@.connection_id == entry.connection_id@,
        entry@.url == entry.url@,
        entry@.is_renewal == entry.is_renewal,
{
}

/// Identifiers, events and errors are told apart by their kinds and by what they
/// hold.
pub proof fn law_view_of_values(
    id: StreamId,
    event: WebsocketEvent,
    message: WebsocketMessageEvent,
    error: WebsocketError,
)
    ensures
        id is Str <==> id@ is Str,
        id is Str ==> id@->Str_0 == id->Str_0@,
        id is Number <==> id@ is Number,
        id is Number ==> id@->Number_0 == id->Number_0,
        event is Open <==> event@ is Open,
        event is Message <==> event@ is Message,
        event is Message ==> event@->Message_0 == event->Message_0@,
        event is Error <==> event@ is Error,
        event is Error ==> event@->Error_0 == event->Error_0@,
        event is Close <==> event@ is Close,
        event is Close ==> event@->Close_0 == event->Close_0 && event@->Close_1 == event->Close_1@,
        event is Ping <==> event@ is Ping,
        event is Pong <==> event@ is Pong,
        message@.payload == message.payload@,
        message@.connection_id == message.connection_id@,
        message@.url_path is Some <==> message.url_path is Some,
        message.url_path is Some ==> message@.url_path->0 == message.url_path->0@,
        message@.received_at_ms == message.received_at_ms,
        error is NotConnected <==> error@ is NotConnected,
        error is Timeout <==> error@ is Timeout,
        error is Handshake <==> error@ is Handshake,
        error is Handshake ==> error@->Handshake_0 == error->Handshake_0@,
        error is NoResponse <==> error@ is NoResponse,
        error is ServerError <==> error@ is ServerError,
        error is ServerError ==> error@->ServerError_0 == error->ServerError_0@,
        error is ResponseError <==> error@ is ResponseError,
        error is ResponseError ==> error@->code == error->code && error@->message
            == error->message@,
{
}

/// What is to be done about a message is told apart by its kind and by what it
/// holds.
pub proof fn law_view_of_actions(action: MessageAction, i: int)
    ensures
        action is Deliver <==> action@ is Deliver,
        action is Deliver ==> action@->Deliver_0.len() == action->Deliver_0.len(),
        action is Deliver && 0 <= i < action->Deliver_0.len() ==> action@->Deliver_0[i] == (
            action->Deliver_0[i].0,
            action->Deliver_0[i].1@,
        ),
        action is Handle <==> action@ is Handle,
        action is Handle ==> action@->handler == action->handler && action@->text == action->text@,
        action is Tell <==> action@ is Tell,
        action is Tell ==> action@->Tell_0 == action->Tell_0@,
{
}

} // verus!
