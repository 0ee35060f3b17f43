//! What the pool promises, said of the fields of its connections.

use crate::common::{lemma_places, places, CommonView};
use crate::connection::{
    CallbackId, CompletionId, ConnectionStateView, ConnectionView, HandlerId, LogonRequestView,
    WriterId,
};
use crate::emitter::{clamped_time, reached, SubscriberId};
use crate::exchange::MessageActionView;
use crate::failure::{IoFailure, TransportFailure, WebsocketConnectionFailureReason};
use crate::json::JsonView;
use crate::lifecycle::{
    fresh_pool, is_binary_step, is_place_of, permanent_failure, Failure, FrameStep,
};
use crate::models::{MessageEventView, WebsocketEventView, WebsocketMode};
use vstd::prelude::*;

verus! {

/// A connection can be used exactly where it is open, or need not be, and is
/// neither lost nor being closed, whatever else is remembered about it.
pub proof fn law_usable(state: ConnectionStateView, allow_non_established: bool)
    ensures
        state.ready(allow_non_established) <==> !state.reconnection_pending
            && !state.close_initiated && (state.ws_write_tx is Some || allow_non_established),
{
}

/// A pool is in use exactly where one of its connections is open and is neither
/// lost nor being closed.
pub proof fn law_in_use(common: CommonView)
    ensures
        common.connected() <==> exists|i: int|
            0 <= i < common.pool.len() && (#[trigger] common.pool[i]).state.ws_write_tx is Some
                && !common.pool[i].state.reconnection_pending
                && !common.pool[i].state.close_initiated,
{
    if common.connected() {
        let i = choose|i: int|
            0 <= i < common.pool.len() && (#[trigger] common.pool[i]).state.ready(false);
        assert(common.pool[i].state.ws_write_tx is Some);
    }
    if exists|i: int|
        0 <= i < common.pool.len() && (#[trigger] common.pool[i]).state.ws_write_tx is Some
            && !common.pool[i].state.reconnection_pending && !common.pool[i].state.close_initiated {
        let i = choose|i: int|
            0 <= i < common.pool.len() && (#[trigger] common.pool[i]).state.ws_write_tx is Some
                && !common.pool[i].state.reconnection_pending
                && !common.pool[i].state.close_initiated;
        assert(common.pool[i].state.ready(false));
    }
}

/// The failures that pass are an interrupted network, a reset, a temporary error
/// of the server, an unexpected close and the end of the stream.
pub proof fn law_failures_that_pass(reason: WebsocketConnectionFailureReason)
    ensures
        reason.recoverable() <==> (reason is NetworkInterruption || reason is ConnectionReset
            || reason is ServerTemporaryError || reason is UnexpectedClose
            || reason is StreamEnded),
{
}

/// A failure is answered by opening the connection again exactly where it is one
/// that passes, nobody asked for the connection to be closed and it was not
/// opened for a renewal. Streams, callbacks, requests and the session of the
/// connection make no difference.
pub proof fn law_failure_that_passes_is_recovered(
    state: ConnectionStateView,
    is_renewal: bool,
    reason: WebsocketConnectionFailureReason,
)
    ensures
        state.recovers(is_renewal, reason) <==> !state.close_initiated && !is_renewal && (
        reason is NetworkInterruption || reason is ConnectionReset || reason is ServerTemporaryError
            || reason is UnexpectedClose || reason is StreamEnded),
{
}

/// Two connections of which neither is being closed recover from the same
/// failures, whatever else sets them apart.
pub proof fn law_recovery_is_the_same_for_all(
    left: ConnectionStateView,
    right: ConnectionStateView,
    is_renewal: bool,
    reason: WebsocketConnectionFailureReason,
)
    requires
        left.close_initiated == right.close_initiated,
    ensures
        left.recovers(is_renewal, reason) == right.recovers(is_renewal, reason),
{
}

/// After a failure that passes the connection is lost and has no session, and
/// all else about it and about the other connections is as it was. After any
/// other failure nothing changes.
pub proof fn law_failure_leaves(
    common: CommonView,
    place: int,
    is_renewal: bool,
    reason: WebsocketConnectionFailureReason,
)
    requires
        0 <= place < common.pool.len(),
    ensures
        ({
            let after = common.after_failure(place, is_renewal, reason);
            let lost = !common.pool[place].state.close_initiated && !is_renewal && (
            reason is NetworkInterruption || reason is ConnectionReset
                || reason is ServerTemporaryError || reason is UnexpectedClose
                || reason is StreamEnded);
            &&& lost ==> after.pool[place].state == (ConnectionStateView {
                reconnection_pending: true,
                is_session_logged_on: false,
                ..common.pool[place].state
            })
            &&& !lost ==> after.pool[place].state == common.pool[place].state
            &&& after.pool[place].id == common.pool[place].id
            &&& after.pool.len() == common.pool.len()
            &&& forall|i: int|
                0 <= i < common.pool.len() && i != place ==> #[trigger] after.pool[i]
                    == common.pool[i]
            &&& after == CommonView { pool: after.pool, ..common }
        }),
{
}

/// A failure that a reader met is answered by opening the connection again, or
/// by telling the subscribers which connection failed and of what: never by both
/// and never by neither.
pub proof fn law_failure_answer(
    common: CommonView,
    place: int,
    is_renewal: bool,
    reason: WebsocketConnectionFailureReason,
    failure: Failure,
)
    requires
        0 <= place < common.pool.len(),
        common.answers_failure(place, is_renewal, reason, failure),
    ensures
        failure.reason == reason,
        failure.reconnect <==> !common.pool[place].state.close_initiated && !is_renewal && (
        reason is NetworkInterruption || reason is ConnectionReset || reason is ServerTemporaryError
            || reason is UnexpectedClose || reason is StreamEnded),
        failure.reconnect <==> failure.event is None,
        failure.event is Some ==> failure.event->0@ == WebsocketEventView::Error(
            "[CRITICAL] Connection "@ + common.pool[place].id + " permanently failed: "@
                + reason.spelled(),
        ),
{
    assert(failure.event.deep_view() == match failure.event {
        Some(event) => Some(event@),
        None => None,
    });
}

/// The report of a failure names the connection and the reason.
pub proof fn law_permanent_failure_names(
    id: Seq<char>,
    reason: WebsocketConnectionFailureReason,
)
    ensures
        permanent_failure(id, reason) == WebsocketEventView::Error(
            "[CRITICAL] Connection "@ + id + " permanently failed: "@ + reason.spelled(),
        ),
{
}

/// No two reasons have the same name.
pub proof fn law_reasons_have_names(
    left: WebsocketConnectionFailureReason,
    right: WebsocketConnectionFailureReason,
)
    ensures
        left.spelled() == right.spelled() ==> left == right,
        left is NetworkInterruption ==> left.spelled() == "NetworkInterruption"@,
        left is ConnectionReset ==> left.spelled() == "ConnectionReset"@,
        left is ServerTemporaryError ==> left.spelled() == "ServerTemporaryError"@,
        left is UnexpectedClose ==> left.spelled() == "UnexpectedClose"@,
        left is StreamEnded ==> left.spelled() == "StreamEnded"@,
        left is AuthenticationFailure ==> left.spelled() == "AuthenticationFailure"@,
        left is ProtocolViolation ==> left.spelled() == "ProtocolViolation"@,
        left is ConfigurationError ==> left.spelled() == "ConfigurationError"@,
        left is UserInitiatedClose ==> left.spelled() == "UserInitiatedClose"@,
        left is PermanentServerError ==> left.spelled() == "PermanentServerError"@,
        left is NormalClose ==> left.spelled() == "NormalClose"@,
{
    reveal_strlit("NetworkInterruption");
    reveal_strlit("ConnectionReset");
    reveal_strlit("ServerTemporaryError");
    reveal_strlit("UnexpectedClose");
    reveal_strlit("StreamEnded");
    reveal_strlit("AuthenticationFailure");
    reveal_strlit("ProtocolViolation");
    reveal_strlit("ConfigurationError");
    reveal_strlit("UserInitiatedClose");
    reveal_strlit("PermanentServerError");
    reveal_strlit("NormalClose");
    assert("NetworkInterruption"@[0] == 'N' && "NormalClose"@[0] == 'N');
    assert("ConnectionReset"@[3] == 'n' && "ConfigurationError"@[3] == 'f');
    assert("UnexpectedClose"@[1] == 'n' && "UserInitiatedClose"@[1] == 's');
    assert("ProtocolViolation"@[1] == 'r' && "PermanentServerError"@[1] == 'e');
    assert("ServerTemporaryError"@[1] == 'e' && "StreamEnded"@[1] == 't');
    assert("AuthenticationFailure"@[0] == 'A');
    assert("ServerTemporaryError"@[0] == 'S' && "StreamEnded"@[0] == 'S');
    assert("UnexpectedClose"@[0] == 'U' && "UserInitiatedClose"@[0] == 'U');
    assert("ProtocolViolation"@[0] == 'P' && "PermanentServerError"@[0] == 'P');
    assert("ConnectionReset"@[0] == 'C' && "ConfigurationError"@[0] == 'C');
    assert("NetworkInterruption"@[1] == 'e' && "NormalClose"@[1] == 'o');
}

/// Each close code stands for the reason that the protocol gives it, unless the
/// user asked for the close.
pub proof fn law_close_codes(code: u16, user_initiated: bool)
    ensures
        ({
            let reason = WebsocketConnectionFailureReason::of_close_code(code, user_initiated);
            &&& reason is UserInitiatedClose <==> user_initiated
            &&& reason is NormalClose <==> !user_initiated && code == 1000
            &&& reason is ServerTemporaryError <==> !user_initiated && (code == 1001 || code
                == 1011)
            &&& reason is ProtocolViolation <==> !user_initiated && code == 1002
            &&& reason is PermanentServerError <==> !user_initiated && (code == 1008 || (code
                >= 4000 && code < 5000))
            &&& reason is ConfigurationError <==> !user_initiated && code == 1015
            &&& reason is UnexpectedClose <==> !user_initiated && code != 1000 && code != 1001
                && code != 1002 && code != 1008 && code != 1011 && code != 1015 && !(code >= 4000
                && code < 5000)
        }),
{
}

/// An error of the transport stands for a reason; of errors of input and output
/// the kind decides.
pub proof fn law_transport_reasons(failure: TransportFailure, io: IoFailure)
    ensures
        ({
            let reason = WebsocketConnectionFailureReason::of_transport_failure(failure, io);
            &&& failure is ConnectionClosed || failure is AlreadyClosed
                ==> reason is ConnectionReset
            &&& failure is Protocol || failure is Utf8 ==> reason is ProtocolViolation
            &&& failure is Tls ==> reason is ConfigurationError
            &&& failure is ResetWithoutClosingHandshake || failure is Capacity
                || failure is WriteBufferFull || failure is AttackAttempt || failure is Url
                || failure is Http || failure is HttpFormat ==> reason is UnexpectedClose
            &&& failure is Io && (io is ConnectionReset || io is ConnectionAborted)
                ==> reason is ConnectionReset
            &&& failure is Io && (io is TimedOut || io is Other) ==> reason is NetworkInterruption
            &&& failure is Io && io is UnexpectedEof ==> reason is StreamEnded
            &&& failure is Io && io is PermissionDenied ==> reason is AuthenticationFailure
            &&& WebsocketConnectionFailureReason::of_io_failure(io)
                == WebsocketConnectionFailureReason::of_transport_failure(TransportFailure::Io, io)
        }),
{
}

/// The connections among which one is handed out are, in the order of the pool,
/// exactly those that can be used and are on the path that was asked for. A
/// single connection that is not asked for by its path stands alone.
pub proof fn law_candidates(
    common: CommonView,
    allow_non_established: bool,
    url_path: Option<Seq<char>>,
)
    ensures
        ({
            let candidates = common.candidates(allow_non_established, url_path);
            if common.mode is Single && url_path is None {
                candidates == seq![0int]
            } else {
                &&& forall|a: int, b: int|
                    0 <= a < b < candidates.len() ==> #[trigger] candidates[a]
                        < #[trigger] candidates[b]
                &&& forall|i: int| #[trigger]
                    candidates.contains(i) <==> 0 <= i < common.pool.len()
                        && !common.pool[i].state.reconnection_pending
                        && !common.pool[i].state.close_initiated && (
                    common.pool[i].state.ws_write_tx is Some || allow_non_established) && (
                    url_path is Some ==> common.pool[i].state.url_path == url_path)
            }
        }),
{
    let pick = |c: ConnectionView|
        c.state.ready(allow_non_established) && crate::common::on_path(c, url_path);
    lemma_places(common.pool, pick);
    let candidates = common.candidates(allow_non_established, url_path);
    if !(common.mode is Single && url_path is None) {
        assert forall|i: int| #[trigger] candidates.contains(i) <==> 0 <= i < common.pool.len()
            && !common.pool[i].state.reconnection_pending && !common.pool[i].state.close_initiated
            && (common.pool[i].state.ws_write_tx is Some || allow_non_established) && (
        url_path is Some ==> common.pool[i].state.url_path == url_path) by {
            if candidates.contains(i) {
                let k = choose|k: int| 0 <= k < candidates.len() && candidates[k] == i;
                assert(pick(common.pool[candidates[k]]));
            }
            if 0 <= i < common.pool.len() {
                assert(pick(common.pool[i]) == (common.pool[i].state.ready(allow_non_established)
                    && crate::common::on_path(common.pool[i], url_path)));
            }
        }
    }
}

/// The connections that are available are, in the order of the pool, exactly
/// those that can be used, whatever their path. A single connection that is not
/// asked for by its path stands alone.
pub proof fn law_available(common: CommonView, allow_non_established: bool, by_path: bool)
    ensures
        ({
            let available = common.available(allow_non_established, by_path);
            if common.mode is Single && !by_path {
                available == seq![0int]
            } else {
                &&& forall|a: int, b: int|
                    0 <= a < b < available.len() ==> #[trigger] available[a]
                        < #[trigger] available[b]
                &&& forall|i: int| #[trigger]
                    available.contains(i) <==> 0 <= i < common.pool.len()
                        && !common.pool[i].state.reconnection_pending
                        && !common.pool[i].state.close_initiated && (
                    common.pool[i].state.ws_write_tx is Some || allow_non_established)
            }
        }),
{
    let pick = |c: ConnectionView| c.state.ready(allow_non_established);
    lemma_places(common.pool, pick);
    let available = common.available(allow_non_established, by_path);
    if !(common.mode is Single && !by_path) {
        assert forall|i: int| #[trigger] available.contains(i) <==> 0 <= i < common.pool.len()
            && !common.pool[i].state.reconnection_pending && !common.pool[i].state.close_initiated
            && (common.pool[i].state.ws_write_tx is Some || allow_non_established) by {
            if available.contains(i) {
                let k = choose|k: int| 0 <= k < available.len() && available[k] == i;
                assert(pick(common.pool[available[k]]));
            }
            if 0 <= i < common.pool.len() {
                assert(pick(common.pool[i]) == common.pool[i].state.ready(allow_non_established));
            }
        }
    }
}

/// The candidate that is handed out is the one that the count of turns points
/// at, and a turn counts one up and changes nothing else.
pub proof fn law_turn(
    common: CommonView,
    allow_non_established: bool,
    url_path: Option<Seq<char>>,
)
    requires
        common.candidates(allow_non_established, url_path).len() > 0,
    ensures
        ({
            let candidates = common.candidates(allow_non_established, url_path);
            &&& common.next_candidate(allow_non_established, url_path)
                == candidates[common.round_robin_index as int % candidates.len() as int]
            &&& candidates.contains(common.next_candidate(allow_non_established, url_path))
            &&& common.round_robin_index < usize::MAX ==> common.turned().round_robin_index
                == common.round_robin_index + 1
            &&& common.round_robin_index == usize::MAX ==> common.turned().round_robin_index == 0
            &&& common.turned() == CommonView {
                round_robin_index: common.turned().round_robin_index,
                ..common
            }
        }),
{
    let candidates = common.candidates(allow_non_established, url_path);
    let turn = common.round_robin_index as int % candidates.len() as int;
    assert(0 <= turn < candidates.len());
    assert(candidates[turn] == common.next_candidate(allow_non_established, url_path));
}

/// An attempt to open a given connection opens that connection, unless it is to
/// be renewed and is being renewed already, or is not to be renewed, is open and
/// is not lost. It takes no turn and touches no other connection.
pub proof fn law_given_connection_is_opened(common: CommonView, is_renewal: bool, place: usize)
    requires
        common.holds(place),
    ensures
        ({
            let state = common.pool[place as int].state;
            let skipped = if is_renewal {
                state.renewal_pending
            } else {
                state.ws_write_tx is Some && !state.reconnection_pending
            };
            let after = common.after_init(is_renewal, Some(place));
            &&& common.opening_place(Some(place)) == Some(place as int)
            &&& common.opens(is_renewal, Some(place)) <==> !skipped
            &&& skipped ==> after == common
            &&& !skipped ==> after.pool[place as int].state == (ConnectionStateView {
                renewal_pending: state.renewal_pending || is_renewal,
                is_session_logged_on: false,
                ..state
            })
            &&& after.pool[place as int].id == common.pool[place as int].id
            &&& after.pool.len() == common.pool.len()
            &&& forall|i: int|
                0 <= i < common.pool.len() && i != place ==> #[trigger] after.pool[i]
                    == common.pool[i]
            &&& after == CommonView { pool: after.pool, ..common }
        }),
{
}

/// An attempt to open some connection is for the candidate whose turn it is, and
/// then does what an attempt for that connection does, but for the turn that is
/// taken. Without a candidate nothing happens.
pub proof fn law_some_connection_is_opened(common: CommonView, is_renewal: bool)
    requires
        common.pool.len() <= usize::MAX,
        common.pool.len() > 0,
    ensures
        common.candidates(true, None).len() == 0 ==> common.opening_place(None) is None
            && !common.opens(is_renewal, None) && common.after_init(is_renewal, None) == common,
        common.candidates(true, None).len() > 0 ==> ({
            let place = common.next_candidate(true, None);
            &&& 0 <= place < common.pool.len()
            &&& common.opening_place(None) == Some(place)
            &&& common.opens(is_renewal, None) == common.opens(is_renewal, Some(place as usize))
            &&& common.after_init(is_renewal, None) == common.turned().after_init(
                is_renewal,
                Some(place as usize),
            )
        }),
{
    if common.candidates(true, None).len() > 0 {
        law_turn(common, true, None);
        law_candidates(common, true, None);
        assert(common.candidates(true, None).contains(common.next_candidate(true, None)));
    }
}

/// What happens to a connection changes what it says and nothing else: an
/// attempt to open it, its opening, its loss, a new handler, a request that is
/// sent or answered, its closing, a renewal, a session that begins or ends, a
/// path, streams that are let go of.
pub proof fn law_changes_of_a_connection(
    state: ConnectionStateView,
    is_renewal: bool,
    writer: WriterId,
    handler: HandlerId,
    id: Seq<char>,
    completion: CompletionId,
    request: LogonRequestView,
    path: Seq<char>,
)
    ensures
        state.opening(is_renewal) == (ConnectionStateView {
            renewal_pending: state.renewal_pending || is_renewal,
            is_session_logged_on: false,
            ..state
        }),
        state.opened(writer) == (ConnectionStateView {
            reconnection_pending: false,
            ws_write_tx: Some(writer),
            ..state
        }),
        state.lost() == (ConnectionStateView {
            reconnection_pending: true,
            is_session_logged_on: false,
            ..state
        }),
        state.handled_by(handler) == (ConnectionStateView { handler: Some(handler), ..state }),
        state.awaiting(id, completion).pending_requests.contains_key(id),
        state.awaiting(id, completion).pending_requests[id] == completion,
        state.awaiting(id, completion).pending_requests.remove(id)
            == state.pending_requests.remove(id),
        state.awaiting(id, completion) == (ConnectionStateView {
            pending_requests: state.awaiting(id, completion).pending_requests,
            ..state
        }),
        !state.not_awaiting(id).pending_requests.contains_key(id),
        forall|other: Seq<char>|
            other != id ==> (#[trigger] state.not_awaiting(id).pending_requests.contains_key(other)
                == state.pending_requests.contains_key(other)) && (
            state.pending_requests.contains_key(other) ==> state.not_awaiting(
                id,
            ).pending_requests[other] == state.pending_requests[other]),
        state.not_awaiting(id) == (ConnectionStateView {
            pending_requests: state.not_awaiting(id).pending_requests,
            ..state
        }),
        state.closing() == (ConnectionStateView { close_initiated: true, ..state }),
        state.renewing() == (ConnectionStateView { renewal_pending: true, ..state }),
        state.with_session(request) == (ConnectionStateView {
            is_session_logged_on: true,
            session_logon_req: Some(request),
            ..state
        }),
        state.without_session() == (ConnectionStateView {
            is_session_logged_on: false,
            session_logon_req: None,
            ..state
        }),
        state.on(path) == (ConnectionStateView { url_path: Some(path), ..state }),
        state.without_streams() == (ConnectionStateView {
            stream_callbacks: Map::empty(),
            pending_subscriptions: Seq::empty(),
            ..state
        }),
        state.drained() <==> forall|other: Seq<char>| !state.pending_requests.contains_key(other),
{
    assert(state.pending_requests.insert(id, completion).remove(id)
        =~= state.pending_requests.remove(id));
    if forall|other: Seq<char>| !state.pending_requests.contains_key(other) {
        assert(state.pending_requests =~= Map::<Seq<char>, CompletionId>::empty());
    }
}

/// The connections that are closed are exactly those that have a writer, each
/// once, in the order of the pool and with that writer, whatever requests,
/// streams or session they have.
pub proof fn law_every_writer_is_closed(common: CommonView)
    requires
        common.pool.len() <= usize::MAX,
    ensures
        ({
            let writers = common.writers();
            &&& forall|k: int|
                #![trigger writers[k]]
                0 <= k < writers.len() ==> {
                    &&& 0 <= writers[k].0 < common.pool.len()
                    &&& common.pool[writers[k].0 as int].state.ws_write_tx == Some(writers[k].1)
                }
            &&& forall|k: int, l: int|
                0 <= k < l < writers.len() ==> (#[trigger] writers[k]).0 < (#[trigger] writers[l]).0
            &&& forall|i: int|
                #![trigger common.pool[i]]
                0 <= i < common.pool.len() ==> (common.pool[i].state.ws_write_tx is Some
                    <==> exists|k: int|
                    0 <= k < writers.len() && (#[trigger] writers[k]).0 == i)
        }),
{
    let pick = |c: ConnectionView| c.state.ws_write_tx is Some;
    lemma_places(common.pool, pick);
    let chosen = places(common.pool, pick);
    let writers = common.writers();
    assert(writers.len() == chosen.len());
    assert forall|k: int| #![trigger writers[k]] 0 <= k < writers.len() implies {
        &&& 0 <= writers[k].0 < common.pool.len()
        &&& common.pool[writers[k].0 as int].state.ws_write_tx == Some(writers[k].1)
        &&& writers[k].0 == chosen[k]
    } by {
        assert(pick(common.pool[chosen[k]]));
    }
    assert forall|k: int, l: int| 0 <= k < l < writers.len() implies (#[trigger] writers[k]).0 < (
    #[trigger] writers[l]).0 by {
        assert(chosen[k] < chosen[l]);
    }
    assert forall|i: int| #![trigger common.pool[i]] 0 <= i < common.pool.len() implies (
    common.pool[i].state.ws_write_tx is Some <==> exists|k: int|
        0 <= k < writers.len() && (#[trigger] writers[k]).0 == i) by {
        if common.pool[i].state.ws_write_tx is Some {
            assert(pick(common.pool[i]));
            assert(chosen.contains(i));
            let k = choose|k: int| 0 <= k < chosen.len() && chosen[k] == i;
            assert(writers[k].0 == i);
        }
    }
}

/// A ping goes out, in the order of the pool, on exactly the connections that
/// are open and neither lost nor being closed: there is a list of their places
/// that says which.
pub proof fn law_every_usable_is_pinged(common: CommonView)
    ensures
        exists|chosen: Seq<int>|
            {
                &&& #[trigger] chosen.len() == common.pinged().len()
                &&& forall|a: int, b: int|
                    0 <= a < b < chosen.len() ==> #[trigger] chosen[a] < #[trigger] chosen[b]
                &&& forall|i: int| #[trigger]
                    chosen.contains(i) <==> 0 <= i < common.pool.len()
                        && common.pool[i].state.ws_write_tx is Some
                        && !common.pool[i].state.reconnection_pending
                        && !common.pool[i].state.close_initiated
                &&& forall|k: int|
                    0 <= k < chosen.len() ==> #[trigger] common.pinged()[k] == (
                        common.pool[chosen[k]].id,
                        common.pool[chosen[k]].state.ws_write_tx->0,
                    )
            },
{
    let pick = |c: ConnectionView| c.state.ready(false);
    lemma_places(common.pool, pick);
    let chosen = places(common.pool, pick);
    assert(chosen.len() == common.pinged().len());
    assert forall|i: int| #[trigger] chosen.contains(i) <==> 0 <= i < common.pool.len()
        && common.pool[i].state.ws_write_tx is Some && !common.pool[i].state.reconnection_pending
        && !common.pool[i].state.close_initiated by {
        if chosen.contains(i) {
            let k = choose|k: int| 0 <= k < chosen.len() && chosen[k] == i;
            assert(pick(common.pool[chosen[k]]));
        }
        if 0 <= i < common.pool.len() {
            assert(pick(common.pool[i]) == common.pool[i].state.ready(false));
        }
    }
}

/// A change of every connection changes the state of each of them, and leaves
/// their identifiers and the rest of the pool. A change of some changes those.
pub proof fn law_changes_of_the_pool(
    common: CommonView,
    change: spec_fn(ConnectionStateView) -> ConnectionStateView,
    chosen: Seq<int>,
    place: int,
    state: ConnectionStateView,
    i: int,
)
    requires
        0 <= i < common.pool.len(),
        0 <= place < common.pool.len(),
    ensures
        common.with_states(change).pool.len() == common.pool.len(),
        common.with_states(change).pool[i] == (ConnectionView {
            state: change(common.pool[i].state),
            ..common.pool[i]
        }),
        common.with_states(change) == (CommonView {
            pool: common.with_states(change).pool,
            ..common
        }),
        common.with_states_at(chosen, change).pool.len() == common.pool.len(),
        chosen.contains(i) ==> common.with_states_at(chosen, change).pool[i] == (ConnectionView {
            state: change(common.pool[i].state),
            ..common.pool[i]
        }),
        !chosen.contains(i) ==> common.with_states_at(chosen, change).pool[i] == common.pool[i],
        common.with_states_at(chosen, change) == (CommonView {
            pool: common.with_states_at(chosen, change).pool,
            ..common
        }),
        common.with_state(place, state).pool.len() == common.pool.len(),
        i == place ==> common.with_state(place, state).pool[i] == (ConnectionView {
            state,
            ..common.pool[i]
        }),
        i != place ==> common.with_state(place, state).pool[i] == common.pool[i],
        common.with_state(place, state) == (CommonView {
            pool: common.with_state(place, state).pool,
            ..common
        }),
        common.closing().pool.len() == common.pool.len(),
        common.closing().pool[i] == (ConnectionView {
            state: ConnectionStateView { close_initiated: true, ..common.pool[i].state },
            ..common.pool[i]
        }),
        common.closing() == (CommonView { pool: common.closing().pool, ..common }),
        common.without_sessions().pool.len() == common.pool.len(),
        common.without_sessions().pool[i] == (ConnectionView {
            state: ConnectionStateView {
                is_session_logged_on: false,
                session_logon_req: None,
                ..common.pool[i].state
            },
            ..common.pool[i]
        }),
        common.without_sessions() == (CommonView {
            pool: common.without_sessions().pool,
            ..common
        }),
{
}

/// A text goes out on the connection that was given or else on the one whose
/// turn it is, and does so exactly where that connection is open and neither
/// lost nor being closed and a request that is waited for is named.
pub proof fn law_sending(
    common: CommonView,
    connection: Option<usize>,
    id: Option<Seq<char>>,
    wait_for_reply: bool,
)
    ensures
        ({
            let place = common.sender(connection);
            &&& connection is Some ==> place == Some(connection->0 as int)
            &&& connection is None && common.candidates(false, None).len() > 0 ==> place == Some(
                common.next_candidate(false, None),
            ) && common.after_choice(connection) == common.turned()
            &&& connection is None && common.candidates(false, None).len() == 0 ==> place is None
            &&& connection is Some || common.candidates(false, None).len() == 0
                ==> common.after_choice(connection) == common
            &&& common.sends(place, id, wait_for_reply) <==> place is Some && common.pool[place->0].state.ws_write_tx is Some
                && !common.pool[place->0].state.reconnection_pending
                && !common.pool[place->0].state.close_initiated && (!wait_for_reply || id is Some)
        }),
{
}

/// A new pool has one connection for each identifier, in order, and nothing is
/// remembered about any of them.
pub proof fn law_fresh_pool(ids: Seq<Seq<char>>, i: int)
    requires
        0 <= i < ids.len(),
    ensures
        fresh_pool(ids).len() == ids.len(),
        fresh_pool(ids)[i].id == ids[i],
        fresh_pool(ids)[i].state == ConnectionStateView::fresh(),
        !ConnectionStateView::fresh().reconnection_pending,
        !ConnectionStateView::fresh().renewal_pending,
        !ConnectionStateView::fresh().close_initiated,
        !ConnectionStateView::fresh().is_session_logged_on,
        ConnectionStateView::fresh().pending_requests == Map::<Seq<char>, CompletionId>::empty(),
        ConnectionStateView::fresh().pending_subscriptions.len() == 0,
        ConnectionStateView::fresh().stream_callbacks == Map::<
            Seq<char>,
            Seq<CallbackId>,
        >::empty(),
        ConnectionStateView::fresh().session_logon_req is None,
        ConnectionStateView::fresh().url_path is None,
        ConnectionStateView::fresh().handler is None,
        ConnectionStateView::fresh().ws_write_tx is None,
{
}

/// The place of an identifier is the first place that has it.
pub proof fn law_place_of(pool: Seq<ConnectionView>, id: Seq<char>, place: int)
    ensures
        is_place_of(pool, id, place) <==> 0 <= place < pool.len() && pool[place].id == id && (forall|
            j: int,
        |
            0 <= j < place ==> (#[trigger] pool[j]).id != id),
{
}

/// A compressed message is seen to like its text, and one without a text not at
/// all.
pub proof fn law_binary_step(text: Option<Seq<char>>, step: FrameStep)
    requires
        is_binary_step(text, step),
    ensures
        text is Some ==> step is Message && step->Message_0@ == text->0,
        text is None ==> step is Nothing,
{
}

/// A text message is first delivered to each subscriber to text messages, in
/// their order, with the connection that it came through; the handler, where
/// there is one, is handed it next; the subscribers are told of it last.
pub proof fn law_what_is_done_about_a_message(
    common: CommonView,
    place: int,
    text: Seq<char>,
    since_epoch_ms: Option<u128>,
)
    ensures
        ({
            let actions = common.message_actions(place, text, since_epoch_ms);
            let handler = common.pool[place].state.handler;
            let time = match since_epoch_ms {
                Some(ms) if ms <= i64::MAX => ms as i64,
                Some(_) => i64::MAX,
                None => 0,
            };
            let event = MessageEventView {
                payload: text,
                connection_id: common.pool[place].id,
                url_path: common.pool[place].state.url_path,
                received_at_ms: time,
            };
            &&& actions.len() == if handler is Some {
                3nat
            } else {
                2nat
            }
            &&& actions[0] is Deliver
            &&& actions[0]->Deliver_0.len() == common.message_events.len()
            &&& forall|k: int|
                0 <= k < common.message_events.len() ==> #[trigger] actions[0]->Deliver_0[k] == (
                    common.message_events[k],
                    event,
                )
            &&& handler is Some ==> actions[1] == (MessageActionView::Handle {
                handler: handler->0,
                text,
            })
            &&& actions.last() == MessageActionView::Tell(WebsocketEventView::Message(text))
            &&& clamped_time(since_epoch_ms) == time
        }),
{
}

/// Who is told of the next event is decided subscriber by subscriber: those that
/// were reached stay, in their order.
pub proof fn law_reached_one_by_one(
    left: Seq<SubscriberId>,
    left_delivered: Seq<bool>,
    right: Seq<SubscriberId>,
    right_delivered: Seq<bool>,
    subscriber: SubscriberId,
)
    requires
        left.len() == left_delivered.len(),
        right.len() == right_delivered.len(),
    ensures
        reached(left + right, left_delivered + right_delivered) == reached(left, left_delivered)
            + reached(right, right_delivered),
        reached(seq![subscriber], seq![true]) == seq![subscriber],
        reached(seq![subscriber], seq![false]).len() == 0,
    decreases right.len(),
{
    reveal_with_fuel(reached, 2);
    assert(seq![subscriber].drop_last() =~= Seq::<SubscriberId>::empty());
    assert(seq![true].drop_last() =~= Seq::<bool>::empty());
    assert(reached(seq![subscriber], seq![true]) =~= seq![subscriber]);
    if right.len() == 0 {
        assert(left + right =~= left);
        assert(left_delivered + right_delivered =~= left_delivered);
    } else {
        law_reached_one_by_one(
            left,
            left_delivered,
            right.drop_last(),
            right_delivered.drop_last(),
            subscriber,
        );
        assert((left + right).drop_last() =~= left + right.drop_last());
        assert((left_delivered + right_delivered).drop_last() =~= left_delivered
            + right_delivered.drop_last());
        assert(reached(left + right, left_delivered + right_delivered) =~= reached(
            left,
            left_delivered,
        ) + reached(right, right_delivered));
    }
}

/// The number of connections of a mode.
pub proof fn law_mode_size(mode: WebsocketMode)
    ensures
        mode is Single ==> mode.size() == 1,
        mode is Pool ==> mode.size() == mode->Pool_0,
{
}

/// A member of an object is what stands under its name; no other document has
/// members. A text is that of a string, and a number one of those that fit.
pub proof fn law_documents(document: JsonView, key: Seq<char>)
    ensures
        document is Object && document->Object_0.contains_key(key) ==> document.member(key) == Some(
            document->Object_0[key],
        ),
        document is Object && !document->Object_0.contains_key(key) ==> document.member(key) is None,
        !(document is Object) ==> document.member(key) is None,
        document is Text ==> document.text() == Some(document->Text_0),
        !(document is Text) ==> document.text() is None,
        document is Integer && 0 <= document->Integer_0 <= u64::MAX ==> document.unsigned() is Some
            && document.unsigned()->0 == document->Integer_0,
        document is Integer && i64::MIN <= document->Integer_0 <= i64::MAX
            ==> document.signed() is Some && document.signed()->0 == document->Integer_0,
        !(document is Integer) ==> document.unsigned() is None && document.signed() is None,
        document is Integer && !(0 <= document->Integer_0 <= u64::MAX)
            ==> document.unsigned() is None,
        document is Integer && !(i64::MIN <= document->Integer_0 <= i64::MAX)
            ==> document.signed() is None,
{
}

} // verus!
