//! What holds of the pool, of requests and of streams whatever happens.

use crate::api::{
    answered_request, event_type, outcome_view, readable_entries, reply_outcome, shutdown_event,
    status_of, ApiStep, ApiView, WebsocketApi,
};
use crate::common::{lemma_places, on_path, places, CommonView};
use crate::connection::{
    CompletionId, ConnectionStateView, ConnectionView, HandlerId, LogonRequestView, WriterId,
};
use crate::emitter::SubscriberId;
use crate::exchange::MessageActionView;
use crate::failure::WebsocketConnectionFailureReason;
use crate::json::JsonView;
use crate::lifecycle::is_place_of;
use crate::models::{MessageEventView, WebsocketEventView, WebsocketMode};
use vstd::arithmetic::div_mod::{
    lemma_fundamental_div_mod, lemma_fundamental_div_mod_converse,
};
use vstd::prelude::*;

verus! {

/// A connection that can be used can also be used where it need not be open.
pub proof fn law_open_is_usable(state: ConnectionStateView)
    requires
        state.ready(false),
    ensures
        state.ready(true),
{
}

/// A connection that is handed out is neither lost nor being closed, is open
/// where it has to be, and is on the path that was asked for. A single
/// connection that is not asked for by its path is the one exception.
pub proof fn law_handed_out_is_ready(
    common: CommonView,
    allow_non_established: bool,
    url_path: Option<Seq<char>>,
)
    requires
        common.candidates(allow_non_established, url_path).len() > 0,
        !(common.mode == WebsocketMode::Single && url_path is None),
    ensures
        ({
            let place = common.next_candidate(allow_non_established, url_path);
            &&& 0 <= place < common.pool.len()
            &&& common.state(place).ready(allow_non_established)
            &&& on_path(common.pool[place], url_path)
        }),
{
    let pick = |c: ConnectionView| c.state.ready(allow_non_established) && on_path(c, url_path);
    let candidates = common.candidates(allow_non_established, url_path);
    lemma_places(common.pool, pick);
    let turn = common.round_robin_index as int % candidates.len() as int;
    assert(0 <= turn < candidates.len());
    assert(pick(common.pool[candidates[turn]]));
}

/// A single connection that is not asked for by its path is always handed out.
pub proof fn law_single_is_handed_out(common: CommonView, allow_non_established: bool)
    requires
        common.mode == WebsocketMode::Single,
    ensures
        common.candidates(allow_non_established, None).len() == 1,
        common.next_candidate(allow_non_established, None) == 0,
{
    assert(common.round_robin_index as int % 1 == 0);
}

/// A connection is handed out exactly when some connection will do.
pub proof fn law_handed_out_when_possible(
    common: CommonView,
    allow_non_established: bool,
    url_path: Option<Seq<char>>,
)
    requires
        !(common.mode == WebsocketMode::Single && url_path is None),
    ensures
        common.candidates(allow_non_established, url_path).len() > 0 <==> exists|i: int|
            0 <= i < common.pool.len() && (#[trigger] common.pool[i]).state.ready(
                allow_non_established,
            ) && on_path(common.pool[i], url_path),
{
    let pick = |c: ConnectionView| c.state.ready(allow_non_established) && on_path(c, url_path);
    lemma_places(common.pool, pick);
    let candidates = common.candidates(allow_non_established, url_path);
    if candidates.len() > 0 {
        assert(pick(common.pool[candidates[0]]));
    }
    if exists|i: int|
        0 <= i < common.pool.len() && (#[trigger] common.pool[i]).state.ready(
            allow_non_established,
        ) && on_path(common.pool[i], url_path) {
        let i = choose|i: int|
            0 <= i < common.pool.len() && (#[trigger] common.pool[i]).state.ready(
                allow_non_established,
            ) && on_path(common.pool[i], url_path);
        assert(pick(common.pool[i]));
        assert(candidates.contains(i));
    }
}

/// The connections of a pool are fixed: whatever is noted about them, and
/// whichever of them is handed out, each keeps its place and its identifier.
pub proof fn law_connections_stay(
    common: CommonView,
    place: int,
    state: ConnectionStateView,
    chosen: Seq<int>,
    change: spec_fn(ConnectionStateView) -> ConnectionStateView,
    i: int,
)
    requires
        0 <= place < common.pool.len(),
        0 <= i < common.pool.len(),
    ensures
        common.with_state(place, state).pool.len() == common.pool.len(),
        common.with_state(place, state).pool[i].id == common.pool[i].id,
        common.with_states(change).pool.len() == common.pool.len(),
        common.with_states(change).pool[i].id == common.pool[i].id,
        common.with_states_at(chosen, change).pool.len() == common.pool.len(),
        common.with_states_at(chosen, change).pool[i].id == common.pool[i].id,
        common.turned().pool == common.pool,
{
}

/// The pool after so many connections were handed out.
pub open spec fn after_turns(common: CommonView, turns: nat) -> CommonView
    decreases turns,
{
    if turns == 0 {
        common
    } else {
        after_turns(common, (turns - 1) as nat).turned()
    }
}

proof fn lemma_after_turns(common: CommonView, turns: nat)
    requires
        common.round_robin_index + turns <= usize::MAX,
    ensures
        after_turns(common, turns) == (CommonView {
            round_robin_index: (common.round_robin_index + turns) as usize,
            ..common
        }),
    decreases turns,
{
    if turns > 0 {
        lemma_after_turns(common, (turns - 1) as nat);
    }
}

/// Handing out connections in turn is fair: as long as the connections stay as
/// they are, as many turns in a row as there are candidates hand out each
/// candidate once. (The count of turns wraps around at the largest `usize`.)
pub proof fn law_round_robin(
    common: CommonView,
    allow_non_established: bool,
    url_path: Option<Seq<char>>,
    first: nat,
    second: nat,
)
    requires
        first < second < common.candidates(allow_non_established, url_path).len(),
        common.round_robin_index + second <= usize::MAX,
    ensures
        after_turns(common, first).next_candidate(allow_non_established, url_path) != after_turns(
            common,
            second,
        ).next_candidate(allow_non_established, url_path),
{
    lemma_after_turns(common, first);
    lemma_after_turns(common, second);
    let candidates = common.candidates(allow_non_established, url_path);
    let pick = |c: ConnectionView| c.state.ready(allow_non_established) && on_path(c, url_path);
    lemma_places(common.pool, pick);
    let n = candidates.len() as int;
    let index = common.round_robin_index as int;
    let a = (index + first) % n;
    let b = (index + second) % n;
    assert(after_turns(common, first).candidates(allow_non_established, url_path) == candidates);
    assert(after_turns(common, second).candidates(allow_non_established, url_path) == candidates);
    let gap = second - first;
    let quotient = (index + first) / n;
    lemma_fundamental_div_mod(index + first, n);
    assert(0 <= a < n);
    if a + gap < n {
        lemma_fundamental_div_mod_converse(index + second, n, quotient, a + gap);
    } else {
        assert(n * (quotient + 1) == n * quotient + n) by (nonlinear_arith);
        lemma_fundamental_div_mod_converse(index + second, n, quotient + 1, a + gap - n);
    }
    assert(0 <= a < n && 0 <= b < n);
    if a < b {
        assert(candidates[a] < candidates[b]);
    } else {
        assert(candidates[b] < candidates[a]);
    }
}

/// Once the pool is being closed, no connection is in use, and none is handed
/// out but a single one that is not asked for by its path.
pub proof fn law_disconnected(common: CommonView, url_path: Option<Seq<char>>)
    ensures
        !common.closing().connected(),
        !(common.mode == WebsocketMode::Single && url_path is None) ==> common.closing().candidates(
            true,
            url_path,
        ).len() == 0,
{
    let closing = common.closing();
    assert forall|i: int| 0 <= i < closing.pool.len() implies !(#[trigger] closing.pool[i]).state.ready(
        true,
    ) by {
        assert(closing.pool[i].state.close_initiated);
    }
    if !(common.mode == WebsocketMode::Single && url_path is None) {
        law_handed_out_when_possible(closing, true, url_path);
    }
}

/// A connection that is being closed is not opened again, whatever it fails of.
pub proof fn law_closing_is_final(
    state: ConnectionStateView,
    is_renewal: bool,
    reason: WebsocketConnectionFailureReason,
)
    ensures
        !state.closing().recovers(is_renewal, reason),
{
}

/// A connection that was opened to renew another is not opened again when it
/// fails.
pub proof fn law_renewal_failure_is_final(
    state: ConnectionStateView,
    reason: WebsocketConnectionFailureReason,
)
    ensures
        !state.recovers(true, reason),
{
}

/// A lost connection cannot be used until it is open again. An attempt to open
/// it is not skipped, and once it is open it can be used, unless it is being
/// closed.
pub proof fn law_lost_until_opened(state: ConnectionStateView, writer: WriterId)
    ensures
        !state.lost().ready(true),
        !state.lost().skips_opening(false),
        state.lost().opening(false).opened(writer).ready(false) <==> !state.close_initiated,
{
}

/// A lost connection is opened by an attempt for it, whatever the state of the
/// other connections, and without taking a turn from them: once the handshake
/// gives a writer it can be used, unless it is being closed.
pub proof fn law_lost_is_opened(common: CommonView, place: usize, writer: WriterId)
    requires
        common.holds(place),
        common.state(place as int).reconnection_pending,
    ensures
        ({
            let begun = common.after_init(false, Some(place));
            &&& common.opening_place(Some(place)) == Some(place as int)
            &&& common.opens(false, Some(place))
            &&& begun == common.with_state(
                place as int,
                common.state(place as int).opening(false),
            )
            &&& begun.state(place as int).opened(writer).ready(false) <==> !common.state(
                place as int,
            ).close_initiated
        }),
{
}

/// A connection that fails of something that passes is opened again by the
/// attempt for it, even where all connections of the pool are lost.
pub proof fn law_failure_is_followed_by_opening(
    common: CommonView,
    place: usize,
    reason: WebsocketConnectionFailureReason,
)
    requires
        common.holds(place),
        common.state(place as int).recovers(false, reason),
    ensures
        common.after_failure(place as int, false, reason).opens(false, Some(place)),
{
}

/// An open connection is not opened a second time, unless it is lost or
/// renewed, and one that is being renewed is not renewed a second time.
pub proof fn law_opened_once(state: ConnectionStateView, is_renewal: bool, writer: WriterId)
    ensures
        state.opening(is_renewal).opened(writer).skips_opening(false),
        state.opening(true).skips_opening(true),
{
}

/// The entry by which a connection is opened again leads back to it, as long as
/// no two connections have the same identifier.
pub proof fn law_entry_finds_connection(common: CommonView, place: int, found: int)
    requires
        0 <= place < common.pool.len(),
        forall|i: int, j: int|
            0 <= i < j < common.pool.len() ==> (#[trigger] common.pool[i]).id != (
            #[trigger] common.pool[j]).id,
        is_place_of(common.pool, common.pool[place].id, found),
    ensures
        found == place,
{
}

/// A request that could not be written leaves nothing behind: where its
/// identifier was free, the connection is as it was.
pub proof fn law_failed_send_leaves_nothing(
    state: ConnectionStateView,
    id: Seq<char>,
    completion: CompletionId,
)
    requires
        !state.pending_requests.contains_key(id),
    ensures
        state.awaiting(id, completion).not_awaiting(id) == state,
{
    assert(state.pending_requests.insert(id, completion).remove(id) =~= state.pending_requests);
}

/// The reply to a request goes to where it is awaited: it completes the request
/// with what the reply says. The connection then is as it was before the
/// request, but for an older request of the same identifier.
pub proof fn law_reply_completes_request(
    before: ConnectionStateView,
    id: Seq<char>,
    completion: CompletionId,
    api: &WebsocketApi,
    place: int,
    document: JsonView,
    step: ApiStep,
    after: ApiView,
)
    requires
        0 <= place < api@.common.pool.len(),
        api@.common.state(place) == before.awaiting(id, completion),
        answered_request(document) == Some(id),
        api.handles(place, document, step, after),
    ensures
        step is Complete,
        step->completion == completion,
        outcome_view(step->outcome) == reply_outcome(document),
        after.common.state(place) == before.not_awaiting(id),
        !before.pending_requests.contains_key(id) ==> after.common.state(place) == before,
{
    assert(before.pending_requests.insert(id, completion).remove(id)
        =~= before.pending_requests.remove(id));
    if !before.pending_requests.contains_key(id) {
        assert(before.pending_requests.remove(id) =~= before.pending_requests);
    }
}

/// A message changes nothing about the connections that it did not arrive on,
/// and a reply nothing about the requests that it does not answer.
pub proof fn law_message_is_local(
    api: &WebsocketApi,
    place: int,
    document: JsonView,
    step: ApiStep,
    after: ApiView,
    other: int,
    id: Seq<char>,
)
    requires
        0 <= place < api@.common.pool.len(),
        0 <= other < api@.common.pool.len(),
        api.handles(place, document, step, after),
        other != place || answered_request(document) != Some(id),
    ensures
        other != place ==> after.common.pool[other] == api@.common.pool[other],
        after.common.state(other).pending_requests.contains_key(id) == api@.common.state(
            other,
        ).pending_requests.contains_key(id),
        after.common.state(other).pending_requests.contains_key(id)
            ==> after.common.state(other).pending_requests[id] == api@.common.state(
            other,
        ).pending_requests[id],
{
}

/// A request is completed once: when it is no longer awaited, a further reply
/// to it changes nothing.
pub proof fn law_second_reply_is_ignored(
    api: &WebsocketApi,
    place: int,
    id: Seq<char>,
    document: JsonView,
    step: ApiStep,
    after: ApiView,
)
    requires
        !api@.common.state(place).pending_requests.contains_key(id),
        answered_request(document) == Some(id),
        api.handles(place, document, step, after),
    ensures
        step is Nothing,
        after == api@,
{
}

/// A refused request is answered by its error; any other reply is handed on as
/// it came.
pub proof fn law_refusal_is_an_error(document: JsonView)
    ensures
        reply_outcome(document) is Err <==> status_of(document) >= 400,
        reply_outcome(document) is Err ==> reply_outcome(document)->Err_0 is ResponseError,
        reply_outcome(document) is Ok ==> reply_outcome(document)->Ok_0 == document,
{
}

/// A server that announces more than once that it shuts down has one renewal of
/// the connection asked for, and none where one is under way or the connection
/// is being closed.
pub proof fn law_shutdown_renews_once(
    api: &WebsocketApi,
    place: int,
    document: JsonView,
    step: ApiStep,
    after: ApiView,
)
    requires
        0 <= place < api@.common.pool.len(),
        answered_request(document) is None,
        event_type(document) == Some(JsonView::Text(shutdown_event())),
        api.handles(place, document, step, after),
    ensures
        step is Renew <==> !api@.common.state(place).renewal_pending && !api@.common.state(
            place,
        ).close_initiated,
        step is Renew ==> after.common.state(place).renewal_pending,
{
}

/// The connection that a shutdown asks to be renewed counts as being renewed: an
/// attempt to open it for the entry that is asked for opens nothing, and leaves
/// the pool as it is.
pub proof fn law_shutdown_entry_is_skipped(
    api: &WebsocketApi,
    place: usize,
    document: JsonView,
    step: ApiStep,
    after: ApiView,
)
    requires
        api@.common.holds(place),
        api.handles(place as int, document, step, after),
        step is Renew,
    ensures
        step->Renew_0@.is_renewal,
        step->Renew_0@.connection_id == after.common.pool[place as int].id,
        after.common.state(place as int).renewal_pending,
        !after.common.opens(true, Some(place)),
        after.common.after_init(true, Some(place)) == after.common,
{
}

/// A session is opened again with the request that opened it: when the
/// connection is opened anew, that request is still there and the session is
/// not.
pub proof fn law_session_is_opened_again(
    state: ConnectionStateView,
    request: LogonRequestView,
    is_renewal: bool,
    writer: WriterId,
)
    ensures
        ({
            let anew = state.with_session(request).opening(is_renewal).opened(writer);
            &&& !anew.is_session_logged_on
            &&& anew.session_logon_req == Some(request)
        }),
{
}

/// A session that was closed is not opened again.
pub proof fn law_closed_session_stays_closed(
    state: ConnectionStateView,
    is_renewal: bool,
    writer: WriterId,
)
    ensures
        state.without_session().opening(is_renewal).opened(writer).session_logon_req is None,
{
}

/// A connection takes no part in a second attempt to connect while the first
/// is under way: setting the handlers opens none.
pub proof fn law_handlers_open_nothing(common: CommonView, handler: u64)
    ensures
        common.with_states(|state: ConnectionStateView| state.handled_by(handler)).connected()
            == common.connected(),
{
    let after = common.with_states(|state: ConnectionStateView| state.handled_by(handler));
    if common.connected() {
        let i = choose|i: int|
            0 <= i < common.pool.len() && (#[trigger] common.pool[i]).state.ready(false);
        assert(after.pool[i].state.ready(false));
    }
    if after.connected() {
        let i = choose|i: int|
            0 <= i < after.pool.len() && (#[trigger] after.pool[i]).state.ready(false);
        assert(common.pool[i].state.ready(false));
    }
}

/// Rate limits that cannot be read are dropped; the reply is none the less one.
pub proof fn law_unreadable_limits_are_dropped(items: Seq<JsonView>, readable: Seq<bool>)
    requires
        forall|i: int| 0 <= i < readable.len() ==> !#[trigger] readable[i],
    ensures
        readable_entries(items, readable).len() == 0,
    decreases items.len(),
{
    if items.len() > 0 {
        law_unreadable_limits_are_dropped(items.drop_last(), readable);
    }
}

/// Rate limits that can all be read are all kept, in their order.
pub proof fn law_readable_limits_are_kept(items: Seq<JsonView>, readable: Seq<bool>)
    requires
        readable.len() >= items.len(),
        forall|i: int| 0 <= i < readable.len() ==> #[trigger] readable[i],
    ensures
        readable_entries(items, readable) == items,
    decreases items.len(),
{
    if items.len() > 0 {
        law_readable_limits_are_kept(items.drop_last(), readable);
        assert(items.drop_last().push(items.last()) =~= items);
    }
}

/// An entry of the rate limits is kept exactly where some entry that can be read
/// is the same.
pub proof fn law_kept_limits_are_readable(
    items: Seq<JsonView>,
    readable: Seq<bool>,
    entry: JsonView,
)
    ensures
        readable_entries(items, readable).contains(entry) <==> exists|i: int|
            0 <= i < items.len() && i < readable.len() && #[trigger] items[i] == entry
                && readable[i],
    decreases items.len(),
{
    if items.len() > 0 {
        let rest = items.drop_last();
        law_kept_limits_are_readable(rest, readable, entry);
        let front = readable_entries(rest, readable);
        let all = readable_entries(items, readable);
        let last = items.len() - 1;
        if exists|i: int|
            0 <= i < items.len() && i < readable.len() && #[trigger] items[i] == entry
                && readable[i] {
            let i = choose|i: int|
                0 <= i < items.len() && i < readable.len() && #[trigger] items[i] == entry
                    && readable[i];
            if i < last {
                assert(rest[i] == entry);
                assert(front.contains(entry));
                let k = choose|k: int| 0 <= k < front.len() && front[k] == entry;
                assert(all[k] == entry);
            } else {
                assert(all[front.len() as int] == entry);
            }
        }
        if all.contains(entry) {
            let k = choose|k: int| 0 <= k < all.len() && all[k] == entry;
            if k < front.len() {
                assert(front[k] == entry);
                assert(front.contains(entry));
                let i = choose|i: int|
                    0 <= i < rest.len() && i < readable.len() && #[trigger] rest[i] == entry
                        && readable[i];
                assert(items[i] == entry);
            } else {
                assert(items[last] == entry);
            }
        }
    }
}

/// Whatever happens to a connection, the request that is kept to open its
/// session again keeps parameters with names of their own.
pub proof fn law_requests_stay_wf(
    state: ConnectionStateView,
    is_renewal: bool,
    writer: WriterId,
    handler: HandlerId,
    request: LogonRequestView,
    id: Seq<char>,
    completion: CompletionId,
)
    requires
        state.request_wf(),
        request.wf(),
    ensures
        ConnectionStateView::fresh().request_wf(),
        state.opening(is_renewal).request_wf(),
        state.opened(writer).request_wf(),
        state.lost().request_wf(),
        state.renewing().request_wf(),
        state.closing().request_wf(),
        state.handled_by(handler).request_wf(),
        state.awaiting(id, completion).request_wf(),
        state.not_awaiting(id).request_wf(),
        state.with_session(request).request_wf(),
        state.without_session().request_wf(),
{
}

/// A pool keeps such requests as long as each change of a connection does.
pub proof fn law_pool_requests_stay_wf(
    common: CommonView,
    place: int,
    state: ConnectionStateView,
    change: spec_fn(ConnectionStateView) -> ConnectionStateView,
)
    requires
        common.requests_wf(),
        0 <= place < common.pool.len(),
        state.request_wf(),
        forall|s: ConnectionStateView| s.request_wf() ==> #[trigger] change(s).request_wf(),
    ensures
        common.turned().requests_wf(),
        common.with_state(place, state).requests_wf(),
        common.with_states(change).requests_wf(),
{
    assert forall|i: int| 0 <= i < common.pool.len() implies (#[trigger] common.with_state(
        place,
        state,
    ).pool[i]).state.request_wf() by {
        assert(common.pool[i].state.request_wf());
    }
    assert forall|i: int| 0 <= i < common.pool.len() implies (#[trigger] common.with_states(
        change,
    ).pool[i]).state.request_wf() by {
        assert(common.pool[i].state.request_wf());
    }
}

/// A text message that arrived while the pool was as it says.
pub struct Arrival {
    pub pool: CommonView,
    pub text: Seq<char>,
    pub since_epoch_ms: Option<u128>,
}

/// What is done about a row of messages that arrived on the connection at
/// `place`, each seen to before the next.
pub open spec fn row_actions(row: Seq<Arrival>, place: int) -> Seq<MessageActionView>
    decreases row.len(),
{
    if row.len() == 0 {
        Seq::empty()
    } else {
        let last = row.last();
        row_actions(row.drop_last(), place) + last.pool.message_actions(
            place,
            last.text,
            last.since_epoch_ms,
        )
    }
}

/// The texts of a row of messages.
pub open spec fn row_texts(row: Seq<Arrival>) -> Seq<Seq<char>> {
    row.map_values(|arrival: Arrival| arrival.text)
}

/// The texts that the handler is handed, in order.
pub open spec fn handled(actions: Seq<MessageActionView>, handler: HandlerId) -> Seq<Seq<char>>
    decreases actions.len(),
{
    if actions.len() == 0 {
        Seq::empty()
    } else {
        let front = handled(actions.drop_last(), handler);
        match actions.last() {
            MessageActionView::Handle { handler: other, text } if other == handler => front.push(
                text,
            ),
            _ => front,
        }
    }
}

/// The messages that the subscribers are told of, in order.
pub open spec fn told(actions: Seq<MessageActionView>) -> Seq<Seq<char>>
    decreases actions.len(),
{
    if actions.len() == 0 {
        Seq::empty()
    } else {
        let front = told(actions.drop_last());
        match actions.last() {
            MessageActionView::Tell(WebsocketEventView::Message(text)) => front.push(text),
            _ => front,
        }
    }
}

/// The deliveries to the subscribers to text messages, in order.
pub open spec fn delivered(actions: Seq<MessageActionView>) -> Seq<
    Seq<(SubscriberId, MessageEventView)>,
>
    decreases actions.len(),
{
    if actions.len() == 0 {
        Seq::empty()
    } else {
        let front = delivered(actions.drop_last());
        match actions.last() {
            MessageActionView::Deliver(deliveries) => front.push(deliveries),
            _ => front,
        }
    }
}

proof fn lemma_actions_concat(
    left: Seq<MessageActionView>,
    right: Seq<MessageActionView>,
    handler: HandlerId,
)
    ensures
        handled(left + right, handler) == handled(left, handler) + handled(right, handler),
        told(left + right) == told(left) + told(right),
        delivered(left + right) == delivered(left) + delivered(right),
    decreases right.len(),
{
    if right.len() == 0 {
        assert(left + right =~= left);
    } else {
        assert((left + right).drop_last() =~= left + right.drop_last());
        assert((left + right).last() == right.last());
        lemma_actions_concat(left, right.drop_last(), handler);
    }
}

proof fn lemma_one_message(
    common: CommonView,
    place: int,
    text: Seq<char>,
    since_epoch_ms: Option<u128>,
    handler: HandlerId,
)
    requires
        common.state(place).handler == Some(handler),
    ensures
        ({
            let actions = common.message_actions(place, text, since_epoch_ms);
            let event = common.message_event(place, text, since_epoch_ms);
            &&& handled(actions, handler) == seq![text]
            &&& told(actions) == seq![text]
            &&& delivered(actions) == seq![
                common.message_events.map_values(|subscriber: SubscriberId| (subscriber, event)),
            ]
        }),
{
    let actions = common.message_actions(place, text, since_epoch_ms);
    let two = actions.drop_last();
    let one = two.drop_last();
    assert(one.drop_last() =~= Seq::<MessageActionView>::empty());
    reveal_with_fuel(handled, 4);
    reveal_with_fuel(told, 4);
    reveal_with_fuel(delivered, 4);
    assert(one.last() == actions[0] && two.last() == actions[1] && actions.last() == actions[2]);
    assert(handled(actions, handler) =~= seq![text]);
    assert(told(actions) =~= seq![text]);
    let event = common.message_event(place, text, since_epoch_ms);
    assert(delivered(actions) =~= seq![
        common.message_events.map_values(|subscriber: SubscriberId| (subscriber, event)),
    ]);
}

/// Messages are seen to in the order of their arrival: of a row of messages the
/// handler is handed each one once, in order, and so are the subscribers told of
/// them. Each subscriber to text messages gets each message once, in order, with
/// the identifier and the path of the connection.
pub proof fn law_messages_in_order(row: Seq<Arrival>, place: int, handler: HandlerId)
    requires
        forall|i: int|
            0 <= i < row.len() ==> (#[trigger] row[i]).pool.state(place).handler == Some(handler),
    ensures
        handled(row_actions(row, place), handler) == row_texts(row),
        told(row_actions(row, place)) == row_texts(row),
        delivered(row_actions(row, place)) == row.map_values(
            |arrival: Arrival|
                arrival.pool.message_events.map_values(
                    |subscriber: SubscriberId|
                        (
                            subscriber,
                            arrival.pool.message_event(
                                place,
                                arrival.text,
                                arrival.since_epoch_ms,
                            ),
                        ),
                ),
        ),
    decreases row.len(),
{
    let deliveries = |arrival: Arrival|
        arrival.pool.message_events.map_values(
            |subscriber: SubscriberId|
                (
                    subscriber,
                    arrival.pool.message_event(place, arrival.text, arrival.since_epoch_ms),
                ),
        );
    if row.len() == 0 {
        assert(row_texts(row) =~= Seq::<Seq<char>>::empty());
        assert(row.map_values(deliveries) =~= Seq::<Seq<(SubscriberId, MessageEventView)>>::empty());
    } else {
        let last = row.last();
        let rest = row.drop_last();
        assert(row[row.len() - 1].pool.state(place).handler == Some(handler));
        assert forall|i: int| 0 <= i < rest.len() implies (#[trigger] rest[i]).pool.state(
            place,
        ).handler == Some(handler) by {
            assert(row[i].pool.state(place).handler == Some(handler));
        }
        law_messages_in_order(rest, place, handler);
        lemma_one_message(last.pool, place, last.text, last.since_epoch_ms, handler);
        lemma_actions_concat(
            row_actions(rest, place),
            last.pool.message_actions(place, last.text, last.since_epoch_ms),
            handler,
        );
        assert(row_texts(row) =~= row_texts(rest) + seq![last.text]);
        assert(row.map_values(deliveries) =~= rest.map_values(deliveries) + seq![deliveries(last)]);
        assert(deliveries(last) =~= last.pool.message_events.map_values(
            |subscriber: SubscriberId|
                (
                    subscriber,
                    last.pool.message_event(place, last.text, last.since_epoch_ms),
                ),
        ));
    }
}

/// A message is seen to before the next: what is done about the first messages
/// of a row is done before anything is done about a later one.
pub proof fn law_messages_one_at_a_time(row: Seq<Arrival>, place: int, i: int)
    requires
        0 <= i <= row.len(),
    ensures
        row_actions(row.take(i), place).is_prefix_of(row_actions(row, place)),
    decreases row.len() - i,
{
    if i == row.len() {
        assert(row.take(i) =~= row);
    } else {
        law_messages_one_at_a_time(row, place, i + 1);
        assert(row.take(i + 1).drop_last() =~= row.take(i));
    }
}

/// The subscribers are told of a message last, once the handler is done with it.
pub proof fn law_told_after_handling(
    common: CommonView,
    place: int,
    text: Seq<char>,
    since_epoch_ms: Option<u128>,
)
    ensures
        ({
            let actions = common.message_actions(place, text, since_epoch_ms);
            &&& actions.last() == MessageActionView::Tell(WebsocketEventView::Message(text))
            &&& forall|k: int|
                0 <= k < actions.len() - 1 ==> !((#[trigger] actions[k]) is Tell)
            &&& common.state(place).handler is Some ==> actions[actions.len() - 2]
                == (MessageActionView::Handle { handler: common.state(place).handler->0, text })
        }),
{
}

/// A ping goes out on each connection that can be used, once, and on no other.
pub proof fn law_ping_reaches_usable(common: CommonView)
    ensures
        common.pinged().len() == places(common.pool, |c: ConnectionView| c.state.ready(false)).len(),
        forall|i: int|
            0 <= i < common.pool.len() && (#[trigger] common.pool[i]).state.ready(false)
                ==> common.pinged().contains(
                (common.pool[i].id, common.pool[i].state.ws_write_tx->0),
            ),
        common.pinged().len() > 0 <==> common.connected(),
{
    let pick = |c: ConnectionView| c.state.ready(false);
    lemma_places(common.pool, pick);
    let chosen = places(common.pool, pick);
    assert forall|i: int|
        0 <= i < common.pool.len() && (#[trigger] common.pool[i]).state.ready(
            false,
        ) implies common.pinged().contains(
        (common.pool[i].id, common.pool[i].state.ws_write_tx->0),
    ) by {
        assert(pick(common.pool[i]));
        assert(chosen.contains(i));
        let k = choose|k: int| 0 <= k < chosen.len() && chosen[k] == i;
        assert(common.pinged()[k] == (common.pool[i].id, common.pool[i].state.ws_write_tx->0));
    }
    if common.pinged().len() > 0 {
        assert(pick(common.pool[chosen[0]]));
    }
    if common.connected() {
        let i = choose|i: int|
            0 <= i < common.pool.len() && (#[trigger] common.pool[i]).state.ready(false);
        assert(chosen.contains(i));
    }
}

} // verus!
