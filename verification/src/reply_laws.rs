//! What holds of requests, replies and events, said of the members of their
//! documents.

use crate::api::{
    all_callbacks, answered_request, base_url, error_code, error_message, event_type,
    first_failure, limit_entries, outcome_view, rate_limits_of, readable_entries, reply_outcome,
    reply_readable, reply_view, response_of, result_of, status_of, ApiStep, ApiView, Reply,
    WebsocketApi,
};
use crate::common::CommonView;
use crate::connection::{
    distinct_keys, payload_view, CallbackId, ConnectionStateView, ConnectionView,
    LogonRequestView,
};
use crate::json::{json_view, json_views, members, JsonView};
use crate::lifecycle::first_error;
use crate::models::{optional_json_views, text_view, WebsocketError, WebsocketErrorView};
use crate::options::{SendWebsocketMessageResult, WebsocketMessageSendOptions};
use serde_json::Value;
use vstd::prelude::*;

verus! {

/// The status of a reply is the number under `status` where there is one that is
/// not negative and fits into 64 bits. Every other reply counts as a success.
pub proof fn law_status(document: JsonView)
    ensures
        ({
            let found = document.member("status"@);
            let known = found is Some && found->0 is Integer && 0 <= found->0->Integer_0
                <= u64::MAX;
            &&& known ==> status_of(document) == found->0->Integer_0
            &&& !known ==> status_of(document) == 200
        }),
{
}

/// The outcome of a request is an error exactly where the reply has a status of
/// 400 or more. It is the reply itself otherwise.
pub proof fn law_reply_is_an_error(document: JsonView)
    ensures
        ({
            let found = document.member("status"@);
            let failed = found is Some && found->0 is Integer && 400 <= found->0->Integer_0
                <= u64::MAX;
            &&& failed ==> reply_outcome(document) == Err::<JsonView, WebsocketErrorView>(
                WebsocketErrorView::ResponseError {
                    code: error_code(document),
                    message: error_message(document),
                },
            )
            &&& !failed ==> reply_outcome(document) == Ok::<JsonView, WebsocketErrorView>(document)
        }),
{
}

/// The code and the message of an error are those under `code` and `msg` of what
/// stands under `error`, where they are a number and a text. Without a code the
/// status stands for it, without a message the error is unknown.
pub proof fn law_error(document: JsonView)
    requires
        status_of(document) <= i64::MAX,
    ensures
        ({
            let error = document.member("error"@);
            let code = error->0.member("code"@);
            let message = error->0.member("msg"@);
            let has_code = error is Some && code is Some && code->0 is Integer && i64::MIN
                <= code->0->Integer_0 <= i64::MAX;
            let has_message = error is Some && message is Some && message->0 is Text;
            &&& has_code ==> error_code(document) == code->0->Integer_0
            &&& !has_code ==> error_code(document) == status_of(document)
            &&& has_message ==> error_message(document) == message->0->Text_0
            &&& !has_message ==> error_message(document) == "Unknown error"@
        }),
{
}

/// A message answers the request whose identifier is the text under `id`. One
/// without such a text answers none.
pub proof fn law_answered_request(document: JsonView)
    ensures
        ({
            let id = document.member("id"@);
            &&& id is Some && id->0 is Text ==> answered_request(document) == Some(id->0->Text_0)
            &&& !(id is Some && id->0 is Text) ==> answered_request(document) is None
        }),
{
}

/// The type of an event is what stands under `e` of what stands under `event`.
pub proof fn law_event_type(document: JsonView)
    ensures
        ({
            let event = document.member("event"@);
            &&& event is Some ==> event_type(document) == event->0.member("e"@)
            &&& event is None ==> event_type(document) is None
        }),
{
}

/// A reply says what stands under `result`, or else under `response`, or else
/// nothing, and its rate limits.
pub proof fn law_response(document: JsonView, readable: Seq<bool>)
    ensures
        document.member("result"@) is Some ==> result_of(document) == document.member("result"@)->0,
        document.member("result"@) is None && document.member("response"@) is Some ==> result_of(
            document,
        ) == document.member("response"@)->0,
        document.member("result"@) is None && document.member("response"@) is None ==> result_of(
            document,
        ) is Null,
        response_of(document, readable).raw == result_of(document),
        response_of(document, readable).rate_limits == rate_limits_of(document, readable),
{
}

/// The entries of the rate limits are those of the list under `rateLimits`; what
/// is no list has none. There are rate limits exactly where there is such a list
/// without an empty entry: those of its entries that can be read.
pub proof fn law_rate_limits(document: JsonView, readable: Seq<bool>)
    ensures
        ({
            let found = document.member("rateLimits"@);
            let listed = found is Some && found->0 is Array;
            let items = found->0->Array_0;
            let has_empty = exists|i: int| 0 <= i < items.len() && (#[trigger] items[i]) is Null;
            &&& listed ==> limit_entries(document) == items
            &&& !listed ==> limit_entries(document).len() == 0
            &&& listed && !has_empty ==> rate_limits_of(document, readable) == Some(
                readable_entries(items, readable),
            )
            &&& !listed || has_empty ==> rate_limits_of(document, readable) is None
        }),
{
}

/// Which entries can be read is decided entry by entry, and those that can stay
/// in order. An entry of which nothing is said cannot.
pub proof fn law_readable_one_by_one(
    left: Seq<JsonView>,
    left_readable: Seq<bool>,
    right: Seq<JsonView>,
    right_readable: Seq<bool>,
    item: JsonView,
)
    requires
        left.len() == left_readable.len(),
    ensures
        readable_entries(left + right, left_readable + right_readable) == readable_entries(
            left,
            left_readable,
        ) + readable_entries(right, right_readable),
        readable_entries(seq![item], seq![true]) == seq![item],
        readable_entries(seq![item], seq![false]).len() == 0,
        readable_entries(right, Seq::<bool>::empty()).len() == 0,
    decreases right.len(),
{
    reveal_with_fuel(readable_entries, 2);
    assert(seq![item].drop_last() =~= Seq::<JsonView>::empty());
    assert(readable_entries(seq![item], seq![true]) =~= seq![item]);
    if right.len() == 0 {
        assert(left + right =~= left);
        lemma_readable_prefix(left, left_readable, right_readable);
    } else {
        law_readable_one_by_one(left, left_readable, right.drop_last(), right_readable, item);
        assert((left + right).drop_last() =~= left + right.drop_last());
        assert(readable_entries(left + right, left_readable + right_readable) =~= readable_entries(
            left,
            left_readable,
        ) + readable_entries(right, right_readable));
    }
}

proof fn lemma_readable_prefix(items: Seq<JsonView>, readable: Seq<bool>, more: Seq<bool>)
    requires
        items.len() <= readable.len(),
    ensures
        readable_entries(items, readable + more) == readable_entries(items, readable),
    decreases items.len(),
{
    if items.len() > 0 {
        lemma_readable_prefix(items.drop_last(), readable, more);
    }
}

/// A reply that was not waited for is none, one that nobody is left to give
/// takes too long, and one that came is what came.
pub proof fn law_reply(reply: Reply)
    ensures
        reply is NotAwaited ==> reply_view(reply) == Err::<JsonView, WebsocketErrorView>(
            WebsocketErrorView::NoResponse,
        ) && reply_readable(reply).len() == 0,
        reply is Abandoned ==> reply_view(reply) == Err::<JsonView, WebsocketErrorView>(
            WebsocketErrorView::Timeout,
        ) && reply_readable(reply).len() == 0,
        reply is Received && reply->outcome is Ok ==> reply_view(reply) == Ok::<
            JsonView,
            WebsocketErrorView,
        >(json_view(reply->outcome->Ok_0)),
        reply is Received && reply->outcome is Err ==> reply_view(reply) == Err::<
            JsonView,
            WebsocketErrorView,
        >(reply->outcome->Err_0@),
        reply is Received ==> reply_view(reply) == outcome_view(reply->outcome),
        reply is Received ==> reply_readable(reply) == reply->readable@,
{
}

/// The first failure is a failure before which all went well, so there is at
/// most one.
pub proof fn law_first_failure(replies: Seq<Reply>, j: int, k: int)
    requires
        first_failure(replies, j),
    ensures
        0 <= j < replies.len(),
        reply_view(replies[j]) is Err,
        0 <= k < j ==> reply_view(replies[k]) is Ok,
        first_failure(replies, k) ==> k == j,
{
}

/// The same of the outcomes of opening connections.
pub proof fn law_first_error(outcomes: Seq<Result<(), WebsocketError>>, j: int, k: int)
    requires
        first_error(outcomes, j),
    ensures
        0 <= j < outcomes.len(),
        outcomes[j] is Err,
        0 <= k < j ==> outcomes[k] is Ok,
        first_error(outcomes, k) ==> k == j,
{
}

/// Where something fails there is a first failure.
pub proof fn law_some_failure_is_first(
    replies: Seq<Reply>,
    outcomes: Seq<Result<(), WebsocketError>>,
    i: int,
)
    ensures
        0 <= i < replies.len() && reply_view(replies[i]) is Err ==> exists|k: int| #[trigger]
            first_failure(replies, k) && k <= i,
        0 <= i < outcomes.len() && outcomes[i] is Err ==> exists|k: int| #[trigger]
            first_error(outcomes, k) && k <= i,
    decreases i,
{
    if 0 <= i < replies.len() && reply_view(replies[i]) is Err && !first_failure(replies, i) {
        let j = choose|j: int| 0 <= j < i && !(reply_view(#[trigger] replies[j]) is Ok);
        law_some_failure_is_first(replies, outcomes, j);
    }
    if 0 <= i < outcomes.len() && outcomes[i] is Err && !first_error(outcomes, i) {
        let j = choose|j: int| 0 <= j < i && !((#[trigger] outcomes[j]) is Ok);
        law_some_failure_is_first(replies, outcomes, j);
    }
}

/// A reply has a status that no error code can hold where it answers a request
/// that is waited for and its status is beyond 63 bits.
pub proof fn law_status_out_of_range(state: ConnectionStateView, document: JsonView)
    ensures
        ({
            let id = document.member("id"@);
            let status = document.member("status"@);
            state.status_out_of_range(document) <==> {
                &&& id is Some && id->0 is Text
                &&& state.pending_requests.contains_key(id->0->Text_0)
                &&& status is Some && status->0 is Integer
                &&& i64::MAX < status->0->Integer_0 <= u64::MAX
            }
        }),
{
}

/// Every callback of every entry is handed an event, entry by entry and in the
/// order of each.
pub proof fn law_all_callbacks(
    left: Seq<(Seq<char>, Seq<CallbackId>)>,
    right: Seq<(Seq<char>, Seq<CallbackId>)>,
    key: Seq<char>,
    callbacks: Seq<CallbackId>,
)
    ensures
        all_callbacks(left + right) == all_callbacks(left) + all_callbacks(right),
        all_callbacks(seq![(key, callbacks)]) == callbacks,
        all_callbacks(Seq::empty()).len() == 0,
    decreases right.len(),
{
    reveal_with_fuel(all_callbacks, 2);
    let one = seq![(key, callbacks)];
    assert(one.drop_last() =~= Seq::<(Seq<char>, Seq<CallbackId>)>::empty());
    assert(all_callbacks(one) =~= callbacks);
    if right.len() == 0 {
        assert(left + right =~= left);
        assert(all_callbacks(left) + all_callbacks(right) =~= all_callbacks(left));
    } else {
        law_all_callbacks(left, right.drop_last(), key, callbacks);
        assert((left + right).drop_last() =~= left + right.drop_last());
        assert(all_callbacks(left + right) =~= all_callbacks(left) + all_callbacks(right));
    }
}

/// A request opens or closes a session exactly where its options say so.
pub proof fn law_session_options(options: WebsocketMessageSendOptions)
    ensures
        options.logs_on() <==> options.is_session_logon is Some && options.is_session_logon->0,
        options.logs_out() <==> options.is_session_logout is Some && options.is_session_logout->0,
{
}

/// Where sessions are opened again, a request that opened one is remembered on
/// every connection that it went out on, and one that closed it has it
/// forgotten there. A request that does both opens one. Any other request, and
/// any request where sessions are not opened again, leaves no mark; nor does any
/// on a connection that it did not go out on.
pub proof fn law_session_marks(
    api: ApiView,
    chosen: Seq<int>,
    request: LogonRequestView,
    i: int,
)
    requires
        0 <= i < api.common.pool.len(),
    ensures
        ({
            let on = request.options.is_session_logon == Some(true);
            let out = request.options.is_session_logout == Some(true);
            let state = api.common.pool[i].state;
            let after = api.after_replies(chosen, request);
            &&& after == (ApiView {
                common: CommonView { pool: after.common.pool, ..api.common },
                ..api
            })
            &&& after.common.pool.len() == api.common.pool.len()
            &&& after.common.pool[i].id == api.common.pool[i].id
            &&& after.common.pool[i].state == if !api.configuration.auto_session_relogon
                || !chosen.contains(i) || !(on || out) {
                state
            } else if on {
                ConnectionStateView {
                    is_session_logged_on: true,
                    session_logon_req: Some(request),
                    ..state
                }
            } else {
                ConnectionStateView {
                    is_session_logged_on: false,
                    session_logon_req: None,
                    ..state
                }
            }
        }),
{
}

/// A message that answers a request completes it where its reply is awaited, on
/// the connection that it came through: the outcome goes where it is awaited,
/// and it is awaited no longer. Otherwise nothing happens, whatever else the
/// message holds.
pub proof fn law_message_that_answers(
    api: WebsocketApi,
    place: int,
    document: JsonView,
    step: ApiStep,
    after: ApiView,
)
    requires
        api.handles(place, document, step, after),
        0 <= place < api@.common.pool.len(),
        document.member("id"@) is Some,
        document.member("id"@)->0 is Text,
    ensures
        ({
            let id = document.member("id"@)->0->Text_0;
            let state = api@.common.pool[place].state;
            if state.pending_requests.contains_key(id) {
                &&& step is Complete
                &&& step->completion == state.pending_requests[id]
                &&& outcome_view(step->outcome) == reply_outcome(document)
                &&& after == (ApiView {
                    common: CommonView {
                        pool: api@.common.pool.update(
                            place,
                            ConnectionView {
                                state: ConnectionStateView {
                                    pending_requests: state.pending_requests.remove(id),
                                    ..state
                                },
                                ..api@.common.pool[place]
                            },
                        ),
                        ..api@.common
                    },
                    ..api@
                })
            } else {
                &&& step is Nothing
                &&& after == api@
            }
        }),
{
}

/// A message that answers no request and tells of a server that shuts down has
/// its connection opened anew, by its identifier and at its path, and counts it
/// as being renewed, unless it is that already or is being closed.
pub proof fn law_message_of_shutdown(
    api: WebsocketApi,
    place: int,
    document: JsonView,
    step: ApiStep,
    after: ApiView,
)
    requires
        api.handles(place, document, step, after),
        0 <= place < api@.common.pool.len(),
        document.member("id"@) is None || !(document.member("id"@)->0 is Text),
        document.member("event"@) is Some,
        document.member("event"@)->0.member("e"@) == Some(JsonView::Text("serverShutdown"@)),
    ensures
        ({
            let state = api@.common.pool[place].state;
            if state.renewal_pending || state.close_initiated {
                &&& step is Nothing
                &&& after == api@
            } else {
                &&& step is Renew
                &&& step->Renew_0@.connection_id == api@.common.pool[place].id
                &&& state.url_path is Some ==> step->Renew_0@.url == state.url_path->0
                &&& state.url_path is None ==> step->Renew_0@.url.len() == 0
                &&& step->Renew_0@.is_renewal
                &&& after == (ApiView {
                    common: CommonView {
                        pool: api@.common.pool.update(
                            place,
                            ConnectionView {
                                state: ConnectionStateView { renewal_pending: true, ..state },
                                ..api@.common.pool[place]
                            },
                        ),
                        ..api@.common
                    },
                    ..api@
                })
            }
        }),
{
}

/// A message that answers no request and carries another event hands the event
/// to every callback and changes nothing.
pub proof fn law_message_of_event(
    api: WebsocketApi,
    place: int,
    document: JsonView,
    step: ApiStep,
    after: ApiView,
)
    requires
        api.handles(place, document, step, after),
        document.member("id"@) is None || !(document.member("id"@)->0 is Text),
        document.member("event"@) is Some,
        document.member("event"@)->0.member("e"@) is Some,
        document.member("event"@)->0.member("e"@) != Some(JsonView::Text("serverShutdown"@)),
    ensures
        step is Deliver,
        Some(json_view(step->event)) == document.member("event"@),
        step->callbacks@ == all_callbacks(api.stream_callbacks.listed()),
        after == api@,
{
}

/// Any other message is passed over.
pub proof fn law_message_of_nothing(
    api: WebsocketApi,
    place: int,
    document: JsonView,
    step: ApiStep,
    after: ApiView,
)
    requires
        api.handles(place, document, step, after),
        document.member("id"@) is None || !(document.member("id"@)->0 is Text),
        document.member("event"@) is None || document.member("event"@)->0.member("e"@) is None,
    ensures
        step is Nothing,
        after == api@,
{
}

/// The replies to a request are the one that came, or all of them in order, each
/// with what it says.
pub proof fn law_replies<R>(result: SendWebsocketMessageResult<R>, i: int)
    ensures
        result is Single ==> result.replies() == seq![result->Single_0],
        result is Multiple ==> result.replies() == result->Multiple_0@,
        result.reply_views().len() == result.replies().len(),
        0 <= i < result.replies().len() ==> result.reply_views()[i].raw == json_view(
            result.replies()[i].raw,
        ),
        0 <= i < result.replies().len() && result.replies()[i].rate_limits is None
            ==> result.reply_views()[i].rate_limits is None,
        0 <= i < result.replies().len() && result.replies()[i].rate_limits is Some
            ==> result.reply_views()[i].rate_limits == Some(
            json_views(result.replies()[i].rate_limits->0@),
        ),
{
}

/// The parameters of a request are, in order, its names with their documents.
/// Names of their own are names of which no two are equal.
pub proof fn law_parameters(payload: Seq<(String, Value)>, i: int, j: int)
    ensures
        payload_view(payload).len() == payload.len(),
        0 <= i < payload.len() ==> payload_view(payload)[i] == (
            payload[i].0@,
            json_view(payload[i].1),
        ),
        distinct_keys(payload_view(payload)) && 0 <= i < payload.len() && 0 <= j < payload.len()
            && i != j ==> payload[i].0@ != payload[j].0@,
        (forall|a: int, b: int|
            0 <= a < b < payload.len() ==> (#[trigger] payload[a]).0@ != (
            #[trigger] payload[b]).0@) ==> distinct_keys(payload_view(payload)),
{
    let view = payload_view(payload);
    if distinct_keys(view) && 0 <= i < payload.len() && 0 <= j < payload.len() && i != j {
        let (a, b) = if i < j {
            (i, j)
        } else {
            (j, i)
        };
        assert(view[a].0 != view[b].0);
    }
    if forall|a: int, b: int|
        0 <= a < b < payload.len() ==> (#[trigger] payload[a]).0@ != (#[trigger] payload[b]).0@ {
        assert forall|a: int, b: int| 0 <= a < b < view.len() implies (#[trigger] view[a]).0 != (
        #[trigger] view[b]).0 by {
            assert(payload[a].0@ != payload[b].0@);
        }
    }
}

/// A request that is kept to open a session again is in order exactly where no
/// two of its parameters have the same name, and a pool where all of its are.
pub proof fn law_kept_requests(state: ConnectionStateView, common: CommonView)
    ensures
        state.request_wf() <==> (state.session_logon_req is Some ==> distinct_keys(
            state.session_logon_req->0.payload,
        )),
        common.requests_wf() <==> forall|i: int|
            0 <= i < common.pool.len() && (
            #[trigger] common.pool[i]).state.session_logon_req is Some ==> distinct_keys(
                common.pool[i].state.session_logon_req->0.payload,
            ),
{
    if forall|i: int|
        0 <= i < common.pool.len() && (#[trigger] common.pool[i]).state.session_logon_req is Some
            ==> distinct_keys(common.pool[i].state.session_logon_req->0.payload) {
        assert forall|i: int| 0 <= i < common.pool.len() implies (
        #[trigger] common.pool[i]).state.request_wf() by {}
    }
    if common.requests_wf() {
        assert forall|i: int|
            0 <= i < common.pool.len() && (
            #[trigger] common.pool[i]).state.session_logon_req is Some implies distinct_keys(
            common.pool[i].state.session_logon_req->0.payload,
        ) by {
            assert(common.pool[i].state.request_wf());
        }
    }
}

/// The members of an object that values with names of their own make up are
/// exactly those values, each under its name.
pub proof fn law_members(entries: Seq<(String, Value)>, key: Seq<char>)
    requires
        forall|i: int, j: int|
            0 <= i < j < entries.len() ==> (#[trigger] entries[i]).0@ != (
            #[trigger] entries[j]).0@,
    ensures
        members(entries).contains_key(key) <==> exists|i: int|
            0 <= i < entries.len() && (#[trigger] entries[i]).0@ == key,
        forall|i: int|
            0 <= i < entries.len() && (#[trigger] entries[i]).0@ == key ==> members(entries)[key]
                == json_view(entries[i].1),
    decreases entries.len(),
{
    if entries.len() > 0 {
        let rest = entries.drop_last();
        assert forall|i: int, j: int| 0 <= i < j < rest.len() implies (#[trigger] rest[i]).0@ != (
        #[trigger] rest[j]).0@ by {
            assert(entries[i].0@ != entries[j].0@);
        }
        law_members(rest, key);
        assert(entries[entries.len() - 1] == entries.last());
        if exists|i: int| 0 <= i < entries.len() && (#[trigger] entries[i]).0@ == key {
            let i = choose|i: int| 0 <= i < entries.len() && (#[trigger] entries[i]).0@ == key;
            if i < rest.len() {
                assert(rest[i] == entries[i]);
            }
        }
        if exists|i: int| 0 <= i < rest.len() && (#[trigger] rest[i]).0@ == key {
            let i = choose|i: int| 0 <= i < rest.len() && (#[trigger] rest[i]).0@ == key;
            assert(entries[i] == rest[i]);
        }
        assert forall|i: int|
            0 <= i < entries.len() && (#[trigger] entries[i]).0@ == key implies members(
            entries,
        )[key] == json_view(entries[i].1) by {
            if i < rest.len() {
                assert(rest[i] == entries[i]);
                assert(entries[i].0@ != entries[entries.len() - 1].0@);
            }
        }
    }
}

/// Lists of documents, optional texts and base URLs are what they hold.
pub proof fn law_plain_values(
    values: Seq<Value>,
    optional: Option<Vec<Value>>,
    text: Option<&str>,
    url: Option<String>,
    i: int,
)
    ensures
        json_views(values).len() == values.len(),
        0 <= i < values.len() ==> json_views(values)[i] == json_view(values[i]),
        optional is None ==> optional_json_views(optional) is None,
        optional is Some ==> optional_json_views(optional) == Some(json_views(optional->0@)),
        text is None ==> text_view(text) is None,
        text is Some ==> text_view(text) == Some(text->0@),
        url is None ==> base_url(url).len() == 0,
        url is Some ==> base_url(url) == url->0@,
{
}

} // verus!
