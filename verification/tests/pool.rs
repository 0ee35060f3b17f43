use websocket_common::common::WebsocketCommon;
use websocket_common::connection::{PendingRequest, WebsocketConnection};
use websocket_common::exchange::MessageAction;
use websocket_common::failure::WebsocketConnectionFailureReason;
use websocket_common::handshake::handshake_outcome;
use websocket_common::lifecycle::{
    Frame, FrameStep, OpenStep, ReconnectEntry, CLOSE_WAIT_SECONDS,
    CONNECT_WAIT_SECONDS, MAX_CONN_SECONDS, NORMAL_CLOSE_CODE, RECONNECT_PAUSE_SECONDS,
};
use websocket_common::models::{
    WebsocketError, WebsocketEvent, WebsocketMessageEvent, WebsocketMode,
};

use tokio_tungstenite::tungstenite::error::ProtocolError;
use tokio_tungstenite::tungstenite::Error as TungsteniteError;

fn fresh_ids(count: usize) -> Vec<String> {
    (0..count).map(|i| format!("fresh{i}")).collect()
}

fn pool(connections: Vec<WebsocketConnection>, mode: WebsocketMode) -> WebsocketCommon {
    WebsocketCommon::new(connections, mode, 0, None, &fresh_ids(4))
}

fn single(connection: WebsocketConnection) -> WebsocketCommon {
    pool(vec![connection], WebsocketMode::Single)
}

fn with_writer(id: &str, writer: u64) -> WebsocketConnection {
    let mut connection = WebsocketConnection::new(id);
    connection.state.ws_write_tx = Some(writer);
    connection
}

fn with_writer_on(id: &str, writer: u64, path: &str) -> WebsocketConnection {
    let mut connection = with_writer(id, writer);
    connection.state.url_path = Some(path.to_string());
    connection
}

fn create_connection(
    id: &str,
    has_writer: bool,
    reconnection_pending: bool,
    renewal_pending: bool,
    close_initiated: bool,
) -> WebsocketConnection {
    let mut connection = WebsocketConnection::new(id);
    connection.state.reconnection_pending = reconnection_pending;
    connection.state.renewal_pending = renewal_pending;
    connection.state.close_initiated = close_initiated;
    connection.state.ws_write_tx = if has_writer { Some(1) } else { None };
    connection
}

#[test]
fn single_mode() {
    let common = pool(vec![], WebsocketMode::Single);
    assert_eq!(common.connection_pool.len(), 1);
}

#[test]
fn pool_mode() {
    let common = pool(vec![], WebsocketMode::Pool(3));
    assert_eq!(common.connection_pool.len(), 3);
    assert_eq!(common.connection_pool[2].id, "fresh2");
}

#[test]
fn given_connections_are_kept() {
    let common = pool(vec![WebsocketConnection::new("c1")], WebsocketMode::Pool(3));
    assert_eq!(common.connection_pool.len(), 1);
    assert_eq!(common.connection_pool[0].id, "c1");
    assert_eq!(common.round_robin_index, 0);
}

#[test]
fn successful_reconnect_entry_triggers_init_connect() {
    let mut common = WebsocketCommon::new(
        vec![WebsocketConnection::new("c1")],
        WebsocketMode::Single,
        10,
        None,
        &fresh_ids(0),
    );
    let entry = ReconnectEntry {
        connection_id: "c1".into(),
        url: "ws://127.0.0.1".into(),
        is_renewal: false,
    };
    assert_eq!(common.reconnect_wait(&entry), Some(10));
    let place = common.find_connection(&entry.connection_id).expect("known");
    assert_eq!(common.init_connect(entry.is_renewal, Some(place)), Ok(Some(0)));
    let opened = common.finish_connect(place, &entry.url, Ok(7)).unwrap();
    assert_eq!(opened.old_writer, None);
    assert_eq!(opened.renewal_id, "c1");
    assert_eq!(opened.renewal_url, "ws://127.0.0.1");
    assert!(common.connection_pool[0].state.ws_write_tx.is_some());
}

#[test]
fn reconnect_entry_with_unknown_id_is_ignored() {
    let common = WebsocketCommon::new(
        vec![WebsocketConnection::new("c1")],
        WebsocketMode::Single,
        5,
        None,
        &fresh_ids(0),
    );
    assert_eq!(common.find_connection(&"other".to_string()), None);
    assert!(common.connection_pool[0].state.ws_write_tx.is_none());
}

#[test]
fn renewal_entries_bypass_initial_delay() {
    let mut common = WebsocketCommon::new(
        vec![WebsocketConnection::new("renew")],
        WebsocketMode::Single,
        200,
        None,
        &fresh_ids(0),
    );
    let entry = ReconnectEntry {
        connection_id: "renew".into(),
        url: "ws://127.0.0.1".into(),
        is_renewal: true,
    };
    assert_eq!(common.reconnect_wait(&entry), None);
    let place = common.find_connection(&entry.connection_id).unwrap();
    assert_eq!(common.init_connect(true, Some(place)), Ok(Some(0)));
    common.finish_connect(place, &entry.url, Ok(1)).unwrap();
    assert!(common.connection_pool[0].state.ws_write_tx.is_some());
}

#[test]
fn non_renewal_entries_respect_initial_delay() {
    let reconnect_delay_ms = 1500;
    let common = WebsocketCommon::new(
        vec![WebsocketConnection::new("nonrenew")],
        WebsocketMode::Single,
        reconnect_delay_ms,
        None,
        &fresh_ids(0),
    );
    let entry = ReconnectEntry {
        connection_id: "nonrenew".into(),
        url: "ws://127.0.0.1".into(),
        is_renewal: false,
    };
    assert_eq!(common.reconnect_wait(&entry), Some(1500));
}

#[test]
fn scheduling_renewal_does_not_panic_for_known_connection() {
    let common = single(WebsocketConnection::new("known"));
    let place = common.find_connection(&"known".to_string()).unwrap();
    let url = common.get_reconnect_url("wss://example", place, None);
    let entry = common.reconnect_entry(place, url, true);
    assert_eq!(entry.connection_id, "known");
    assert_eq!(entry.url, "wss://example");
    assert!(entry.is_renewal);
    assert_eq!(MAX_CONN_SECONDS, 23 * 60 * 60);
}

#[test]
fn scheduling_renewal_ignored_for_unknown_connection() {
    let common = single(WebsocketConnection::new("c1"));
    assert_eq!(common.find_connection(&"other".to_string()), None);
}

#[test]
fn init_connect_is_not_skipped_when_reconnection_pending() {
    let mut connection = with_writer("c-reconnect", 1);
    connection.state.reconnection_pending = true;
    let mut common = single(connection);
    assert_eq!(common.init_connect(false, Some(0)), Ok(Some(0)));
    common.finish_connect(0, "ws://127.0.0.1", Ok(2)).unwrap();
    assert_eq!(common.connection_pool[0].state.ws_write_tx, Some(2));
    assert!(!common.connection_pool[0].state.reconnection_pending);
}

#[test]
fn pending_request_is_resolved_on_socket_drop() {
    let mut common = single(WebsocketConnection::new("c1"));
    assert_eq!(common.init_connect(false, Some(0)), Ok(Some(0)));
    common.finish_connect(0, "ws://127.0.0.1", Ok(3)).unwrap();
    let dispatch = common
        .send(
            "{\"id\":\"req-1\",\"method\":\"PING\"}".to_string(),
            Some("req-1".to_string()),
            true,
            41,
            Some(0),
        )
        .unwrap();
    assert_eq!(dispatch.writer, 3);
    assert_eq!(common.finish_send(0, &dispatch.request_id, true), Ok(true));
    assert_eq!(common.expire_request(0, &"req-1".to_string()), Some(41));
    assert!(common.connection_pool[0].state.pending_requests.is_empty());
    assert_eq!(common.expire_request(0, &"req-1".to_string()), None);
}

#[test]
fn is_connection_ready() {
    let common = single(WebsocketConnection::new("c1"));
    assert!(!common.is_connection_ready(0, false));
    assert!(common.is_connection_ready(0, true));
}

#[test]
fn connection_ready_basic() {
    let common = single(create_connection("c1", true, false, false, false));
    assert!(common.is_connection_ready(0, false));
}

#[test]
fn connection_not_ready_without_writer() {
    let common = single(create_connection("c1", false, false, false, false));
    assert!(!common.is_connection_ready(0, false));
    assert!(common.is_connection_ready(0, true));
}

#[test]
fn connection_not_ready_when_flagged() {
    let common = pool(
        vec![
            create_connection("c1", true, true, false, false),
            create_connection("c2", true, false, true, false),
            create_connection("c3", true, false, false, true),
        ],
        WebsocketMode::Pool(3),
    );
    assert!(!common.is_connection_ready(0, false));
    assert!(common.is_connection_ready(1, false));
    assert!(!common.is_connection_ready(2, false));
}

#[test]
fn with_pool_various_connections() {
    let common = pool(
        vec![
            create_connection("a", true, false, false, false),
            create_connection("b", false, false, false, false),
            create_connection("c", true, true, false, false),
        ],
        WebsocketMode::Pool(3),
    );
    assert!(common.is_connected(None));
    assert!(common.is_connected(Some(0)));
    assert!(!common.is_connected(Some(1)));
    assert!(!common.is_connected(Some(2)));
}

#[test]
fn with_pool_all_bad_connections() {
    let common = pool(
        vec![
            create_connection("c1", false, false, false, false),
            create_connection("c2", true, true, false, false),
            create_connection("c3", true, false, false, true),
        ],
        WebsocketMode::Pool(3),
    );
    assert!(!common.is_connected(None));
}

#[test]
fn with_pool_ignore_close_initiated() {
    let common = pool(
        vec![
            create_connection("c2", true, false, false, true),
            create_connection("c1", true, false, false, false),
            create_connection("c3", false, false, false, false),
        ],
        WebsocketMode::Pool(3),
    );
    assert!(common.is_connected(None));
    assert!(!common.is_connected(Some(0)));
}

#[test]
fn websocket_single_mode() {
    let common = pool(vec![], WebsocketMode::Single);
    assert_eq!(common.get_available_connections(false, None), vec![0]);
}

#[test]
fn single_mode_with_url_path_does_not_force_first_connection() {
    let mut first = WebsocketConnection::new("c1");
    first.state.url_path = Some("path1".to_string());
    let common = pool(
        vec![first, with_writer_on("c2", 2, "path1")],
        WebsocketMode::Single,
    );
    let connections = common.get_available_connections(false, Some("path1"));
    assert_eq!(connections.len(), 1);
    assert_eq!(common.connection_pool[connections[0]].id, "c2");
}

#[test]
fn websocket_pool_mode_not_ready() {
    let common = pool(vec![], WebsocketMode::Pool(2));
    assert!(common.get_available_connections(false, None).is_empty());
}

#[test]
fn websocket_pool_mode_with_ready() {
    let common = pool(
        vec![with_writer("c1", 1), WebsocketConnection::new("c2")],
        WebsocketMode::Pool(2),
    );
    assert!(common.get_available_connections(false, None).len() == 1);
}

#[test]
fn single_mode_hands_out_the_first() {
    let mut common = pool(vec![], WebsocketMode::Single);
    let place = common.get_connection(false, None).expect("should get connection");
    assert_eq!(common.connection_pool[place].id, common.connection_pool[0].id);
}

#[test]
fn single_mode_with_url_path_selects_matching_ready_connection() {
    let mut common = pool(
        vec![
            with_writer_on("c1", 1, "path2"),
            with_writer_on("c2", 2, "path1"),
        ],
        WebsocketMode::Single,
    );
    let chosen = common
        .get_connection(false, Some("path1"))
        .expect("should get connection");
    assert_eq!(common.connection_pool[chosen].id, "c2");
}

#[test]
fn pool_mode_not_ready() {
    let mut common = pool(vec![], WebsocketMode::Pool(2));
    assert!(matches!(
        common.get_connection(false, None),
        Err(WebsocketError::NotConnected)
    ));
    assert_eq!(common.round_robin_index, 0);
}

#[test]
fn pool_mode_with_ready() {
    let mut common = pool(
        vec![with_writer("c1", 1), WebsocketConnection::new("c2")],
        WebsocketMode::Pool(2),
    );
    let result = common.get_connection(false, None);
    assert!(result.is_ok());
    assert_eq!(common.connection_pool[result.unwrap()].id, "c1");
}

#[test]
fn pool_mode_with_url_path_filters_connections() {
    let mut common = pool(
        vec![
            with_writer_on("c1", 1, "path1"),
            with_writer_on("c2", 2, "path2"),
        ],
        WebsocketMode::Pool(2),
    );
    let chosen = common
        .get_connection(false, Some("path2"))
        .expect("should pick ready connection for path2");
    assert_eq!(common.connection_pool[chosen].id, "c2");
}

#[test]
fn url_path_no_match_returns_not_connected() {
    let mut common = pool(vec![with_writer_on("c1", 1, "path1")], WebsocketMode::Pool(1));
    assert!(matches!(
        common.get_connection(false, Some("path2")),
        Err(WebsocketError::NotConnected)
    ));
}

#[test]
fn turns_reach_every_candidate_once() {
    let mut common = pool(
        vec![
            with_writer("c1", 1),
            WebsocketConnection::new("c2"),
            with_writer("c3", 3),
            with_writer("c4", 4),
        ],
        WebsocketMode::Pool(4),
    );
    let turns: Vec<usize> = (0..6)
        .map(|_| common.get_connection(false, None).unwrap())
        .collect();
    assert_eq!(turns, vec![0, 2, 3, 0, 2, 3]);
}

#[test]
fn the_count_of_turns_wraps_around() {
    let mut common = pool(
        vec![with_writer("c1", 1), with_writer("c2", 2)],
        WebsocketMode::Pool(2),
    );
    common.round_robin_index = usize::MAX;
    assert_eq!(common.get_connection(false, None), Ok(1));
    assert_eq!(common.round_robin_index, 0);
    assert_eq!(common.get_connection(false, None), Ok(0));
}

#[test]
fn waits_for_pending_requests_then_closes() {
    let mut connection = WebsocketConnection::new("c1");
    connection
        .state
        .pending_requests
        .insert("r".to_string(), PendingRequest { completion: 1 });
    let mut common = single(connection);
    assert!(!common.can_close(0, false));
    common.connection_pool[0].state.pending_requests.clear();
    assert!(common.can_close(0, false));
}

#[test]
fn force_closes_after_timeout() {
    let mut connection = WebsocketConnection::new("c2");
    connection
        .state
        .pending_requests
        .insert("request_id".to_string(), PendingRequest { completion: 1 });
    let common = single(connection);
    assert!(!common.can_close(0, false));
    assert!(common.can_close(0, true));
    assert_eq!(CLOSE_WAIT_SECONDS, 30);
    assert_eq!(NORMAL_CLOSE_CODE, 1000);
}

#[test]
fn returns_default_when_no_handler() {
    let common = single(WebsocketConnection::new("c1"));
    assert_eq!(common.get_reconnect_url("wss://default", 0, None), "wss://default");
}

#[test]
fn returns_handler_url_when_set() {
    let mut connection = WebsocketConnection::new("c2");
    connection.set_handler(9);
    let common = single(connection);
    assert_eq!(common.handler_of(0), Some(9));
    let result = common.get_reconnect_url("wss://default", 0, Some("wss://custom".into()));
    assert_eq!(result, "wss://custom");
}

#[test]
fn emits_open_and_calls_handler() {
    let mut connection = WebsocketConnection::new("c1");
    connection.set_handler(5);
    let mut common = single(connection);
    common.events.subscribe(1);
    assert_eq!(common.handler_of(0), Some(5));
    assert_eq!(common.on_open(0, None), OpenStep::Announce);
    assert_eq!(
        common.events.emit(&WebsocketEvent::Open),
        vec![(1, WebsocketEvent::Open)]
    );
}

#[test]
fn handles_renewal_pending_and_closes_old_writer() {
    let mut connection = WebsocketConnection::new("c2");
    connection.state.renewal_pending = true;
    let mut common = single(connection);
    assert_eq!(common.on_open(0, Some(8)), OpenStep::Close(8));
    assert!(!common.connection_pool[0].state.renewal_pending);
}

#[test]
fn a_renewal_without_an_old_writer_closes_nothing() {
    let mut connection = WebsocketConnection::new("c2");
    connection.state.renewal_pending = true;
    let mut common = single(connection);
    assert_eq!(common.on_open(0, None), OpenStep::Nothing);
}

#[test]
fn a_connection_closed_in_the_meantime_is_closed_again() {
    let mut common = single(create_connection("c1", true, false, false, true));
    assert_eq!(common.on_open(0, Some(8)), OpenStep::Close(1));
    let mut without = single(create_connection("c1", false, false, false, true));
    assert_eq!(without.on_open(0, Some(8)), OpenStep::Nothing);
}

/// The event that is delivered to the subscribers to text messages.
fn message_event(common: &WebsocketCommon, time: Option<u128>) -> WebsocketMessageEvent {
    match common.on_message("payload".into(), 0, time).remove(0) {
        MessageAction::Deliver(mut deliveries) => deliveries.remove(0).1,
        other => panic!("expected a delivery, got {other:?}"),
    }
}

#[test]
fn emits_message_event_without_handler() {
    let mut common = single(WebsocketConnection::new("c1"));
    common.events.subscribe(1);
    let actions = common.on_message("msg".into(), 0, Some(1));
    assert_eq!(actions.len(), 2);
    assert!(matches!(&actions[0], MessageAction::Deliver(deliveries) if deliveries.is_empty()));
    match &actions[1] {
        MessageAction::Tell(event) => {
            assert_eq!(*event, WebsocketEvent::Message("msg".into()));
            let told = common.events.emit(event);
            assert_eq!(told, vec![(1, WebsocketEvent::Message("msg".into()))]);
        }
        other => panic!("expected to tell, got {other:?}"),
    }
}

#[test]
fn emits_message_with_connection_metadata() {
    let mut connection = WebsocketConnection::new("connection-1");
    connection.state.url_path = Some("public".to_string());
    let mut common = single(connection);
    common.subscribe_on_message_events(4);
    let event = message_event(&common, Some(1_700_000_000_000));
    assert_eq!(event.payload, "payload");
    assert_eq!(event.connection_id, "connection-1");
    assert_eq!(event.url_path.as_deref(), Some("public"));
    assert_eq!(event.received_at_ms, 1_700_000_000_000);
    assert!(event.received_at_ms > 0);
}

#[test]
fn message_times_stay_in_range() {
    let mut common = single(WebsocketConnection::new("c"));
    common.subscribe_on_message_events(4);
    assert_eq!(message_event(&common, None).received_at_ms, 0);
    assert_eq!(message_event(&common, Some(u128::MAX)).received_at_ms, i64::MAX);
    assert_eq!(
        message_event(&common, Some(i64::MAX as u128)).received_at_ms,
        i64::MAX
    );
}

#[test]
fn calls_handler_and_emits_message() {
    let mut connection = WebsocketConnection::new("c2");
    connection.set_handler(6);
    let mut common = single(connection);
    common.events.subscribe(1);
    let actions = common.on_message("msg".into(), 0, Some(1));
    assert_eq!(actions.len(), 3);
    assert!(matches!(
        &actions[1],
        MessageAction::Handle { handler: 6, text } if text == "msg"
    ));
    assert!(matches!(
        &actions[2],
        MessageAction::Tell(WebsocketEvent::Message(text)) if text == "msg"
    ));
}

/// Does what is to be done about messages, one thing after the other. Answers
/// what the handler was handed and what the subscribers were told.
fn run(common: &WebsocketCommon, count: usize) -> (Vec<String>, Vec<String>) {
    let mut handled = Vec::new();
    let mut told = Vec::new();
    for i in 0..count {
        for action in common.on_message(format!("msg_{i}"), 0, None) {
            match action {
                MessageAction::Deliver(deliveries) => assert!(deliveries.is_empty()),
                MessageAction::Handle { handler, text } => {
                    assert_eq!(handler, 6);
                    assert_eq!(told.len(), handled.len());
                    handled.push(text);
                }
                MessageAction::Tell(WebsocketEvent::Message(text)) => {
                    assert_eq!(told.len() + 1, handled.len());
                    told.push(text);
                }
                MessageAction::Tell(other) => panic!("unexpected event {other:?}"),
            }
        }
    }
    (handled, told)
}

#[test]
fn preserves_message_order() {
    let mut connection = WebsocketConnection::new("c3");
    connection.set_handler(6);
    let (handled, told) = run(&single(connection), 20);
    let expected: Vec<String> = (0..20).map(|i| format!("msg_{i}")).collect();
    assert_eq!(handled, expected);
    assert_eq!(told, expected);
}

#[test]
fn preserves_order_with_slow_handler() {
    let mut connection = WebsocketConnection::new("c4");
    connection.set_handler(6);
    let (handled, told) = run(&single(connection), 10);
    let expected: Vec<String> = (0..10).map(|i| format!("msg_{i}")).collect();
    assert_eq!(handled, expected);
    assert_eq!(told, expected);
}

#[test]
fn pool_mode_none_connection_uses_first() {
    let mut common = pool(
        vec![WebsocketConnection::new("c1"), WebsocketConnection::new("c2")],
        WebsocketMode::Pool(2),
    );
    let place = common.init_connect(false, None).unwrap().unwrap();
    common.finish_connect(place, "ws://127.0.0.1", Ok(1)).unwrap();
    assert!(common.connection_pool[0].state.ws_write_tx.is_some());
    assert!(common.connection_pool[1].state.ws_write_tx.is_none());
}

#[test]
fn connects_all_in_pool() {
    let pool_size = 3;
    let connections = (0..pool_size)
        .map(|i| WebsocketConnection::new(&format!("c{i}")))
        .collect();
    let mut common = pool(connections, WebsocketMode::Pool(pool_size));
    for place in common.all_connections() {
        assert_eq!(common.init_connect(false, Some(place)), Ok(Some(place)));
        common.finish_connect(place, "ws://127.0.0.1", Ok(place as u64)).unwrap();
    }
    for connection in &common.connection_pool {
        assert!(connection.state.ws_write_tx.is_some());
    }
}

#[test]
fn init_connect_invoked_for_each() {
    let mut common = pool(
        vec![WebsocketConnection::new("c0"), WebsocketConnection::new("c1")],
        WebsocketMode::Pool(2),
    );
    assert_eq!(common.all_connections(), vec![0, 1]);
    for place in common.all_connections() {
        assert_eq!(common.init_connect(false, Some(place)), Ok(Some(place)));
    }
}

#[test]
fn single_mode_uses_first_connection() {
    let mut common = single(WebsocketConnection::new("c1"));
    for place in common.all_connections() {
        let place = common.init_connect(false, Some(place)).unwrap().unwrap();
        common.finish_connect(place, "ws://127.0.0.1", Ok(1)).unwrap();
    }
    assert!(common.connection_pool[0].state.ws_write_tx.is_some());
}

#[test]
fn writer_channel_can_send_text() {
    let mut common = single(WebsocketConnection::new("c-text"));
    common.init_connect(false, Some(0)).unwrap();
    common.finish_connect(0, "ws://127.0.0.1", Ok(12)).unwrap();
    let dispatch = common.send("ping".into(), None, false, 0, Some(0)).unwrap();
    assert_eq!(dispatch.writer, 12);
    assert_eq!(dispatch.payload, "ping");
}

#[test]
fn does_not_skip_when_reconnection_pending_even_if_writer_exists() {
    let mut connection = with_writer("c-reconnect", 1);
    connection.state.reconnection_pending = true;
    let mut common = single(connection);
    let place = common.init_connect(false, Some(0)).unwrap().expect("not skipped");
    let opened = common.finish_connect(place, "ws://127.0.0.1", Ok(2)).unwrap();
    assert_eq!(opened.old_writer, Some(1));
    assert!(common.connection_pool[0].state.ws_write_tx.is_some());
    assert!(!common.connection_pool[0].state.reconnection_pending);
}

#[test]
fn responds_to_ping_with_pong() {
    let mut common = single(with_writer("c-ping", 3));
    match common.on_frame(0, false, Frame::Ping(vec![1, 2, 3])) {
        FrameStep::Ping { reply, payload } => {
            assert_eq!(reply, Some(3));
            assert_eq!(payload, vec![1, 2, 3]);
        }
        other => panic!("expected a ping, got {other:?}"),
    }
    assert!(matches!(common.on_frame(0, false, Frame::Pong), FrameStep::Pong));
    assert!(matches!(common.on_frame(0, false, Frame::Other), FrameStep::Nothing));
}

#[test]
fn handshake_error_on_invalid_url() {
    let mut common = single(WebsocketConnection::new("c-invalid"));
    let place = common.init_connect(false, Some(0)).unwrap().unwrap();
    let outcome = handshake_outcome(Some(Err("invalid url".into())));
    let res = common.finish_connect(place, "not-a-url", outcome);
    assert!(matches!(res, Err(WebsocketError::Handshake(_))));
    assert!(common.connection_pool[0].state.ws_write_tx.is_none());
}

#[test]
fn handshakes_that_take_too_long_time_out() {
    assert_eq!(handshake_outcome(None), Err(WebsocketError::Timeout));
    assert_eq!(handshake_outcome(Some(Ok(4))), Ok(4));
    assert_eq!(CONNECT_WAIT_SECONDS, 10);
    assert_eq!(RECONNECT_PAUSE_SECONDS, 1);
}

#[test]
fn skip_if_writer_exists_and_not_renewal() {
    let mut common = single(with_writer("c-writer", 1));
    assert_eq!(common.init_connect(false, Some(0)), Ok(None));
}

#[test]
fn short_circuit_on_already_renewing() {
    let mut connection = WebsocketConnection::new("c-renew");
    connection.state.renewal_pending = true;
    let mut common = single(connection);
    assert_eq!(common.init_connect(true, Some(0)), Ok(None));
    assert!(common.connection_pool[0].state.ws_write_tx.is_none());
}

#[test]
fn is_renewal_true_sets_and_clears_flag() {
    let mut connection = WebsocketConnection::new("c-new-renew");
    connection.set_handler(1);
    let mut common = single(connection);
    let place = common.init_connect(true, Some(0)).unwrap().unwrap();
    let opened = common.finish_connect(place, "ws://127.0.0.1", Ok(2)).unwrap();
    assert!(common.connection_pool[0].state.ws_write_tx.is_some());
    assert!(common.connection_pool[0].state.renewal_pending);
    common.on_open(0, opened.old_writer);
    assert!(!common.connection_pool[0].state.renewal_pending);
}

#[test]
fn does_not_schedule_reconnect_on_renewal() {
    let mut common = single(WebsocketConnection::new("c-needs-renew"));
    common.init_connect(false, Some(0)).unwrap();
    common.finish_connect(0, "ws://127.0.0.1", Ok(1)).unwrap();
    assert_eq!(common.init_connect(true, Some(0)), Ok(Some(0)));
    common.finish_connect(0, "ws://127.0.0.1", Ok(2)).unwrap();
    let error = TungsteniteError::Protocol(ProtocolError::ResetWithoutClosingHandshake);
    let failed = common.on_read_error(0, true, &error, error.to_string());
    assert!(!failed.failure.reconnect);
    assert!(!common.on_stream_end(0, true, Some(failed.failure.reason)));
    assert!(!common.connection_pool[0].state.reconnection_pending);
}

#[test]
fn default_connection_selected_when_none_passed() {
    let mut common = single(WebsocketConnection::new("c-default"));
    let place = common.init_connect(false, None).unwrap().unwrap();
    common.finish_connect(place, "ws://127.0.0.1", Ok(1)).unwrap();
    assert!(common.connection_pool[0].state.ws_write_tx.is_some());
}

#[test]
fn schedules_reconnect_on_abnormal_close() {
    let mut common = WebsocketCommon::new(
        vec![WebsocketConnection::new("c-close")],
        WebsocketMode::Single,
        5_000,
        None,
        &fresh_ids(0),
    );
    common.init_connect(false, Some(0)).unwrap();
    common.finish_connect(0, "ws://127.0.0.1", Ok(1)).unwrap();
    let error = TungsteniteError::Protocol(ProtocolError::ResetWithoutClosingHandshake);
    let failed = common.on_read_error(0, false, &error, error.to_string());
    assert_eq!(failed.event, WebsocketEvent::Error(error.to_string()));
    assert_eq!(
        failed.failure.reason,
        WebsocketConnectionFailureReason::UnexpectedClose
    );
    assert!(failed.failure.reconnect);
    assert!(failed.failure.event.is_none());
    assert!(common.on_stream_end(0, false, Some(failed.failure.reason)));
    assert!(common.connection_pool[0].state.reconnection_pending);
    assert!(common.connection_pool[0].state.ws_write_tx.is_none());
}

#[test]
fn a_lost_connection_is_opened_though_none_can_be_handed_out() {
    let mut common = pool(
        vec![create_connection("c1", false, true, false, false)],
        WebsocketMode::Pool(1),
    );
    assert_eq!(
        common.init_connect(false, None),
        Err(WebsocketError::NotConnected)
    );
    assert_eq!(common.init_connect(false, Some(0)), Ok(Some(0)));
    let outcome = handshake_outcome(Some(Err("invalid url".into())));
    let res = common.finish_connect(0, "not-a-url", outcome);
    assert!(matches!(res, Err(WebsocketError::Handshake(_))));
    assert_eq!(common.init_connect(false, Some(0)), Ok(Some(0)));
    common.finish_connect(0, "ws://127.0.0.1", Ok(3)).unwrap();
    assert!(common.is_connection_ready(0, false));
    assert_eq!(common.round_robin_index, 0);
}

#[test]
fn a_wholly_lost_pool_is_opened_again_by_its_entries() {
    let mut common = pool(
        vec![with_writer("c1", 1), with_writer("c2", 2)],
        WebsocketMode::Pool(2),
    );
    assert!(common.on_stream_end(0, false, None));
    assert!(common.on_stream_end(1, false, None));
    assert!(!common.is_connected(None));
    for place in common.all_connections() {
        let entry = common.reconnect_entry(place, "ws://127.0.0.1".into(), false);
        let found = common.find_connection(&entry.connection_id).unwrap();
        assert_eq!(common.init_connect(entry.is_renewal, Some(found)), Ok(Some(place)));
        common.finish_connect(found, &entry.url, Ok(5)).unwrap();
        assert!(common.is_connected(Some(place)));
    }
}

#[test]
fn an_attempt_to_open_ends_the_session() {
    let mut connection = WebsocketConnection::new("c1");
    connection.state.is_session_logged_on = true;
    let mut common = single(connection);
    common.init_connect(false, Some(0)).unwrap();
    assert!(!common.connection_pool[0].state.is_session_logged_on);
}

#[test]
fn a_turn_is_taken_only_where_no_connection_is_given() {
    let mut common = pool(
        vec![WebsocketConnection::new("c1"), WebsocketConnection::new("c2")],
        WebsocketMode::Pool(2),
    );
    assert_eq!(common.init_connect(false, Some(1)), Ok(Some(1)));
    assert_eq!(common.round_robin_index, 0);
    assert_eq!(common.init_connect(false, None), Ok(Some(0)));
    assert_eq!(common.round_robin_index, 1);
}

#[test]
fn permanent_failures_are_reported() {
    let mut common = single(with_writer("c9", 1));
    let frame = Frame::Close(Some((1008, "policy".into())));
    match common.on_frame(0, false, frame) {
        FrameStep::Closed { event, failure } => {
            assert_eq!(event, WebsocketEvent::Close(1008, "policy".into()));
            assert_eq!(
                failure.reason,
                WebsocketConnectionFailureReason::PermanentServerError
            );
            assert!(!failure.reconnect);
            assert_eq!(
                failure.event,
                Some(WebsocketEvent::Error(
                    "[CRITICAL] Connection c9 permanently failed: PermanentServerError".into()
                ))
            );
        }
        other => panic!("expected a close, got {other:?}"),
    }
    assert!(!common.connection_pool[0].state.reconnection_pending);
}

#[test]
fn a_close_without_a_frame_is_a_normal_one() {
    let mut common = single(with_writer("c9", 1));
    match common.on_frame(0, false, Frame::Close(None)) {
        FrameStep::Closed { event, failure } => {
            assert_eq!(event, WebsocketEvent::Close(1000, String::new()));
            assert_eq!(failure.reason, WebsocketConnectionFailureReason::NormalClose);
        }
        other => panic!("expected a close, got {other:?}"),
    }
}

#[test]
fn a_recoverable_close_is_answered_by_opening_again() {
    let mut connection = with_writer("c9", 1);
    connection.state.is_session_logged_on = true;
    let mut common = single(connection);
    match common.on_frame(0, false, Frame::Close(Some((1001, "bye".into())))) {
        FrameStep::Closed { failure, .. } => {
            assert!(failure.reconnect);
            assert!(failure.event.is_none());
        }
        other => panic!("expected a close, got {other:?}"),
    }
    assert!(common.connection_pool[0].state.reconnection_pending);
    assert!(!common.connection_pool[0].state.is_session_logged_on);
    assert_eq!(common.connection_pool[0].state.ws_write_tx, Some(1));
}

#[test]
fn write_errors_are_answered_like_read_errors() {
    let mut common = single(with_writer("c9", 1));
    assert!(!common.on_write_error(0, false, &TungsteniteError::Utf8));
    assert!(!common.on_write_error(0, true, &TungsteniteError::ConnectionClosed));
    assert!(common.on_write_error(0, false, &TungsteniteError::ConnectionClosed));
    assert!(common.connection_pool[0].state.reconnection_pending);
}

#[test]
fn a_stream_that_just_ends_is_opened_again() {
    let mut common = single(with_writer("c9", 1));
    assert!(common.on_stream_end(0, false, None));
    assert!(common.connection_pool[0].state.ws_write_tx.is_none());
    let mut closing = single(create_connection("c9", true, false, false, true));
    assert!(!closing.on_stream_end(0, false, None));
    assert_eq!(closing.connection_pool[0].state.ws_write_tx, Some(1));
}

#[test]
fn text_frames_are_messages() {
    let mut common = single(with_writer("c9", 1));
    match common.on_frame(0, false, Frame::Text("hi".into())) {
        FrameStep::Message(text) => assert_eq!(text, "hi"),
        other => panic!("expected a message, got {other:?}"),
    }
}

#[test]
fn binary_frames_are_decompressed() {
    // The zlib stream of "hello websocket", as stored blocks.
    let text = b"hello websocket";
    let mut data = vec![0x78, 0x01, 0x01, text.len() as u8, 0, !(text.len() as u8), 0xff];
    data.extend_from_slice(text);
    let (mut a, mut b) = (1u32, 0u32);
    for byte in text {
        a = (a + u32::from(*byte)) % 65521;
        b = (b + a) % 65521;
    }
    data.extend_from_slice(&((b << 16) | a).to_be_bytes());
    let mut common = single(with_writer("c9", 1));
    match common.on_frame(0, false, Frame::Binary(data)) {
        FrameStep::Message(text) => assert_eq!(text, "hello websocket"),
        other => panic!("expected a message, got {other:?}"),
    }
    let garbage = common.on_frame(0, false, Frame::Binary(vec![1, 2, 3]));
    assert!(matches!(garbage, FrameStep::Nothing));
}

#[test]
fn returns_ok_when_no_connections_are_ready() {
    let mut common = single(WebsocketConnection::new("c1"));
    assert!(common.disconnect().is_none());
    assert!(!common.connection_pool[0].state.close_initiated);
}

#[test]
fn closes_all_ready_connections() {
    let mut common = pool(
        vec![with_writer("c1", 1), with_writer("c2", 2)],
        WebsocketMode::Pool(2),
    );
    common.connection_pool[0].state.is_session_logged_on = true;
    let open = common.disconnect().expect("in use");
    assert_eq!(open, vec![(0, 1), (1, 2)]);
    assert!(common.can_close(0, false));
    assert!(common.can_close(1, false));
    assert_eq!(common.finish_disconnect(Some(Ok(()))), Ok(()));
    for connection in &common.connection_pool {
        assert!(connection.state.close_initiated);
        assert!(!connection.state.is_session_logged_on);
        assert!(connection.state.session_logon_req.is_none());
    }
}

#[test]
fn does_not_mark_close_initiated_if_no_writer() {
    let mut common = single(WebsocketConnection::new("c-new"));
    assert!(common.disconnect().is_none());
    assert!(!common.connection_pool[0].state.close_initiated);
}

#[test]
fn mixed_pool_marks_all_and_closes_only_writers() {
    let mut common = pool(
        vec![with_writer("with", 1), WebsocketConnection::new("without")],
        WebsocketMode::Pool(2),
    );
    assert_eq!(common.disconnect(), Some(vec![(0, 1)]));
    assert!(common.connection_pool[0].state.close_initiated);
    assert!(common.connection_pool[1].state.close_initiated);
}

#[test]
fn after_disconnect_not_connected() {
    let mut common = single(with_writer("c1", 1));
    common.disconnect().unwrap();
    common.finish_disconnect(Some(Ok(()))).unwrap();
    assert!(!common.is_connected(Some(0)));
}

#[test]
fn a_slow_disconnect_times_out() {
    let mut common = single(with_writer("c1", 1));
    common.connection_pool[0].state.is_session_logged_on = true;
    common.disconnect().unwrap();
    assert_eq!(common.finish_disconnect(None), Err(WebsocketError::Timeout));
    assert!(common.connection_pool[0].state.is_session_logged_on);
    assert_eq!(
        common.finish_disconnect(Some(Err(WebsocketError::NoResponse))),
        Err(WebsocketError::NoResponse)
    );
}

#[test]
fn sends_ping_to_all_ready_connections() {
    let connections = (0..3).map(|i| with_writer(&format!("c{i}"), i)).collect();
    let common = pool(connections, WebsocketMode::Pool(3));
    assert_eq!(
        common.ping_server(),
        vec![("c0".to_string(), 0), ("c1".to_string(), 1), ("c2".to_string(), 2)]
    );
}

#[test]
fn skips_not_ready_and_partial() {
    let common = pool(
        vec![with_writer("ready", 1), WebsocketConnection::new("not-ready")],
        WebsocketMode::Pool(2),
    );
    assert_eq!(common.ping_server(), vec![("ready".to_string(), 1)]);
}

#[test]
fn no_ping_when_flags_block() {
    let mut connection = with_writer("c1", 1);
    connection.state.reconnection_pending = true;
    let common = single(connection);
    assert!(common.ping_server().is_empty());
}

#[test]
fn round_robin_send_without_specific() {
    let mut common = pool(
        vec![with_writer("c1", 1), with_writer("c2", 2)],
        WebsocketMode::Pool(2),
    );
    let first = common.send("a".into(), None, false, 0, None).unwrap();
    assert!(first.request_id.is_none());
    let second = common.send("b".into(), None, false, 0, None).unwrap();
    assert!(second.request_id.is_none());
    assert_eq!((first.writer, first.payload.as_str()), (1, "a"));
    assert_eq!((second.writer, second.payload.as_str()), (2, "b"));
}

#[test]
fn round_robin_skips_not_ready() {
    let mut common = pool(
        vec![WebsocketConnection::new("c1"), with_writer("c2", 2)],
        WebsocketMode::Pool(2),
    );
    let dispatch = common.send("bar".into(), None, false, 0, None).unwrap();
    assert!(dispatch.request_id.is_none());
    assert_eq!(dispatch.writer, 2);
    assert_eq!(dispatch.payload, "bar");
}

#[test]
fn sync_send_on_specific_connection() {
    let mut common = pool(
        vec![WebsocketConnection::new("c1"), with_writer("c2", 2)],
        WebsocketMode::Pool(2),
    );
    let dispatch = common
        .send("payload".into(), Some("id".into()), false, 0, Some(1))
        .unwrap();
    assert!(dispatch.request_id.is_none());
    assert_eq!(dispatch.writer, 2);
    assert_eq!(dispatch.payload, "payload");
    assert_eq!(common.finish_send(1, &dispatch.request_id, true), Ok(false));
}

#[test]
fn sync_send_with_id_does_not_insert_pending() {
    let mut common = single(with_writer("c1", 1));
    let dispatch = common
        .send("msg".into(), Some("id".into()), false, 0, Some(0))
        .unwrap();
    assert!(dispatch.request_id.is_none());
    assert!(common.connection_pool[0].state.pending_requests.is_empty());
    assert_eq!(dispatch.payload, "msg");
}

#[test]
fn sync_send_error_if_not_ready() {
    let mut common = single(WebsocketConnection::new("c1"));
    let err = common
        .send("msg".into(), Some("id".into()), false, 0, Some(0))
        .unwrap_err();
    assert!(matches!(err, WebsocketError::NotConnected));
}

#[test]
fn sync_send_error_when_no_ready() {
    let mut common = single(WebsocketConnection::new("c1"));
    let err = common.send("msg".into(), None, false, 0, None).unwrap_err();
    assert!(matches!(err, WebsocketError::NotConnected));
}

#[test]
fn async_send_and_receive() {
    let mut common = single(with_writer("c1", 1));
    let dispatch = common
        .send("hello".into(), Some("id".into()), true, 77, Some(0))
        .unwrap();
    assert_eq!(dispatch.payload, "hello");
    assert_eq!(dispatch.request_id.as_deref(), Some("id"));
    assert_eq!(common.finish_send(0, &dispatch.request_id, true), Ok(true));
    let pending = common.connection_pool[0]
        .state
        .pending_requests
        .remove(&"id".to_string())
        .unwrap();
    assert_eq!(pending.completion, 77);
}

#[test]
fn async_send_default_connection() {
    let mut common = single(with_writer("c1", 1));
    let dispatch = common
        .send("msg".into(), Some("id".into()), true, 78, None)
        .unwrap();
    assert_eq!(dispatch.connection, 0);
    assert_eq!(dispatch.payload, "msg");
    let pending = common.connection_pool[0]
        .state
        .pending_requests
        .remove(&"id".to_string())
        .unwrap();
    assert_eq!(pending.completion, 78);
}

#[test]
fn async_send_failure_removes_pending_entry() {
    let mut common = single(with_writer("c1", 1));
    let dispatch = common
        .send("msg".into(), Some("id".into()), true, 1, Some(0))
        .unwrap();
    assert!(!common.connection_pool[0].state.pending_requests.is_empty());
    let err = common.finish_send(0, &dispatch.request_id, false).unwrap_err();
    assert!(matches!(err, WebsocketError::NotConnected));
    assert!(common.connection_pool[0].state.pending_requests.is_empty());
}

#[test]
fn async_send_error_if_no_id() {
    let mut common = single(with_writer("c§", 1));
    let err = common.send("msg".into(), None, true, 1, Some(0)).unwrap_err();
    assert!(matches!(err, WebsocketError::NotConnected));
}

#[test]
fn timeout_rejects_async() {
    let mut common = single(with_writer("c1", 1));
    let dispatch = common
        .send("msg".into(), Some("id".into()), true, 5, Some(0))
        .unwrap();
    common.finish_send(0, &dispatch.request_id, true).unwrap();
    assert_eq!(common.expire_request(0, &"id".to_string()), Some(5));
    assert!(!common.connection_pool[0]
        .state
        .pending_requests
        .contains_key(&"id".to_string()));
}

#[test]
fn async_send_errors_if_no_connection_ready() {
    let mut common = single(WebsocketConnection::new("c1"));
    let err = common
        .send("msg".into(), Some("id".into()), true, 1, None)
        .unwrap_err();
    assert!(matches!(err, WebsocketError::NotConnected));
}
