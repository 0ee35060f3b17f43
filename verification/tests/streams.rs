use serde_json::Value;
use websocket_common::connection::WebsocketConnection;
use websocket_common::handshake::{handshake_request, HandshakeStep};
use websocket_common::lifecycle::ConnectStep;
use websocket_common::models::{
    normalize_stream_id, ConfigurationWebsocketStreams, StreamId, TimeUnit, WebsocketError,
    WebsocketMode,
};
use websocket_common::streams::WebsocketStreams;

const FRESH: &str = "0123456789abcdefABCDEF0123456789";

fn json(text: &str) -> Value {
    serde_json::from_str(text).unwrap()
}

fn configuration(url: &str, mode: WebsocketMode) -> ConfigurationWebsocketStreams {
    ConfigurationWebsocketStreams {
        ws_url: Some(url.to_string()),
        mode,
        reconnect_delay: 500,
        time_unit: None,
        user_agent: "product".to_string(),
    }
}

fn fresh_ids() -> Vec<String> {
    (0..4).map(|i| format!("fresh{i}")).collect()
}

fn two_connections() -> Vec<WebsocketConnection> {
    vec![WebsocketConnection::new("c1"), WebsocketConnection::new("c2")]
}

fn create_websocket_streams(
    ws_url: Option<&str>,
    conns: Option<Vec<WebsocketConnection>>,
    url_paths: Option<Vec<String>>,
) -> WebsocketStreams {
    WebsocketStreams::new(
        configuration(ws_url.unwrap_or("example.com"), WebsocketMode::Single),
        conns.unwrap_or_else(two_connections),
        url_paths.unwrap_or_default(),
        &fresh_ids(),
    )
}

fn names(streams: &[&str]) -> Vec<String> {
    streams.iter().map(|s| s.to_string()).collect()
}

fn follow(ws: &mut WebsocketStreams, key: &str, place: usize) {
    ws.connection_streams.insert(key.to_string(), place);
}

fn follows(ws: &WebsocketStreams, key: &str) -> bool {
    ws.connection_streams.contains_key(&key.to_string())
}

fn callbacks(ws: &mut WebsocketStreams, place: usize, key: &str, list: Vec<u64>) {
    ws.common.connection_pool[place]
        .state
        .stream_callbacks
        .insert(key.to_string(), list);
}

fn has_callback_list(ws: &WebsocketStreams, place: usize, key: &str) -> bool {
    ws.common.connection_pool[place]
        .state
        .stream_callbacks
        .contains_key(&key.to_string())
}

fn put_on_path(ws: &mut WebsocketStreams, place: usize, path: &str) {
    ws.common.connection_pool[place].state.url_path = Some(path.to_string());
}

fn pending(ws: &WebsocketStreams, place: usize) -> Vec<String> {
    ws.common.connection_pool[place].state.pending_subscriptions.clone()
}

fn unsubscribe(ws: &mut WebsocketStreams, streams: &[&str], path: Option<&str>) -> Vec<Value> {
    ws.unsubscribe(names(streams), None, path, FRESH.to_string(), 9)
        .iter()
        .map(|message| json(&message.payload))
        .collect()
}

#[test]
fn new_initializes_fields() {
    let api = WebsocketStreams::new(
        configuration("wss://example", WebsocketMode::Pool(2)),
        two_connections(),
        vec![],
        &vec![],
    );
    assert_eq!(api.common.connection_pool.len(), 2);
    assert_eq!(api.common.connection_pool[0].id, "c1");
    assert_eq!(api.common.connection_pool[1].id, "c2");
    assert_eq!(api.configuration.ws_url, Some("wss://example".to_string()));
    assert!(!api.is_connecting);
    assert!(!api.stream_id_is_strictly_number);
}

#[test]
fn new_expands_pool_when_url_paths_present() {
    let api = WebsocketStreams::new(
        configuration("wss://example", WebsocketMode::Pool(2)),
        two_connections(),
        names(&["path1", "path2"]),
        &fresh_ids(),
    );
    assert_eq!(api.common.connection_pool.len(), 4);
    assert_eq!(api.common.connection_pool[0].id, "c1");
    assert_eq!(api.common.connection_pool[1].id, "c2");
    assert_eq!(api.common.connection_pool[2].id, "fresh0");
    assert_eq!(api.common.connection_pool[3].id, "fresh1");
}

#[test]
fn new_does_not_expand_pool_when_already_sized_for_url_paths() {
    let conns = ["c1", "c2", "c3", "c4"];
    let api = WebsocketStreams::new(
        configuration("wss://example", WebsocketMode::Pool(2)),
        conns.iter().map(|id| WebsocketConnection::new(id)).collect(),
        names(&["path1", "path2"]),
        &vec![],
    );
    assert_eq!(api.common.connection_pool.len(), 4);
    for (i, id) in conns.iter().enumerate() {
        assert_eq!(&api.common.connection_pool[i].id, id);
    }
}

#[test]
fn establishes_successfully() {
    let mut ws = WebsocketStreams::new(
        configuration("ws://127.0.0.1:80", WebsocketMode::Pool(2)),
        two_connections(),
        vec![],
        &vec![],
    );
    match ws.connect(&names(&["stream1"]), 5) {
        Ok(ConnectStep::Open(targets)) => {
            assert_eq!(targets.len(), 1);
            assert_eq!(targets[0].url, "ws://127.0.0.1:80/stream?streams=stream1");
            assert_eq!(targets[0].connections, vec![0, 1]);
        }
        other => panic!("expected to open, got {other:?}"),
    }
    assert_eq!(ws.common.connection_pool[1].state.handler, Some(5));
    for place in [0, 1] {
        assert_eq!(ws.common.init_connect(false, Some(place)), Ok(Some(place)));
        ws.common.finish_connect(place, "ws://127.0.0.1:80", Ok(place as u64)).unwrap();
    }
    assert!(ws.finish_connect(Some(Ok(()))).is_ok());
    assert!(!ws.is_connecting);
    assert!(ws.is_connected());
}

#[test]
fn success_means_that_a_connection_is_in_use() {
    let mut ws = create_websocket_streams(None, None, None);
    ws.connect(&names(&["s"]), 1).unwrap();
    assert_eq!(ws.finish_connect(Some(Ok(()))), Err(WebsocketError::NotConnected));
    ws.common.connection_pool[1].state.ws_write_tx = Some(1);
    assert_eq!(ws.finish_connect(Some(Ok(()))), Ok(()));
}

#[test]
fn establishes_successfully_with_url_paths() {
    let mut ws = WebsocketStreams::new(
        configuration("ws://127.0.0.1:80", WebsocketMode::Pool(2)),
        vec![],
        names(&["path1", "path2"]),
        &fresh_ids(),
    );
    match ws.connect(&names(&["stream1"]), 5) {
        Ok(ConnectStep::Open(targets)) => {
            assert_eq!(targets.len(), 2);
            assert_eq!(targets[0].url, "ws://127.0.0.1:80/path1/stream?streams=stream1");
            assert_eq!(targets[1].url, "ws://127.0.0.1:80/path2/stream?streams=stream1");
            assert_eq!(targets[0].connections, vec![0, 1]);
            assert_eq!(targets[1].connections, vec![2, 3]);
        }
        other => panic!("expected to open, got {other:?}"),
    }
    assert_eq!(ws.common.connection_pool.len(), 4);
}

#[test]
fn connect_sets_url_path_on_connections_when_url_paths_present() {
    let mut ws = WebsocketStreams::new(
        configuration("ws://127.0.0.1:80", WebsocketMode::Pool(2)),
        vec![],
        names(&["path1", "path2"]),
        &fresh_ids(),
    );
    ws.connect(&names(&["stream1"]), 5).unwrap();
    let pool_size = ws.configuration.mode.pool_size();
    for (i, conn) in ws.common.connection_pool.iter().enumerate() {
        let expected = if i < pool_size { "path1" } else { "path2" };
        assert_eq!(conn.state.url_path.as_deref(), Some(expected));
    }
}

#[test]
fn too_few_connections_for_the_paths_are_refused() {
    let mut ws = WebsocketStreams::new(
        configuration("ws://x", WebsocketMode::Pool(2)),
        vec![],
        names(&["path1", "path2"]),
        &fresh_ids(),
    );
    ws.common.connection_pool.pop();
    match ws.connect(&names(&["s"]), 5) {
        Err(WebsocketError::ServerError(text)) => assert_eq!(
            text,
            "connection_pool too small for url_paths: need 2 per path, got 1 for path index 1"
        ),
        other => panic!("expected an error, got {other:?}"),
    }
    assert!(!ws.is_connecting);
    assert_eq!(
        ws.common.connection_pool[1].state.url_path.as_deref(),
        Some("path1")
    );
    assert_eq!(ws.common.connection_pool[2].state.url_path, None);
}

#[test]
fn refused_returns_error() {
    let mut ws = create_websocket_streams(Some("ws://127.0.0.1:9"), None, None);
    assert!(matches!(ws.connect(&names(&["stream1"]), 1), Ok(ConnectStep::Open(_))));
    assert!(matches!(
        ws.connect(&names(&["stream1"]), 1),
        Ok(ConnectStep::AlreadyConnecting)
    ));
    let refused = Err(WebsocketError::Handshake("refused".into()));
    assert!(ws.finish_connect(Some(refused)).is_err());
    assert_eq!(ws.finish_connect(None), Err(WebsocketError::Timeout));
}

#[test]
fn invalid_url_returns_error() {
    let mut ws = create_websocket_streams(Some("not-a-url"), None, None);
    let targets = match ws.connect(&names(&["s"]), 1) {
        Ok(ConnectStep::Open(targets)) => targets,
        other => panic!("expected to open, got {other:?}"),
    };
    let refused = match handshake_request(&targets[0].url, &None) {
        HandshakeStep::Refuse(error) => error,
        other => panic!("expected a refusal, got {other:?}"),
    };
    assert!(ws.finish_connect(Some(Err(refused))).is_err());
}

#[test]
fn connected_clients_do_not_connect_again() {
    let mut ws = create_websocket_streams(None, None, None);
    ws.common.connection_pool[1].state.ws_write_tx = Some(1);
    assert!(matches!(
        ws.connect(&names(&["s"]), 1),
        Ok(ConnectStep::AlreadyConnected)
    ));
}

#[test]
fn disconnect_clears_state_and_streams() {
    let mut ws = create_websocket_streams(None, None, None);
    callbacks(&mut ws, 0, "s1", vec![]);
    ws.common.connection_pool[0]
        .state
        .pending_subscriptions
        .push("s2".to_string());
    follow(&mut ws, "s3", 0);
    assert_eq!(ws.disconnect(), None);
    assert!(ws.common.connection_pool[0].state.stream_callbacks.is_empty());
    assert!(ws.common.connection_pool[0].state.pending_subscriptions.is_empty());
    assert!(ws.connection_streams.is_empty());
}

#[test]
fn disconnect_closes_the_connections_in_use() {
    let mut ws = create_websocket_streams(None, None, None);
    ws.common.connection_pool[1].state.ws_write_tx = Some(7);
    assert!(ws.is_connected());
    assert_eq!(ws.ping_server(), vec![("c2".to_string(), 7)]);
    assert_eq!(ws.disconnect(), Some(vec![(1, 7)]));
    assert!(!ws.is_connected());
}

#[test]
fn websocket_empty_list_does_nothing() {
    let mut ws = create_websocket_streams(None, None, None);
    assert!(ws.subscribe(Vec::new(), None, None).is_empty());
    assert!(ws.connection_streams.is_empty());
}

#[test]
fn queue_when_not_ready() {
    let mut ws = create_websocket_streams(None, None, None);
    assert!(ws.subscribe(names(&["s1"]), None, None).is_empty());
    assert_eq!(pending(&ws, 0), vec!["s1".to_string()]);
}

#[test]
fn only_one_subscription_per_stream() {
    let mut ws = create_websocket_streams(None, None, None);
    ws.subscribe(names(&["s1"]), None, None);
    ws.subscribe(names(&["s1"]), None, None);
    assert_eq!(pending(&ws, 0), vec!["s1".to_string()]);
}

#[test]
fn multiple_streams_assigned() {
    let mut ws = create_websocket_streams(None, None, None);
    ws.subscribe(names(&["s1", "s2"]), None, None);
    assert!(follows(&ws, "s1"));
    assert!(follows(&ws, "s2"));
}

#[test]
fn existing_stream_not_reassigned() {
    let mut ws = create_websocket_streams(None, None, None);
    ws.subscribe(names(&["s1"]), None, None);
    let first = *ws.connection_streams.get(&"s1".to_string()).unwrap();
    ws.subscribe(names(&["s1", "s2"]), None, None);
    let second = *ws.connection_streams.get(&"s1".to_string()).unwrap();
    assert_eq!(first, second);
    assert!(follows(&ws, "s2"));
}

#[test]
fn queue_when_not_ready_with_url_path() {
    let mut ws = create_websocket_streams(None, None, None);
    put_on_path(&mut ws, 0, "path1");
    ws.subscribe(names(&["s1"]), None, Some("path1"));
    assert_eq!(pending(&ws, 0), vec!["s1".to_string()]);
}

#[test]
fn only_one_subscription_per_stream_per_url_path() {
    let mut ws = create_websocket_streams(None, None, None);
    put_on_path(&mut ws, 0, "path1");
    ws.subscribe(names(&["s1"]), None, Some("path1"));
    ws.subscribe(names(&["s1"]), None, Some("path1"));
    assert_eq!(pending(&ws, 0), vec!["s1".to_string()]);
}

#[test]
fn same_stream_can_be_subscribed_on_different_url_paths() {
    let mut ws = create_websocket_streams(None, None, None);
    put_on_path(&mut ws, 0, "path1");
    put_on_path(&mut ws, 1, "path2");
    ws.subscribe(names(&["s1"]), None, Some("path1"));
    ws.subscribe(names(&["s1"]), None, Some("path2"));
    assert!(follows(&ws, "path1::s1"));
    assert!(follows(&ws, "path2::s1"));
}

#[test]
fn open_connections_are_asked_at_once() {
    let mut ws = WebsocketStreams::new(
        configuration("x", WebsocketMode::Pool(2)),
        two_connections(),
        vec![],
        &vec![],
    );
    ws.common.connection_pool[1].state.ws_write_tx = Some(2);
    let requests = ws.subscribe(names(&["a", "b", "c"]), Some(StreamId::Number(4)), None);
    assert_eq!(requests.len(), 1);
    assert_eq!(requests[0].connection, 1);
    assert_eq!(requests[0].streams, names(&["b"]));
    assert_eq!(requests[0].id, Some(StreamId::Number(4)));
    assert_eq!(pending(&ws, 0), names(&["a", "c"]));
    assert!(pending(&ws, 1).is_empty());
    assert!(has_callback_list(&ws, 1, "b"));
    let kept = ws.on_open(0).unwrap();
    assert_eq!(kept.streams, names(&["a", "c"]));
    assert_eq!(kept.connection, 0);
    assert_eq!(kept.id, None);
}

#[test]
fn removes_stream_with_no_callbacks() {
    let mut ws = create_websocket_streams(None, None, None);
    ws.common.connection_pool[0].state.ws_write_tx = Some(1);
    follow(&mut ws, "s1", 0);
    callbacks(&mut ws, 0, "s1", vec![]);
    let sent = ws.unsubscribe(names(&["s1"]), None, None, FRESH.to_string(), 9);
    assert_eq!(sent.len(), 1);
    assert_eq!(sent[0].connection, 0);
    let message = json(&sent[0].payload);
    assert_eq!(message["method"], "UNSUBSCRIBE");
    assert_eq!(message["params"], json(r#"["s1"]"#));
    assert_eq!(message["id"], FRESH);
    assert!(!follows(&ws, "s1"));
    assert!(!has_callback_list(&ws, 0, "s1"));
}

#[test]
fn preserves_stream_with_callbacks() {
    let mut ws = create_websocket_streams(None, None, None);
    follow(&mut ws, "s2", 1);
    callbacks(&mut ws, 1, "s2", vec![1]);
    assert!(unsubscribe(&mut ws, &["s2"], None).is_empty());
    assert!(follows(&ws, "s2"));
    assert!(has_callback_list(&ws, 1, "s2"));
}

#[test]
fn does_not_send_if_callbacks_exist() {
    let mut ws = create_websocket_streams(None, None, None);
    ws.common.connection_pool[0].state.ws_write_tx = Some(1);
    follow(&mut ws, "s1", 0);
    callbacks(&mut ws, 0, "s1", vec![1, 2]);
    assert!(unsubscribe(&mut ws, &["s1"], None).is_empty());
    assert!(follows(&ws, "s1"));
    assert!(has_callback_list(&ws, 0, "s1"));
}

#[test]
fn warns_if_not_associated() {
    let mut ws = create_websocket_streams(None, None, None);
    assert!(unsubscribe(&mut ws, &["nope"], None).is_empty());
}

#[test]
fn empty_list_does_nothing() {
    let mut ws = create_websocket_streams(None, None, None);
    let before = ws.connection_streams.len();
    assert!(unsubscribe(&mut ws, &[], None).is_empty());
    assert_eq!(before, ws.connection_streams.len());
}

#[test]
fn invalid_custom_id_falls_back() {
    let mut ws = create_websocket_streams(None, None, None);
    follow(&mut ws, "foo", 0);
    ws.common.connection_pool[0].state.ws_write_tx = Some(1);
    callbacks(&mut ws, 0, "foo", vec![]);
    let bad = Some(StreamId::Str("bad-id".into()));
    let sent = ws.unsubscribe(names(&["foo"]), bad, None, FRESH.to_string(), 9);
    assert_eq!(json(&sent[0].payload)["id"], FRESH);
    assert!(!follows(&ws, "foo"));
}

#[test]
fn removes_even_without_write_channel() {
    let mut ws = create_websocket_streams(None, None, None);
    follow(&mut ws, "x", 0);
    ws.common.connection_pool[0].state.ws_write_tx = Some(1);
    callbacks(&mut ws, 0, "x", vec![]);
    unsubscribe(&mut ws, &["x"], None);
    assert!(!follows(&ws, "x"));
}

#[test]
fn removes_stream_with_no_callbacks_with_url_path() {
    let mut ws = create_websocket_streams(None, None, None);
    ws.common.connection_pool[0].state.ws_write_tx = Some(1);
    put_on_path(&mut ws, 0, "path1");
    follow(&mut ws, "path1::s1", 0);
    callbacks(&mut ws, 0, "path1::s1", vec![]);
    let sent = unsubscribe(&mut ws, &["s1"], Some("path1"));
    assert_eq!(sent[0]["params"], json(r#"["s1"]"#));
    assert!(!follows(&ws, "path1::s1"));
    assert!(!has_callback_list(&ws, 0, "path1::s1"));
}

#[test]
fn preserves_stream_with_callbacks_with_url_path() {
    let mut ws = create_websocket_streams(None, None, None);
    ws.common.connection_pool[0].state.ws_write_tx = Some(1);
    put_on_path(&mut ws, 0, "path1");
    follow(&mut ws, "path1::s2", 0);
    callbacks(&mut ws, 0, "path1::s2", vec![1]);
    unsubscribe(&mut ws, &["s2"], Some("path1"));
    assert!(follows(&ws, "path1::s2"));
    assert!(has_callback_list(&ws, 0, "path1::s2"));
}

#[test]
fn url_path_mismatch_does_not_remove_other_path_subscription() {
    let mut ws = create_websocket_streams(None, None, None);
    ws.common.connection_pool[0].state.ws_write_tx = Some(1);
    put_on_path(&mut ws, 0, "path1");
    follow(&mut ws, "path1::s1", 0);
    callbacks(&mut ws, 0, "path1::s1", vec![]);
    unsubscribe(&mut ws, &["s1"], Some("path2"));
    assert!(follows(&ws, "path1::s1"));
    assert!(has_callback_list(&ws, 0, "path1::s1"));
}

#[test]
fn letting_go_undoes_following() {
    let mut ws = create_websocket_streams(None, None, None);
    ws.common.connection_pool[0].state.ws_write_tx = Some(1);
    ws.subscribe(names(&["s"]), None, None);
    assert!(follows(&ws, "s"));
    assert_eq!(unsubscribe(&mut ws, &["s", "s"], None).len(), 1);
    assert!(ws.connection_streams.is_empty());
    assert!(ws.common.connection_pool[0].state.stream_callbacks.is_empty());
}

#[test]
fn returns_false_when_not_subscribed() {
    let ws = create_websocket_streams(None, None, None);
    assert!(!ws.is_subscribed("unknown"));
}

#[test]
fn returns_true_when_subscribed() {
    let mut ws = create_websocket_streams(None, None, None);
    follow(&mut ws, "stream1", 0);
    assert!(ws.is_subscribed("stream1"));
}

#[test]
fn returns_true_when_subscribed_with_url_path_key() {
    let mut ws = create_websocket_streams(None, None, None);
    follow(&mut ws, "path1::stream1", 0);
    assert!(ws.is_subscribed("stream1"));
}

#[test]
fn returns_true_when_same_stream_subscribed_on_multiple_paths() {
    let mut ws = create_websocket_streams(None, None, None);
    follow(&mut ws, "path1::stream1", 0);
    follow(&mut ws, "path2::stream1", 1);
    assert!(ws.is_subscribed("stream1"));
}

#[test]
fn returns_false_when_only_similar_suffix_exists() {
    let mut ws = create_websocket_streams(None, None, None);
    follow(&mut ws, "path1::stream10", 0);
    assert!(!ws.is_subscribed("stream1"));
}

#[test]
fn stream_key_without_url_path_returns_stream() {
    let ws = create_websocket_streams(None, None, None);
    assert_eq!(ws.stream_key("s1", None), "s1");
}

#[test]
fn stream_key_with_empty_url_path_returns_stream() {
    let ws = create_websocket_streams(None, None, None);
    assert_eq!(ws.stream_key("s1", Some("")), "s1");
}

#[test]
fn stream_key_with_url_path_prefixes_stream() {
    let ws = create_websocket_streams(None, None, None);
    assert_eq!(ws.stream_key("s1", Some("path1")), "path1::s1");
}

#[test]
fn stream_key_distinguishes_paths() {
    let ws = create_websocket_streams(None, None, None);
    assert_eq!(ws.stream_key("s1", Some("path1")), "path1::s1");
    assert_eq!(ws.stream_key("s1", Some("path2")), "path2::s1");
}

fn with_unit(unit: Option<TimeUnit>) -> WebsocketStreams {
    let mut ws = create_websocket_streams(Some("wss://example"), None, None);
    ws.configuration.time_unit = unit;
    ws
}

#[test]
fn without_time_unit_returns_base_url() {
    let url = with_unit(None).prepare_url(&names(&["s1", "s2"]), None);
    assert_eq!(url, "wss://example/stream?streams=s1/s2");
}

#[test]
fn with_time_unit_appends_parameter() {
    let url = with_unit(Some(TimeUnit::Millisecond)).prepare_url(&names(&["a"]), None);
    assert_eq!(url, "wss://example/stream?streams=a&timeUnit=millisecond");
}

#[test]
fn multiple_streams_and_time_unit() {
    let url = with_unit(Some(TimeUnit::Microsecond)).prepare_url(&names(&["x", "y", "z"]), None);
    assert_eq!(url, "wss://example/stream?streams=x/y/z&timeUnit=microsecond");
}

#[test]
fn with_url_path_prefixes_base_url() {
    let url = with_unit(None).prepare_url(&names(&["s1"]), Some("path1"));
    assert_eq!(url, "wss://example/path1/stream?streams=s1");
}

#[test]
fn with_url_path_and_time_unit_appends_parameter() {
    let url = with_unit(Some(TimeUnit::Millisecond)).prepare_url(&names(&["a"]), Some("path1"));
    assert_eq!(url, "wss://example/path1/stream?streams=a&timeUnit=millisecond");
}

#[test]
fn url_path_distinguishes_urls_for_same_streams() {
    let ws = with_unit(None);
    let u1 = ws.prepare_url(&names(&["s1"]), Some("path1"));
    let u2 = ws.prepare_url(&names(&["s1"]), Some("path2"));
    assert_eq!(u1, "wss://example/path1/stream?streams=s1");
    assert_eq!(u2, "wss://example/path2/stream?streams=s1");
}

#[test]
fn urls_without_a_base_or_streams_are_built_all_the_same() {
    let mut ws = with_unit(None);
    ws.configuration.ws_url = None;
    assert_eq!(ws.prepare_url(&vec![], None), "/stream?streams=");
    assert_eq!(ws.prepare_url(&vec![], Some("")), "//stream?streams=");
}

#[test]
fn assigns_new_streams_to_connections() {
    let mut ws = create_websocket_streams(None, None, None);
    let groups = ws.handle_stream_assignment(&names(&["s1", "s2"]), None);
    assert_eq!(groups.len(), 1);
    assert_eq!(groups[0].1, names(&["s1", "s2"]));
}

#[test]
fn reuses_existing_connection_for_duplicate_stream() {
    let mut ws = create_websocket_streams(None, None, None);
    ws.handle_stream_assignment(&names(&["s1"]), None);
    let groups = ws.handle_stream_assignment(&names(&["s1", "s3"]), None);
    let mut all: Vec<String> = groups.into_iter().flat_map(|(_, streams)| streams).collect();
    all.sort();
    assert_eq!(all, names(&["s1", "s3"]));
}

#[test]
fn empty_stream_list_returns_empty() {
    let mut ws = create_websocket_streams(None, None, None);
    assert!(ws.handle_stream_assignment(&vec![], None).is_empty());
}

#[test]
fn closed_or_reconnecting_forces_reassignment_of_stream() {
    let mut ws = create_websocket_streams(None, None, None);
    let (place, _) = ws.handle_stream_assignment(&names(&["s1"]), None).pop().unwrap();
    ws.common.connection_pool[place].state.close_initiated = true;
    let groups = ws.handle_stream_assignment(&names(&["s2"]), None);
    assert_eq!(groups.len(), 1);
    assert_eq!(groups[0].1, names(&["s2"]));
}

#[test]
fn no_available_connections_falls_back_to_one() {
    let mut ws = create_websocket_streams(None, Some(vec![]), None);
    let assigned = ws.handle_stream_assignment(&names(&["foo"]), None);
    assert_eq!(assigned.len(), 1);
    assert_eq!(assigned[0].1, names(&["foo"]));
}

#[test]
fn single_connection_groups_multiple_streams() {
    let mut ws = create_websocket_streams(None, Some(vec![WebsocketConnection::new("c1")]), None);
    let assigned = ws.handle_stream_assignment(&names(&["s1", "s2"]), None);
    assert_eq!(assigned.len(), 1);
    assert_eq!(assigned[0].0, 0);
    assert_eq!(assigned[0].1.len(), 2);
    assert!(assigned[0].1.contains(&"s1".to_string()));
    assert!(assigned[0].1.contains(&"s2".to_string()));
}

#[test]
fn reuse_existing_healthy_connection() {
    let mut ws = create_websocket_streams(None, Some(vec![WebsocketConnection::new("c")]), None);
    ws.handle_stream_assignment(&names(&["s1"]), None);
    let second = ws.handle_stream_assignment(&names(&["s1"]), None);
    assert_eq!(second, vec![(0, names(&["s1"]))]);
}

#[test]
fn mix_new_and_assigned_streams() {
    let mut ws = create_websocket_streams(None, Some(vec![WebsocketConnection::new("c")]), None);
    ws.handle_stream_assignment(&names(&["s1", "s2"]), None);
    let mixed = ws.handle_stream_assignment(&names(&["s2", "s3"]), None);
    assert_eq!(mixed.len(), 1);
    assert_eq!(mixed[0].0, 0);
    let mut got = mixed[0].1.clone();
    got.sort();
    assert_eq!(got, names(&["s2", "s3"]));
}

#[test]
fn assigns_streams_with_url_path_keys() {
    let mut ws = create_websocket_streams(None, None, None);
    put_on_path(&mut ws, 0, "path1");
    let groups = ws.handle_stream_assignment(&names(&["s1", "s2"]), Some("path1"));
    assert!(follows(&ws, "path1::s1"));
    assert!(follows(&ws, "path1::s2"));
    assert_eq!(groups.len(), 1);
    let mut got = groups[0].1.clone();
    got.sort();
    assert_eq!(got, names(&["s1", "s2"]));
}

#[test]
fn same_stream_on_different_paths_creates_distinct_keys() {
    let mut ws = create_websocket_streams(None, None, None);
    put_on_path(&mut ws, 0, "path1");
    put_on_path(&mut ws, 1, "path2");
    let g1 = ws.handle_stream_assignment(&names(&["s1"]), Some("path1"));
    let g2 = ws.handle_stream_assignment(&names(&["s1"]), Some("path2"));
    assert_eq!(g1.len(), 1);
    assert_eq!(g2.len(), 1);
    assert!(follows(&ws, "path1::s1"));
    assert!(follows(&ws, "path2::s1"));
}

#[test]
fn reuses_existing_connection_for_same_path_and_stream() {
    let mut ws = create_websocket_streams(None, None, None);
    put_on_path(&mut ws, 0, "path1");
    let first = ws.handle_stream_assignment(&names(&["s1"]), Some("path1"));
    let second = ws.handle_stream_assignment(&names(&["s1", "s2"]), Some("path1"));
    assert_eq!(first.len(), 1);
    assert_eq!(second.len(), 1);
    assert_eq!(
        ws.connection_streams.get(&"path1::s1".to_string()),
        ws.connection_streams.get(&"path1::s2".to_string())
    );
}

#[test]
fn closed_or_reconnecting_forces_reassignment_with_url_path() {
    let mut ws = create_websocket_streams(None, None, None);
    put_on_path(&mut ws, 0, "path1");
    put_on_path(&mut ws, 1, "path1");
    ws.handle_stream_assignment(&names(&["s1"]), Some("path1"));
    ws.common.connection_pool[0].state.close_initiated = true;
    ws.handle_stream_assignment(&names(&["s1"]), Some("path1"));
    assert_eq!(ws.connection_streams.get(&"path1::s1".to_string()), Some(&1));
}

#[test]
fn streams_without_a_connection_are_passed_over() {
    let mut ws = create_websocket_streams(None, None, None);
    assert!(ws.handle_stream_assignment(&names(&["s1"]), Some("path9")).is_empty());
    assert!(ws.connection_streams.is_empty());
    assert_eq!(ws.common.round_robin_index, 0);
}

#[test]
fn subscribe_payload_with_custom_id_fallbacks_if_invalid() {
    let ws = create_websocket_streams(Some("ws://example.com"), None, None);
    let id = Some(StreamId::from("badid".to_string()));
    let text = ws.send_subscription_payload(&names(&["s1"]), id, FRESH.to_string(), 9);
    let v = json(&text);
    assert_eq!(v["method"], "SUBSCRIBE");
    let id = v["id"].as_str().unwrap();
    assert_ne!(id, "badid");
    assert_eq!(id, FRESH);
}

#[test]
fn subscribe_payload_with_and_without_custom_string_id() {
    let ws = create_websocket_streams(Some("ws://unused"), None, None);
    let id = Some(StreamId::from("deadbeefdeadbeefdeadbeefdeadbeef".to_string()));
    let v1 = json(&ws.send_subscription_payload(&names(&["a", "b"]), id, FRESH.to_string(), 9));
    let v2 = json(&ws.send_subscription_payload(&names(&["x"]), None, FRESH.to_string(), 9));
    assert_eq!(v1["id"], "deadbeefdeadbeefdeadbeefdeadbeef");
    assert_eq!(v1["params"], json(r#"["a","b"]"#));
    assert_eq!(v2["method"], "SUBSCRIBE");
    assert_eq!(v2["params"], json(r#"["x"]"#));
    assert_eq!(v2["id"], FRESH);
}

#[test]
fn subscribe_payload_with_and_without_custom_integer_id() {
    let mut ws = create_websocket_streams(Some("ws://unused"), None, None);
    ws.stream_id_is_strictly_number = true;
    let id = Some(StreamId::from(123u32));
    let v1 = json(&ws.send_subscription_payload(&names(&["a", "b"]), id, FRESH.to_string(), 9));
    let v2 = json(&ws.send_subscription_payload(&names(&["x"]), None, FRESH.to_string(), 77));
    assert_eq!(v1["method"], "SUBSCRIBE");
    assert_eq!(v1["id"].as_u64(), Some(123));
    assert_eq!(v1["params"], json(r#"["a","b"]"#));
    assert_eq!(v2["method"], "SUBSCRIBE");
    assert_eq!(v2["params"], json(r#"["x"]"#));
    assert_eq!(v2["id"].as_u64(), Some(77));
}

#[test]
fn payloads_escape_their_texts() {
    let ws = create_websocket_streams(None, None, None);
    let odd = "a\"\\\n\u{1}é😀";
    let v = json(&ws.send_subscription_payload(&names(&[odd]), None, FRESH.to_string(), 9));
    assert_eq!(v["params"][0], odd);
}

#[test]
fn identifiers_are_normalized() {
    let normalize = |id: Option<StreamId>, strict: bool| {
        normalize_stream_id(id, strict, FRESH.to_string(), 31)
    };
    let valid = StreamId::Str("0123456789abcdef0123456789ABCDEF".into());
    assert_eq!(normalize(Some(valid.clone()), false), valid);
    assert_eq!(normalize(Some(valid), true), StreamId::Number(31));
    let short = StreamId::Str("0123456789abcdef0123456789ABCDE".into());
    assert_eq!(normalize(Some(short), false), StreamId::Str(FRESH.into()));
    let wrong = StreamId::Str("g123456789abcdef0123456789ABCDEF".into());
    assert_eq!(normalize(Some(wrong), false), StreamId::Str(FRESH.into()));
    assert_eq!(normalize(Some(StreamId::Number(5)), false), StreamId::Number(5));
    assert_eq!(normalize(None, true), StreamId::Number(31));
    assert_eq!(normalize(None, false), StreamId::Str(FRESH.into()));
}

#[test]
fn sends_pending_subscriptions() {
    let mut ws = create_websocket_streams(Some("ws://example.com"), None, None);
    ws.common.connection_pool[0].state.ws_write_tx = Some(1);
    ws.common.connection_pool[0].state.pending_subscriptions = names(&["foo", "bar"]);
    let request = ws.on_open(0).expect("no subscription sent");
    let text = ws.send_subscription_payload(&request.streams, request.id, FRESH.to_string(), 9);
    let v = json(&text);
    assert_eq!(v["method"], "SUBSCRIBE");
    assert_eq!(v["params"], json(r#"["foo","bar"]"#));
    assert!(ws.common.connection_pool[0].state.pending_subscriptions.is_empty());
}

#[test]
fn with_no_pending_subscriptions_sends_nothing() {
    let mut ws = create_websocket_streams(Some("ws://example.com"), None, None);
    ws.common.connection_pool[0].state.ws_write_tx = Some(1);
    assert!(ws.on_open(0).is_none());
}

#[test]
fn clears_pending_without_write_channel() {
    let mut ws = create_websocket_streams(Some("ws://example.com"), None, None);
    ws.common.connection_pool[0].state.pending_subscriptions = names(&["solo"]);
    ws.on_open(0);
    assert!(ws.common.connection_pool[0].state.pending_subscriptions.is_empty());
}

fn delivered(ws: &WebsocketStreams, text: &str) -> Vec<u64> {
    ws.on_message(text, 0).map_or(vec![], |delivery| delivery.callbacks)
}

#[test]
fn invokes_registered_callback() {
    let mut ws = create_websocket_streams(Some("ws://example.com"), None, None);
    callbacks(&mut ws, 0, "stream1", vec![1]);
    let delivery = ws
        .on_message(r#"{"stream":"stream1","data":{"key":"value"}}"#, 0)
        .unwrap();
    assert_eq!(delivery.callbacks, vec![1]);
    assert_eq!(delivery.payload, json(r#"{"key":"value"}"#));
}

#[test]
fn invokes_all_registered_callbacks() {
    let mut ws = create_websocket_streams(Some("ws://example.com"), None, None);
    callbacks(&mut ws, 0, "s", vec![1, 2]);
    assert_eq!(delivered(&ws, r#"{"stream":"s","data":42}"#), vec![1, 2]);
}

#[test]
fn handles_null_data_field() {
    let mut ws = create_websocket_streams(Some("ws://example.com"), None, None);
    callbacks(&mut ws, 0, "n", vec![1]);
    let delivery = ws.on_message(r#"{"stream":"n","data":null}"#, 0).unwrap();
    assert!(delivery.payload.is_null());
    assert_eq!(delivery.callbacks.len(), 1);
}

#[test]
fn with_invalid_json_does_not_panic() {
    let ws = create_websocket_streams(Some("ws://example.com"), None, None);
    assert!(ws.on_message("not a json", 0).is_none());
}

#[test]
fn without_stream_field_does_nothing() {
    let ws = create_websocket_streams(Some("ws://example.com"), None, None);
    assert!(ws.on_message(r#"{"data":{"foo":1}}"#, 0).is_none());
    assert!(ws.on_message(r#"{"stream":1,"data":{"foo":1}}"#, 0).is_none());
    assert!(ws.on_message(r#"{"stream":"s"}"#, 0).is_none());
}

#[test]
fn with_unregistered_stream_does_not_panic() {
    let ws = create_websocket_streams(Some("ws://example.com"), None, None);
    assert!(delivered(&ws, r#"{"stream":"nope","data":{"foo":1}}"#).is_empty());
}

#[test]
fn invokes_registered_callback_with_url_path_key() {
    let mut ws = create_websocket_streams(Some("ws://example.com"), None, None);
    put_on_path(&mut ws, 0, "path1");
    callbacks(&mut ws, 0, "path1::stream1", vec![1]);
    assert_eq!(
        delivered(&ws, r#"{"stream":"stream1","data":{"key":"value"}}"#),
        vec![1]
    );
}

#[test]
fn does_not_invoke_callback_when_url_path_mismatch() {
    let mut ws = create_websocket_streams(Some("ws://example.com"), None, None);
    put_on_path(&mut ws, 0, "path2");
    callbacks(&mut ws, 0, "path1::stream1", vec![1]);
    assert!(delivered(&ws, r#"{"stream":"stream1","data":{"key":"value"}}"#).is_empty());
}

#[test]
fn invokes_only_callbacks_for_current_url_path_when_both_exist() {
    let mut ws = create_websocket_streams(Some("ws://example.com"), None, None);
    put_on_path(&mut ws, 0, "path1");
    callbacks(&mut ws, 0, "path1::s", vec![1]);
    callbacks(&mut ws, 0, "path2::s", vec![2]);
    assert_eq!(delivered(&ws, r#"{"stream":"s","data":42}"#), vec![1]);
}

#[test]
fn single_stream_reconnect_url() {
    let mut ws = create_websocket_streams(Some("ws://example.com"), None, None);
    follow(&mut ws, "s1", 0);
    assert_eq!(ws.get_reconnect_url(0), "ws://example.com/stream?streams=s1");
}

#[test]
fn multiple_streams_same_connection() {
    let mut ws = create_websocket_streams(Some("ws://example.com"), None, None);
    follow(&mut ws, "a", 0);
    follow(&mut ws, "b", 0);
    let url = ws.get_reconnect_url(0);
    let suffix = url.strip_prefix("ws://example.com/stream?streams=").unwrap();
    let mut parts: Vec<&str> = suffix.split('/').collect();
    parts.sort();
    assert_eq!(parts, vec!["a", "b"]);
}

#[test]
fn reconnect_url_with_time_unit() {
    let mut ws = create_websocket_streams(Some("ws://example.com"), None, None);
    ws.configuration.time_unit = Some(TimeUnit::Microsecond);
    follow(&mut ws, "x", 0);
    assert_eq!(
        ws.get_reconnect_url(0),
        "ws://example.com/stream?streams=x&timeUnit=microsecond"
    );
}

#[test]
fn reconnect_url_uses_url_path_from_connection_state() {
    let mut ws = create_websocket_streams(Some("ws://example.com"), None, None);
    put_on_path(&mut ws, 0, "path1");
    follow(&mut ws, "path1::s1", 0);
    assert_eq!(ws.get_reconnect_url(0), "ws://example.com/path1/stream?streams=s1");
}

#[test]
fn reconnect_url_strips_prefix_from_multiple_keys_with_url_path() {
    let mut ws = create_websocket_streams(Some("ws://example.com"), None, None);
    put_on_path(&mut ws, 0, "path1");
    follow(&mut ws, "path1::a", 0);
    follow(&mut ws, "path1::b", 0);
    let url = ws.get_reconnect_url(0);
    let suffix = url.strip_prefix("ws://example.com/path1/stream?streams=").unwrap();
    let mut parts: Vec<&str> = suffix.split('/').collect();
    parts.sort();
    assert_eq!(parts, vec!["a", "b"]);
}

#[test]
fn reconnect_url_with_url_path_and_time_unit() {
    let mut ws = create_websocket_streams(Some("ws://example.com"), None, None);
    ws.configuration.time_unit = Some(TimeUnit::Microsecond);
    put_on_path(&mut ws, 0, "path1");
    follow(&mut ws, "path1::x", 0);
    assert_eq!(
        ws.get_reconnect_url(0),
        "ws://example.com/path1/stream?streams=x&timeUnit=microsecond"
    );
}

#[test]
fn reconnect_url_ignores_streams_from_other_connections_even_if_same_path_prefix() {
    let mut ws = create_websocket_streams(Some("ws://example.com"), None, None);
    put_on_path(&mut ws, 0, "path1");
    put_on_path(&mut ws, 1, "path1");
    follow(&mut ws, "path1::a", 0);
    follow(&mut ws, "path1::b", 1);
    assert_eq!(ws.get_reconnect_url(0), "ws://example.com/path1/stream?streams=a");
}

#[test]
fn reconnect_url_keeps_what_follows_the_first_separator() {
    let mut ws = create_websocket_streams(Some("ws://example.com"), None, None);
    follow(&mut ws, "p::a::b", 0);
    follow(&mut ws, ":c", 0);
    assert_eq!(ws.get_reconnect_url(0), "ws://example.com/stream?streams=a::b/:c");
}
