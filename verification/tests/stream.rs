use serde_json::Value;
use std::marker::PhantomData;
use websocket_common::api::WebsocketApi;
use websocket_common::connection::WebsocketConnection;
use websocket_common::models::{
    ConfigurationWebsocketApi, ConfigurationWebsocketStreams, StreamId, WebsocketMode,
};
use websocket_common::stream::{create_stream_handler, WebsocketBase, WebsocketStream};
use websocket_common::streams::WebsocketStreams;

const FRESH: &str = "0123456789abcdef0123456789abcdef";

fn two_connections() -> Vec<WebsocketConnection> {
    vec![WebsocketConnection::new("c1"), WebsocketConnection::new("c2")]
}

fn create_websocket_streams() -> WebsocketBase {
    let config = ConfigurationWebsocketStreams {
        ws_url: Some("ws://example.com".to_string()),
        mode: WebsocketMode::Single,
        reconnect_delay: 500,
        time_unit: None,
        user_agent: "product".to_string(),
    };
    WebsocketBase::WebsocketStreams(WebsocketStreams::new(
        config,
        two_connections(),
        vec![],
        &vec![],
    ))
}

fn create_websocket_api() -> WebsocketBase {
    let config = ConfigurationWebsocketApi {
        ws_url: Some("wss://example.com".to_string()),
        mode: WebsocketMode::Single,
        reconnect_delay: 1000,
        timeout: 500,
        time_unit: None,
        auto_session_relogon: true,
        user_agent: "product".to_string(),
    };
    WebsocketBase::WebsocketApi(WebsocketApi::new(config, two_connections(), &vec![]))
}

fn streams(base: &mut WebsocketBase) -> &mut WebsocketStreams {
    match base {
        WebsocketBase::WebsocketStreams(streams) => streams,
        WebsocketBase::WebsocketApi(_) => panic!("expected streams"),
    }
}

fn api(base: &mut WebsocketBase) -> &mut WebsocketApi {
    match base {
        WebsocketBase::WebsocketApi(api) => api,
        WebsocketBase::WebsocketStreams(_) => panic!("expected api"),
    }
}

fn follow(base: &mut WebsocketBase, key: &str) {
    let streams = streams(base);
    streams.connection_streams.insert(key.to_string(), 0);
    streams.common.connection_pool[0]
        .state
        .stream_callbacks
        .insert(key.to_string(), Vec::new());
}

fn stream_callbacks(base: &mut WebsocketBase, key: &str) -> Option<Vec<u64>> {
    streams(base).common.connection_pool[0]
        .state
        .stream_callbacks
        .get(&key.to_string())
        .cloned()
}

fn api_callbacks(base: &mut WebsocketBase, key: &str) -> Option<Vec<u64>> {
    api(base).stream_callbacks.get(&key.to_string()).cloned()
}

fn stream(name: &str, path: Option<&str>) -> WebsocketStream<Value> {
    WebsocketStream {
        stream_or_id: name.to_string(),
        url_path: path.map(str::to_string),
        callback: None,
        id: None,
        _phantom: PhantomData,
    }
}

#[test]
fn registers_callback_and_stream_callback_for_websocket_streams() {
    let mut base = create_websocket_streams();
    follow(&mut base, "s1");
    let mut handler = stream("s1", None);
    handler.on(&mut base, "message", 1);
    assert!(handler.callback.is_some());
    assert_eq!(stream_callbacks(&mut base, "s1").unwrap().len(), 1);
}

#[test]
fn message_twice_registers_two_wrappers_for_websocket_streams() {
    let mut base = create_websocket_streams();
    follow(&mut base, "s2");
    let mut handler = stream("s2", None);
    handler.on(&mut base, "message", 1);
    handler.on(&mut base, "message", 2);
    assert_eq!(stream_callbacks(&mut base, "s2"), Some(vec![1, 2]));
    handler.on(&mut base, "message", 1);
    assert_eq!(stream_callbacks(&mut base, "s2"), Some(vec![1, 2]));
    assert_eq!(handler.callback, Some(1));
}

#[test]
fn ignores_non_message_event_for_websocket_streams() {
    let mut base = create_websocket_streams();
    let mut handler = stream("s", None);
    handler.on(&mut base, "open", 1);
    assert!(handler.callback.is_none());
}

#[test]
fn registers_callback_and_stream_callback_for_websocket_api() {
    let mut base = create_websocket_api();
    api(&mut base).stream_callbacks.insert("id1".to_string(), Vec::new());
    let mut handler = stream("id1", None);
    handler.on(&mut base, "message", 1);
    assert!(handler.callback.is_some());
    assert_eq!(api_callbacks(&mut base, "id1").unwrap().len(), 1);
}

#[test]
fn message_twice_registers_two_wrappers_for_websocket_api() {
    let mut base = create_websocket_api();
    let mut handler = stream("id2", None);
    handler.on(&mut base, "message", 1);
    handler.on(&mut base, "message", 2);
    assert_eq!(api_callbacks(&mut base, "id2").unwrap().len(), 2);
}

#[test]
fn ignores_non_message_event_for_websocket_api() {
    let mut base = create_websocket_api();
    let mut handler = stream("id3", None);
    handler.on(&mut base, "open", 1);
    assert!(handler.callback.is_none());
    assert!(api_callbacks(&mut base, "id3").is_none());
    assert!(api(&mut base).stream_callbacks.is_empty());
}

#[test]
fn registers_callback_for_websocket_streams_with_url_path() {
    let mut base = create_websocket_streams();
    follow(&mut base, "path1::s1");
    let mut handler = stream("s1", Some("path1"));
    handler.on(&mut base, "message", 1);
    assert!(handler.callback.is_some());
    assert_eq!(stream_callbacks(&mut base, "path1::s1").unwrap().len(), 1);
}

#[test]
fn url_path_routes_callback_to_correct_key_when_same_stream_name_used() {
    let mut base = create_websocket_streams();
    follow(&mut base, "path1::s1");
    follow(&mut base, "path2::s1");
    stream("s1", Some("path1")).on(&mut base, "message", 1);
    stream("s1", Some("path2")).on(&mut base, "message", 2);
    assert_eq!(stream_callbacks(&mut base, "path1::s1").unwrap().len(), 1);
    assert_eq!(stream_callbacks(&mut base, "path2::s1").unwrap().len(), 1);
}

#[test]
fn on_message_registers_callback_for_websocket_streams() {
    let mut base = create_websocket_streams();
    follow(&mut base, "s");
    stream("s", None).on_message(&mut base, 1);
    assert_eq!(stream_callbacks(&mut base, "s").unwrap().len(), 1);
}

#[test]
fn on_message_twice_registers_two_callbacks_for_websocket_streams() {
    let mut base = create_websocket_streams();
    follow(&mut base, "s");
    let mut handler = stream("s", None);
    handler.on_message(&mut base, 1);
    handler.on_message(&mut base, 2);
    assert_eq!(stream_callbacks(&mut base, "s").unwrap().len(), 2);
}

#[test]
fn on_message_registers_callback_for_websocket_api() {
    let mut base = create_websocket_api();
    stream("id1", None).on_message(&mut base, 1);
    assert_eq!(api_callbacks(&mut base, "id1").unwrap().len(), 1);
}

#[test]
fn on_message_twice_registers_two_callbacks_for_websocket_api() {
    let mut base = create_websocket_api();
    let mut handler = stream("id2", None);
    handler.on_message(&mut base, 1);
    handler.on_message(&mut base, 2);
    assert_eq!(api_callbacks(&mut base, "id2").unwrap().len(), 2);
}

#[test]
fn without_callback_does_nothing() {
    let mut base = create_websocket_streams();
    follow(&mut base, "s1");
    let sent = stream("s1", None).unsubscribe(&mut base, FRESH.to_string(), 1);
    assert!(sent.is_empty());
    assert!(stream_callbacks(&mut base, "s1").is_some());
}

#[test]
fn removes_registered_callback_and_clears_state() {
    let mut base = create_websocket_streams();
    follow(&mut base, "s2");
    let mut handler = stream("s2", None);
    handler.on(&mut base, "message", 1);
    assert!(handler.callback.is_some());
    handler.unsubscribe(&mut base, FRESH.to_string(), 1);
    assert!(handler.callback.is_none());
    assert!(stream_callbacks(&mut base, "s2").is_none_or(|list| list.is_empty()));
}

#[test]
fn the_last_callback_lets_go_of_an_open_stream() {
    let mut base = create_websocket_streams();
    streams(&mut base).common.connection_pool[0].state.ws_write_tx = Some(1);
    follow(&mut base, "s2");
    let mut first = stream("s2", None);
    let mut second = stream("s2", None);
    first.on_message(&mut base, 1);
    second.on_message(&mut base, 2);
    assert!(first.unsubscribe(&mut base, FRESH.to_string(), 1).is_empty());
    assert!(streams(&mut base).is_subscribed("s2"));
    let sent = second.unsubscribe(&mut base, FRESH.to_string(), 1);
    assert_eq!(sent.len(), 1);
    let message: Value = serde_json::from_str(&sent[0].payload).unwrap();
    assert_eq!(message["method"], "UNSUBSCRIBE");
    assert_eq!(message["params"][0], "s2");
    assert_eq!(message["id"], FRESH);
    assert!(!streams(&mut base).is_subscribed("s2"));
}

#[test]
fn without_callback_does_nothing_for_websocket_api() {
    let mut base = create_websocket_api();
    api(&mut base).stream_callbacks.insert("id1".to_string(), Vec::new());
    stream("id1", None).unsubscribe(&mut base, FRESH.to_string(), 1);
    assert_eq!(api_callbacks(&mut base, "id1"), Some(vec![]));
}

#[test]
fn removes_registered_callback_and_clears_state_for_websocket_api() {
    let mut base = create_websocket_api();
    api(&mut base).stream_callbacks.insert("id2".to_string(), Vec::new());
    let mut handler = stream("id2", None);
    handler.on(&mut base, "message", 1);
    assert_eq!(api_callbacks(&mut base, "id2").unwrap().len(), 1);
    handler.unsubscribe(&mut base, FRESH.to_string(), 1);
    assert!(handler.callback.is_none());
    assert!(api_callbacks(&mut base, "id2").unwrap().is_empty());
}

#[test]
fn messages_reach_the_callbacks_that_wait() {
    let mut base = create_websocket_streams();
    let (mut handler, _) = create_stream_handler::<Value>(&mut base, "foo".into(), None, None);
    handler.on_message(&mut base, 8);
    let text = r#"{"stream":"foo","data":1}"#;
    let delivery = streams(&mut base).on_message(text, 0).unwrap();
    assert_eq!(delivery.callbacks, vec![8]);
    handler.unsubscribe(&mut base, FRESH.to_string(), 1);
    let delivery = streams(&mut base).on_message(text, 0).unwrap();
    assert!(delivery.callbacks.is_empty());
}

fn created(
    base: &mut WebsocketBase,
    name: &str,
    id: Option<StreamId>,
    path: Option<&str>,
) -> WebsocketStream<Value> {
    create_stream_handler(base, name.to_string(), id, path.map(str::to_string)).0
}

fn follows(base: &mut WebsocketBase, key: &str) -> bool {
    streams(base).connection_streams.contains_key(&key.to_string())
}

#[test]
fn create_stream_handler_without_id_registers_stream() {
    let mut base = create_websocket_streams();
    let handler = created(&mut base, "foo", None, None);
    assert_eq!(handler.stream_or_id, "foo");
    assert!(handler.id.is_none());
    assert!(follows(&mut base, "foo"));
}

#[test]
fn create_stream_handler_with_custom_string_id_registers_stream_and_id() {
    let mut base = create_websocket_streams();
    let custom_id = StreamId::from("my-custom-id".to_string());
    let handler = created(&mut base, "bar", Some(custom_id.clone()), None);
    assert_eq!(handler.stream_or_id, "bar");
    assert_eq!(handler.id, Some(custom_id));
    assert!(follows(&mut base, "bar"));
}

#[test]
fn create_stream_handler_with_custom_integer_id_registers_stream_and_id() {
    let mut base = create_websocket_streams();
    let custom_id = StreamId::from(123u32);
    let handler = created(&mut base, "bar", Some(custom_id.clone()), None);
    assert_eq!(handler.stream_or_id, "bar");
    assert_eq!(handler.id, Some(custom_id));
    assert!(follows(&mut base, "bar"));
}

#[test]
fn create_stream_handler_without_id_registers_api_stream() {
    let mut base = create_websocket_api();
    let handler = created(&mut base, "foo-api", None, None);
    assert_eq!(handler.stream_or_id, "foo-api");
    assert!(handler.id.is_none());
}

#[test]
fn create_stream_handler_with_custom_string_id_registers_api_stream_and_id() {
    let mut base = create_websocket_api();
    let custom_id = StreamId::from("custom-123".to_string());
    let handler = created(&mut base, "bar-api", Some(custom_id.clone()), None);
    assert_eq!(handler.stream_or_id, "bar-api");
    assert_eq!(handler.id, Some(custom_id));
}

#[test]
fn create_stream_handler_with_custom_integer_id_registers_api_stream_and_id() {
    let mut base = create_websocket_api();
    let custom_id = StreamId::from(123u32);
    let handler = created(&mut base, "bar-api", Some(custom_id.clone()), None);
    assert_eq!(handler.stream_or_id, "bar-api");
    assert_eq!(handler.id, Some(custom_id));
}

#[test]
fn websocket_streams_without_url_path_registers_stream_key() {
    let mut base = create_websocket_streams();
    let handler = created(&mut base, "foo", None, None);
    assert_eq!(handler.stream_or_id, "foo");
    assert!(handler.id.is_none());
    assert!(follows(&mut base, "foo"));
}

#[test]
fn websocket_streams_with_url_path_registers_prefixed_stream_key() {
    let mut base = create_websocket_streams();
    streams(&mut base).common.connection_pool[0].state.url_path = Some("path1".to_string());
    let handler = created(&mut base, "foo", None, Some("path1"));
    assert_eq!(handler.stream_or_id, "foo");
    assert!(handler.id.is_none());
    assert!(follows(&mut base, "path1::foo"));
}

#[test]
fn websocket_streams_with_custom_id_preserves_id_and_registers_prefixed_key() {
    let mut base = create_websocket_streams();
    streams(&mut base).common.connection_pool[0].state.url_path = Some("path1".to_string());
    let custom_id = StreamId::from("my-custom-id".to_string());
    let handler = created(&mut base, "bar", Some(custom_id.clone()), Some("path1"));
    assert_eq!(handler.stream_or_id, "bar");
    assert_eq!(handler.id, Some(custom_id));
    assert!(follows(&mut base, "path1::bar"));
}

#[test]
fn websocket_api_does_not_register_stream_in_connection_map() {
    let mut base = create_websocket_api();
    let handler = created(&mut base, "foo-api", None, Some("path1"));
    assert_eq!(handler.stream_or_id, "foo-api");
    assert!(handler.id.is_none());
}
