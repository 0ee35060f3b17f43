use serde_json::Value;
use std::collections::BTreeMap;
use websocket_common::api::{
    rate_limit_entries, read_outcome, read_rate_limits, read_response, ApiStep, Reply,
    WebsocketApi,
};
use websocket_common::connection::{
    PendingRequest, WebsocketConnection, WebsocketSessionLogonReq,
};
use websocket_common::json::document_text;
use websocket_common::lifecycle::ConnectStep;
use websocket_common::models::{
    ConfigurationWebsocketApi, TimeUnit, WebsocketApiResponse, WebsocketError, WebsocketMode,
};
use websocket_common::options::{SendWebsocketMessageResult, WebsocketMessageSendOptions};

fn json(text: &str) -> Value {
    serde_json::from_str(text).unwrap()
}

fn configuration(url: &str, mode: WebsocketMode) -> ConfigurationWebsocketApi {
    ConfigurationWebsocketApi {
        ws_url: Some(url.to_string()),
        mode,
        reconnect_delay: 1000,
        timeout: 500,
        time_unit: None,
        auto_session_relogon: true,
        user_agent: "product".to_string(),
    }
}

fn create_websocket_api(
    time_unit: Option<TimeUnit>,
    mode: Option<WebsocketMode>,
    auto_session_relogon: Option<bool>,
) -> WebsocketApi {
    let mut config = configuration("wss://example.com", mode.unwrap_or(WebsocketMode::Single));
    config.time_unit = time_unit;
    config.auto_session_relogon = auto_session_relogon.unwrap_or(true);
    WebsocketApi::new(
        config,
        vec![WebsocketConnection::new("c1"), WebsocketConnection::new("c2")],
        &vec![],
    )
}

fn api_with(id: &str) -> WebsocketApi {
    WebsocketApi::new(
        configuration("wss://example", WebsocketMode::Single),
        vec![WebsocketConnection::new(id)],
        &vec![],
    )
}

fn await_reply(api: &mut WebsocketApi, id: &str, completion: u64) {
    api.common.connection_pool[0]
        .state
        .pending_requests
        .insert(id.to_string(), PendingRequest { completion });
}

fn is_awaited(api: &WebsocketApi, id: &str) -> bool {
    api.common.connection_pool[0]
        .state
        .pending_requests
        .contains_key(&id.to_string())
}

/// What stands for the reading of a rate limit: an object of texts.
fn can_be_read(entry: &Value) -> bool {
    serde_json::from_value::<BTreeMap<String, String>>(entry.clone()).is_ok()
}

fn reply(text: &str) -> Reply {
    let message = json(text);
    let readable = rate_limit_entries(&message).iter().map(can_be_read).collect();
    Reply::Received { outcome: Ok(message), readable }
}

fn failure(error: WebsocketError) -> Reply {
    Reply::Received { outcome: Err(error), readable: vec![] }
}

fn expect_single(result: SendWebsocketMessageResult<Value>) -> WebsocketApiResponse<Value> {
    match result {
        SendWebsocketMessageResult::Single(response) => response,
        SendWebsocketMessageResult::Multiple(_) => panic!("expected single response"),
    }
}

#[test]
fn new_initializes_common() {
    let api = WebsocketApi::new(
        configuration("wss://example", WebsocketMode::Single),
        vec![WebsocketConnection::new("id")],
        &vec![],
    );
    assert_eq!(api.common.connection_pool.len(), 1);
    assert_eq!(api.common.mode, WebsocketMode::Single);
    assert!(!api.is_connecting);
    assert_eq!(api.common.reconnect_delay, 1000);
    assert_eq!(api.common.user_agent.as_deref(), Some("product"));
}

#[test]
fn connect_when_not_connected_establishes() {
    let mut api = WebsocketApi::new(
        configuration("ws://doesnotexist:1", WebsocketMode::Single),
        vec![WebsocketConnection::new("id")],
        &vec![],
    );
    match api.connect(3) {
        ConnectStep::Open(targets) => {
            assert_eq!(targets.len(), 1);
            assert_eq!(targets[0].url, "ws://doesnotexist:1");
            assert_eq!(targets[0].connections, vec![0]);
        }
        other => panic!("expected to open, got {other:?}"),
    }
    assert!(api.is_connecting);
    assert_eq!(api.common.connection_pool[0].state.handler, Some(3));
    let failed = Err(WebsocketError::Handshake("no such host".into()));
    let res = api.finish_connect(Some(failed));
    assert!(!matches!(res, Err(WebsocketError::Timeout)));
    assert!(!api.is_connecting);
}

#[test]
fn already_connected_returns_ok() {
    let mut api = api_with("id2");
    api.common.connection_pool[0].state.ws_write_tx = Some(1);
    assert!(matches!(api.connect(1), ConnectStep::AlreadyConnected));
    assert_eq!(api.common.connection_pool[0].state.handler, None);
}

#[test]
fn not_connected_returns_error() {
    let mut api = api_with("id1");
    assert!(matches!(api.connect(1), ConnectStep::Open(_)));
    let refused = Err(WebsocketError::Handshake("refused".into()));
    assert!(api.finish_connect(Some(refused)).is_err());
}

#[test]
fn concurrent_calls_both_error_or_ok() {
    let mut api = api_with("id3");
    assert!(matches!(api.connect(1), ConnectStep::Open(_)));
    assert!(matches!(api.connect(1), ConnectStep::AlreadyConnecting));
    assert!(api.finish_connect(None).is_err());
}

#[test]
fn pool_failure_is_propagated() {
    let mut api = api_with("w");
    api.connect(1);
    match api.finish_connect(Some(Err(WebsocketError::Handshake("x".into())))) {
        Err(WebsocketError::Handshake(_) | WebsocketError::Timeout) => {}
        _ => panic!("expected handshake or timeout error"),
    }
    api.connect(1);
    assert_eq!(api.finish_connect(None), Err(WebsocketError::Timeout));
}

#[test]
fn clients_without_a_url_connect_to_an_empty_one() {
    let mut api = create_websocket_api(Some(TimeUnit::Millisecond), None, None);
    api.configuration.ws_url = None;
    match api.connect(1) {
        ConnectStep::Open(targets) => assert_eq!(targets[0].url, "?timeUnit=millisecond"),
        other => panic!("expected to open, got {other:?}"),
    }
}

#[test]
fn unsigned_message() {
    let mut api = create_websocket_api(None, None, None);
    api.common.connection_pool[0].state.ws_write_tx = Some(1);
    let options = WebsocketMessageSendOptions::default();
    let plan = api.send_message(&options).unwrap();
    assert_eq!(plan.connections, vec![0]);
    assert!(!plan.skip_auth);
    let replies = vec![reply(
        r#"{"id":"r","result":{"x":42},"rateLimits":[{"limit":7}]}"#,
    )];
    let params = vec![("foo".to_string(), Value::String("bar".into()))];
    let result = api
        .finish_message::<Value>(&plan.connections, "method", &params, &options, replies)
        .unwrap();
    let response = expect_single(result);
    let rate_limits = response.rate_limits.unwrap_or_default();
    assert!(rate_limits.is_empty());
    assert_eq!(response.raw, json(r#"{"x":42}"#));
}

#[test]
fn rate_limits_that_can_be_read_are_kept() {
    let message = json(r#"{"rateLimits":[{"a":"1"},{"limit":7},{"b":"2"}]}"#);
    let entries = rate_limit_entries(&message);
    assert_eq!(entries.len(), 3);
    let readable: Vec<bool> = entries.iter().map(can_be_read).collect();
    assert_eq!(readable, vec![true, false, true]);
    assert_eq!(
        read_rate_limits(&message, &readable),
        Some(vec![json(r#"{"a":"1"}"#), json(r#"{"b":"2"}"#)])
    );
    assert_eq!(read_rate_limits(&message, &vec![]), Some(vec![]));
    let empty = json(r#"{"rateLimits":[{"a":"1"},null]}"#);
    assert_eq!(read_rate_limits(&empty, &vec![true, true]), None);
    assert!(rate_limit_entries(&json(r#"{"rateLimits":5}"#)).is_empty());
}

#[test]
fn documents_are_written_as_texts() {
    let document = json(r#"{"id":"r","method":"m","params":{"deep":[1.5,null,true]}}"#);
    assert_eq!(json(&document_text(&document)), document);
    assert_eq!(document_text(&json(" [ 1 , 2 ] ")), "[1,2]");
}

#[test]
fn with_api_key_only() {
    let mut api = create_websocket_api(None, None, None);
    api.common.connection_pool[0].state.ws_write_tx = Some(1);
    let options = WebsocketMessageSendOptions::new().with_api_key();
    let plan = api.send_message(&options).unwrap();
    let replies = vec![reply(r#"{"id":"r","result":{},"rateLimits":[]}"#)];
    let result = api
        .finish_message::<Value>(&plan.connections, "method", &vec![], &options, replies)
        .unwrap();
    assert_eq!(expect_single(result).raw, json("{}"));
}

#[test]
fn multi_session_logon() {
    let mut api = create_websocket_api(None, Some(WebsocketMode::Pool(2)), None);
    api.common.connection_pool[0].state.ws_write_tx = Some(1);
    api.common.connection_pool[1].state.ws_write_tx = Some(2);
    let options = WebsocketMessageSendOptions::new().session_logon();
    let plan = api.send_message(&options).unwrap();
    assert_eq!(plan.connections, vec![0, 1]);
    assert!(!plan.skip_auth);
    for place in &plan.connections {
        let dispatch = api
            .common
            .send("request".into(), Some("id".into()), true, 9, Some(*place))
            .unwrap();
        assert_eq!(dispatch.request_id.as_deref(), Some("id"));
    }
    let text = r#"{"id":"id","result":{"ok":true},"rateLimits":[]}"#;
    let result = api
        .finish_message::<Value>(
            &plan.connections,
            "method",
            &vec![],
            &options,
            vec![reply(text), reply(text)],
        )
        .unwrap();
    match &result {
        SendWebsocketMessageResult::Multiple(v) => assert_eq!(v.len(), 2),
        SendWebsocketMessageResult::Single(_) => panic!("expected multiple responses"),
    }
    for connection in &api.common.connection_pool {
        assert!(connection.state.is_session_logged_on);
        let request = connection.state.session_logon_req.as_ref().unwrap();
        assert_eq!(request.method, "method");
        assert!(request.payload.is_empty());
        assert_eq!(request.options.is_session_logon, Some(true));
    }
    assert_eq!(result.into_iter().count(), 2);
}

#[test]
fn multi_session_logout() {
    let mut api = create_websocket_api(None, Some(WebsocketMode::Pool(2)), None);
    for (i, connection) in api.common.connection_pool.iter_mut().enumerate() {
        connection.state.ws_write_tx = Some(i as u64);
        connection.state.is_session_logged_on = true;
        connection.state.session_logon_req = Some(WebsocketSessionLogonReq {
            method: "method".into(),
            payload: vec![],
            options: WebsocketMessageSendOptions::default(),
        });
    }
    let options = WebsocketMessageSendOptions::new().session_logout();
    let plan = api.send_message(&options).unwrap();
    assert_eq!(plan.connections.len(), 2);
    let text = r#"{"id":"id","result":{},"rateLimits":[]}"#;
    let result = api
        .finish_message::<Value>(
            &plan.connections,
            "method",
            &vec![],
            &options,
            vec![reply(text), reply(text)],
        )
        .unwrap();
    assert!(matches!(&result, SendWebsocketMessageResult::Multiple(v) if v.len() == 2));
    for connection in &api.common.connection_pool {
        assert!(!connection.state.is_session_logged_on);
        assert!(connection.state.session_logon_req.is_none());
    }
}

#[test]
fn sessions_leave_no_mark_without_relogon() {
    let mut api = create_websocket_api(None, Some(WebsocketMode::Pool(2)), Some(false));
    api.common.connection_pool[0].state.ws_write_tx = Some(1);
    let options = WebsocketMessageSendOptions::new().session_logon();
    let plan = api.send_message(&options).unwrap();
    assert_eq!(plan.connections, vec![0]);
    let result = api
        .finish_message::<Value>(
            &plan.connections,
            "method",
            &vec![],
            &options,
            vec![reply(r#"{"result":1}"#)],
        )
        .unwrap();
    assert!(matches!(&result, SendWebsocketMessageResult::Multiple(v) if v.len() == 1));
    assert!(!api.common.connection_pool[0].state.is_session_logged_on);
    assert!(api.common.connection_pool[0].state.session_logon_req.is_none());
}

#[test]
fn skip_signature_when_logged_on_and_auto_relogon() {
    let mut api = create_websocket_api(None, Some(WebsocketMode::Single), None);
    api.common.connection_pool[0].state.ws_write_tx = Some(1);
    api.common.connection_pool[0].state.is_session_logged_on = true;
    let options = WebsocketMessageSendOptions::new().signed();
    let plan = api.send_message(&options).unwrap();
    assert!(plan.skip_auth);
    let result = api
        .finish_message::<Value>(
            &plan.connections,
            "method",
            &vec![],
            &options,
            vec![reply(r#"{"id":"r","result":{},"rateLimits":[]}"#)],
        )
        .unwrap();
    assert_eq!(expect_single(result).raw, json("{}"));
}

#[test]
fn include_signature_when_logged_on_and_no_auto_relogon() {
    let mut api = create_websocket_api(None, Some(WebsocketMode::Single), Some(false));
    api.common.connection_pool[0].state.ws_write_tx = Some(1);
    api.common.connection_pool[0].state.is_session_logged_on = true;
    let options = WebsocketMessageSendOptions::new().signed();
    let plan = api.send_message(&options).unwrap();
    assert!(!plan.skip_auth);
}

#[test]
fn error_if_not_connected() {
    let mut api = create_websocket_api(None, None, None);
    let err = api
        .send_message(&WebsocketMessageSendOptions::default())
        .unwrap_err();
    assert!(matches!(err, WebsocketError::NotConnected));
}

#[test]
fn the_first_failed_reply_is_the_outcome() {
    let mut api = create_websocket_api(None, Some(WebsocketMode::Pool(2)), None);
    api.common.connection_pool[0].state.ws_write_tx = Some(1);
    let options = WebsocketMessageSendOptions::new().session_logon();
    let outcome = |api: &mut WebsocketApi, replies: Vec<Reply>| {
        api.finish_message::<Value>(&vec![0, 1], "m", &vec![], &options, replies)
            .unwrap_err()
    };
    let ok = || reply(r#"{"result":1}"#);
    assert_eq!(
        outcome(&mut api, vec![ok(), Reply::NotAwaited]),
        WebsocketError::NoResponse
    );
    assert_eq!(
        outcome(&mut api, vec![Reply::Abandoned, Reply::NotAwaited]),
        WebsocketError::Timeout
    );
    let refused = WebsocketError::ResponseError { code: -1, message: "no".into() };
    assert_eq!(
        outcome(&mut api, vec![ok(), failure(refused.clone()), ok()]),
        refused
    );
    assert!(!api.common.connection_pool[0].state.is_session_logged_on);
}

#[test]
fn replies_are_read_field_by_field() {
    let both = read_response::<Value>(&json(r#"{"response":[1,2],"result":{"a":1}}"#), &vec![]);
    assert_eq!(both.raw, json(r#"{"a":1}"#));
    assert_eq!(both.rate_limits, None);
    let response = read_response::<Value>(&json(r#"{"response":["ok"],"rateLimits":[]}"#), &vec![]);
    assert_eq!(response.raw, json(r#"["ok"]"#));
    assert_eq!(response.rate_limits, Some(vec![]));
    let neither = read_response::<Value>(&json(r#"{"rateLimits":[{"a":1},null]}"#), &vec![]);
    assert_eq!(neither.raw, Value::Null);
    assert_eq!(neither.rate_limits, None);
    let scalar = read_response::<Value>(&json(r#"{"result":null,"rateLimits":5}"#), &vec![]);
    assert_eq!(scalar.raw, Value::Null);
    assert_eq!(scalar.rate_limits, None);
}

#[test]
fn no_time_unit() {
    let api = create_websocket_api(None, None, None);
    let url = "wss://example.com/ws".to_string();
    assert_eq!(api.prepare_url(&url), url);
}

#[test]
fn appends_time_unit() {
    let api = create_websocket_api(Some(TimeUnit::Millisecond), None, None);
    let base = "wss://example.com/ws".to_string();
    assert_eq!(api.prepare_url(&base), format!("{base}?timeUnit=millisecond"));
}

#[test]
fn handles_existing_query() {
    let api = create_websocket_api(Some(TimeUnit::Microsecond), None, None);
    let base = "wss://example.com/ws?foo=bar".to_string();
    assert_eq!(api.prepare_url(&base), format!("{base}&timeUnit=microsecond"));
}

fn logon_request() -> WebsocketSessionLogonReq {
    WebsocketSessionLogonReq {
        method: "method".into(),
        payload: vec![("foo".to_string(), Value::String("bar".into()))],
        options: WebsocketMessageSendOptions::new()
            .with_api_key()
            .signed()
            .session_logon(),
    }
}

#[test]
fn session_relogon_on_open() {
    let mut api = api_with("test-conn");
    api.common.connection_pool[0].state.session_logon_req = Some(logon_request());
    api.common.connection_pool[0].state.ws_write_tx = Some(1);
    let request = api.on_open(0).expect("a session to open again");
    assert_eq!(request.method, "method");
    assert_eq!(request.payload[0].0, "foo");
    assert_eq!(request.payload[0].1, Value::String("bar".into()));
    assert!(request.options.with_api_key && request.options.is_signed);
    api.finish_relogon(0, Some(Ok(json(r#"{"id":"r","result":{},"rateLimits":[]}"#))));
    assert!(api.common.connection_pool[0].state.is_session_logged_on);
}

#[test]
fn no_relogon_if_already_logged_on() {
    let mut api = api_with("test-conn");
    api.common.connection_pool[0].state.session_logon_req = Some(logon_request());
    api.common.connection_pool[0].state.is_session_logged_on = true;
    assert!(api.on_open(0).is_none());
    assert!(api.common.connection_pool[0].state.is_session_logged_on);
}

#[test]
fn session_relogon_fails_gracefully() {
    let mut api = api_with("test-conn");
    api.common.connection_pool[0].state.session_logon_req = Some(logon_request());
    assert!(api.on_open(0).is_some());
    let sent = api
        .common
        .send("request".into(), Some("id".into()), true, 1, Some(0));
    assert!(sent.is_err());
    api.finish_relogon(0, None);
    assert!(!api.common.connection_pool[0].state.is_session_logged_on);
    api.finish_relogon(0, Some(Err(WebsocketError::Timeout)));
    assert!(!api.common.connection_pool[0].state.is_session_logged_on);
}

#[test]
fn session_relogon_noop_when_no_req() {
    let mut api = api_with("test-conn");
    api.common.connection_pool[0].state.ws_write_tx = Some(1);
    assert!(api.on_open(0).is_none());
    assert!(!api.common.connection_pool[0].state.is_session_logged_on);
}

#[test]
fn a_session_survives_a_reconnect() {
    let mut api = api_with("test-conn");
    api.common.connection_pool[0].state.ws_write_tx = Some(1);
    let options = WebsocketMessageSendOptions::new().session_logon();
    let plan = api.send_message(&options).unwrap();
    api.finish_message::<Value>(
        &plan.connections,
        "session.logon",
        &vec![("k".to_string(), json("1"))],
        &options,
        vec![reply(r#"{"result":1}"#)],
    )
    .unwrap();
    assert!(api.on_open(0).is_none());
    assert!(api.common.on_stream_end(0, false, None));
    assert_eq!(api.common.init_connect(false, Some(0)), Ok(Some(0)));
    api.common.finish_connect(0, "wss://example", Ok(2)).unwrap();
    let request = api.on_open(0).expect("the session is opened again");
    assert_eq!(request.method, "session.logon");
    assert_eq!(request.payload, vec![("k".to_string(), json("1"))]);
}

#[test]
fn resolves_pending_and_removes_request() {
    let mut api = api_with("test");
    await_reply(&mut api, "id1", 5);
    let text = r#"{"id":"id1","status":200,"foo":"bar"}"#;
    match api.on_message(text, 0) {
        ApiStep::Complete { completion, outcome } => {
            assert_eq!(completion, 5);
            assert_eq!(outcome, Ok(json(text)));
        }
        other => panic!("expected a reply, got {other:?}"),
    }
    assert!(!is_awaited(&api, "id1"));
    assert!(matches!(api.on_message(text, 0), ApiStep::Nothing));
}

#[test]
fn uses_result_when_present() {
    let mut api = api_with("test");
    await_reply(&mut api, "id1", 5);
    let text = r#"{"id":"id1","status":200,"response":[1,2],"result":{"a":1}}"#;
    match api.on_message(text, 0) {
        ApiStep::Complete { outcome: Ok(got), .. } => {
            assert_eq!(got.get("result").unwrap(), &json(r#"{"a":1}"#));
        }
        other => panic!("expected a reply, got {other:?}"),
    }
}

#[test]
fn uses_response_when_no_result() {
    let mut api = api_with("test");
    await_reply(&mut api, "id1", 5);
    match api.on_message(r#"{"id":"id1","status":200,"response":["ok"]}"#, 0) {
        ApiStep::Complete { outcome: Ok(got), .. } => {
            assert_eq!(got.get("response").unwrap(), &json(r#"["ok"]"#));
        }
        other => panic!("expected a reply, got {other:?}"),
    }
}

#[test]
fn errors_for_status_ge_400() {
    let mut api = api_with("test");
    await_reply(&mut api, "bad", 5);
    let text = r#"{"id":"bad","status":500,"error":{"code":123,"msg":"oops"}}"#;
    match api.on_message(text, 0) {
        ApiStep::Complete { outcome: Err(WebsocketError::ResponseError { code, message }), .. } => {
            assert_eq!(code, 123);
            assert_eq!(message, "oops");
        }
        other => panic!("expected ResponseError, got {other:?}"),
    }
    assert!(!is_awaited(&api, "bad"));
}

#[test]
fn ignores_unknown_id() {
    let mut api = api_with("test");
    assert!(matches!(
        api.on_message(r#"{"id":"nope","status":200}"#, 0),
        ApiStep::Nothing
    ));
    assert!(api.common.connection_pool[0].state.pending_requests.is_empty());
}

#[test]
fn parse_error_ignored() {
    let mut api = api_with("test");
    assert!(matches!(api.on_message("not json", 0), ApiStep::Nothing));
    assert!(api.common.connection_pool[0].state.pending_requests.is_empty());
}

#[test]
fn error_status_sends_error() {
    let mut api = api_with("test");
    await_reply(&mut api, "err", 5);
    let text = r#"{"id":"err","status":500,"error":{"code":42,"msg":"Bad!"}}"#;
    match api.on_message(text, 0) {
        ApiStep::Complete { outcome: Err(WebsocketError::ResponseError { code, message }), .. } => {
            assert_eq!(code, 42);
            assert_eq!(message, "Bad!");
        }
        other => panic!("expected ResponseError, got {other:?}"),
    }
}

#[test]
fn errors_fall_back_to_the_status() {
    let refused = |text: &str| match read_outcome(&json(text)) {
        Err(WebsocketError::ResponseError { code, message }) => (code, message),
        other => panic!("expected ResponseError, got {other:?}"),
    };
    let unknown = "Unknown error".to_string();
    assert_eq!(refused(r#"{"status":400}"#), (400, unknown.clone()));
    assert_eq!(refused(r#"{"status":403,"error":7}"#), (403, unknown.clone()));
    assert_eq!(
        refused(r#"{"status":403,"error":{"code":"x","msg":1}}"#),
        (403, unknown)
    );
    assert_eq!(
        refused(r#"{"status":418,"error":{"code":-1121,"msg":"Invalid"}}"#),
        (-1121, "Invalid".to_string())
    );
    assert!(read_outcome(&json(r#"{"status":399}"#)).is_ok());
    assert!(read_outcome(&json(r#"{"status":"500"}"#)).is_ok());
    assert!(read_outcome(&json(r#"{"status":-1}"#)).is_ok());
}

#[test]
fn a_status_beyond_every_error_code_is_told_apart() {
    let mut api = api_with("test");
    let text = r#"{"id":"big","status":9223372036854775808}"#;
    assert!(matches!(api.on_message(text, 0), ApiStep::Nothing));
    await_reply(&mut api, "big", 5);
    assert!(matches!(api.on_message(text, 0), ApiStep::StatusOutOfRange));
    assert!(is_awaited(&api, "big"));
}

#[test]
fn unknown_id_logs_warning_and_leaves_pending() {
    let mut api = api_with("test");
    await_reply(&mut api, "keep", 5);
    api.on_message(r#"{"id":"foo","status":200,"result":1}"#, 0);
    assert!(is_awaited(&api, "keep"));
}

#[test]
fn server_shutdown_enqueues_reconnect() {
    let mut api = api_with("test");
    match api.on_message(r#"{"event":{"e":"serverShutdown"}}"#, 0) {
        ApiStep::Renew(entry) => {
            assert_eq!(entry.connection_id, "test");
            assert_eq!(entry.url, "");
            assert!(entry.is_renewal);
        }
        other => panic!("expected a renewal, got {other:?}"),
    }
    assert!(api.common.connection_pool[0].state.renewal_pending);
}

#[test]
fn the_entry_of_a_shutdown_opens_nothing() {
    let mut api = api_with("test");
    api.common.connection_pool[0].state.ws_write_tx = Some(1);
    match api.on_message(r#"{"event":{"e":"serverShutdown"}}"#, 0) {
        ApiStep::Renew(entry) => {
            let found = api.common.find_connection(&entry.connection_id);
            assert_eq!(api.common.init_connect(entry.is_renewal, found), Ok(None));
        }
        other => panic!("expected a renewal, got {other:?}"),
    }
    assert!(api.common.connection_pool[0].state.renewal_pending);
}

#[test]
fn numbers_that_are_no_integers_are_handed_on() {
    let mut api = api_with("test");
    api.stream_callbacks.insert("a".to_string(), vec![1]);
    match api.on_message(r#"{"event":{"e":"trade","p":0.125,"q":-1e30}}"#, 0) {
        ApiStep::Deliver { event, .. } => {
            assert_eq!(event["p"].as_f64(), Some(0.125));
            assert_eq!(event["q"].as_f64(), Some(-1e30));
        }
        other => panic!("expected a delivery, got {other:?}"),
    }
    let read = read_response::<Value>(&json(r#"{"result":[2.5]}"#), &vec![]);
    assert_eq!(read.raw, json("[2.5]"));
}

#[test]
fn server_shutdown_renews_at_the_path_of_the_connection() {
    let mut api = api_with("test");
    api.common.connection_pool[0].state.url_path = Some("path1".to_string());
    match api.on_message(r#"{"event":{"e":"serverShutdown"}}"#, 0) {
        ApiStep::Renew(entry) => assert_eq!(entry.url, "path1"),
        other => panic!("expected a renewal, got {other:?}"),
    }
}

#[test]
fn server_shutdown_ignored_if_renewal_pending() {
    let mut api = api_with("test");
    api.common.connection_pool[0].state.renewal_pending = true;
    assert!(matches!(
        api.on_message(r#"{"event":{"e":"serverShutdown"}}"#, 0),
        ApiStep::Nothing
    ));
    assert!(api.common.connection_pool[0].state.renewal_pending);
}

#[test]
fn server_shutdown_ignored_if_close_initiated() {
    let mut api = api_with("test");
    api.common.connection_pool[0].state.close_initiated = true;
    assert!(matches!(
        api.on_message(r#"{"event":{"e":"serverShutdown"}}"#, 0),
        ApiStep::Nothing
    ));
    assert!(!api.common.connection_pool[0].state.renewal_pending);
}

#[test]
fn server_shutdown_does_not_touch_pending_requests() {
    let mut api = api_with("test");
    await_reply(&mut api, "keep", 5);
    api.on_message(r#"{"event":{"e":"serverShutdown"}}"#, 0);
    assert!(is_awaited(&api, "keep"));
    assert!(api.common.connection_pool[0].state.renewal_pending);
}

#[test]
fn events_go_to_every_callback() {
    let mut api = api_with("test");
    api.stream_callbacks.insert("a".to_string(), vec![1, 2]);
    api.stream_callbacks.insert("b".to_string(), vec![3]);
    match api.on_message(r#"{"event":{"e":"trade","p":1}}"#, 0) {
        ApiStep::Deliver { event, callbacks } => {
            assert_eq!(event, json(r#"{"e":"trade","p":1}"#));
            assert_eq!(callbacks, vec![1, 2, 3]);
        }
        other => panic!("expected a delivery, got {other:?}"),
    }
    assert!(matches!(
        api.on_message(r#"{"event":{"e":7}}"#, 0),
        ApiStep::Deliver { .. }
    ));
    assert!(matches!(api.on_message(r#"{"event":{}}"#, 0), ApiStep::Nothing));
    assert!(matches!(api.on_message(r#"{"id":3}"#, 0), ApiStep::Nothing));
}

#[test]
fn requests_and_replies_meet() {
    let mut api = api_with("test");
    api.common.connection_pool[0].state.ws_write_tx = Some(4);
    let dispatch = api
        .common
        .send("{}".into(), Some("r1".into()), true, 66, None)
        .unwrap();
    assert_eq!(api.common.finish_send(0, &dispatch.request_id, true), Ok(true));
    match api.on_message(r#"{"id":"r1","result":[]}"#, 0) {
        ApiStep::Complete { completion, outcome } => {
            assert_eq!(completion, 66);
            assert!(outcome.is_ok());
        }
        other => panic!("expected a reply, got {other:?}"),
    }
    assert_eq!(api.common.expire_request(0, &"r1".to_string()), None);
}

#[test]
fn connections_are_opened_again_where_they_were() {
    let api = api_with("test");
    assert_eq!(api.get_reconnect_url("wss://example".into(), 0), "wss://example");
}

#[test]
fn clients_share_the_pool_operations() {
    let mut api = api_with("test");
    assert!(!api.is_connected());
    assert!(api.ping_server().is_empty());
    api.common.connection_pool[0].state.ws_write_tx = Some(4);
    assert!(api.is_connected());
    assert_eq!(api.ping_server(), vec![("test".to_string(), 4)]);
    assert_eq!(api.disconnect(), Ok(vec![(0, 4)]));
    assert!(!api.is_connected());
}

#[test]
fn disconnecting_without_a_connection_is_an_error() {
    let mut api = api_with("c1");
    assert_eq!(api.disconnect(), Err(WebsocketError::NotConnected));
    assert!(!api.common.connection_pool[0].state.close_initiated);
}

#[test]
fn success_means_connected() {
    let mut api = api_with("c1");
    assert!(matches!(api.connect(1), ConnectStep::Open(_)));
    assert_eq!(api.common.init_connect(false, Some(0)), Ok(Some(0)));
    api.common.finish_connect(0, "wss://example", Ok(4)).unwrap();
    assert_eq!(api.finish_connect(Some(Ok(()))), Ok(()));
    assert!(api.is_connected());
    api.disconnect().unwrap();
    api.common.finish_disconnect(Some(Ok(()))).unwrap();
    assert!(matches!(api.connect(1), ConnectStep::Open(_)));
    assert_eq!(api.common.init_connect(false, Some(0)), Ok(None));
    assert_eq!(api.finish_connect(Some(Ok(()))), Err(WebsocketError::NotConnected));
    assert!(!api.is_connected());
}

#[test]
fn options_are_built_step_by_step() {
    let options = WebsocketMessageSendOptions::new();
    assert!(!options.with_api_key && !options.is_signed);
    assert_eq!(options.is_session_logon, None);
    assert_eq!(options.is_session_logout, None);
    let options = options.with_api_key().signed().session_logon().session_logout();
    assert!(options.with_api_key && options.is_signed);
    assert_eq!(options.is_session_logon, Some(true));
    assert_eq!(options.is_session_logout, Some(true));
    assert!(options.opens_session() && options.concerns_session());
}

#[test]
fn single_replies_are_iterated_once() {
    let single = SendWebsocketMessageResult::Single(read_response::<Value>(&json(r#"{"result":7}"#), &vec![]));
    let raws: Vec<Value> = single.into_iter().map(|response| response.raw).collect();
    assert_eq!(raws, vec![json("7")]);
}
