use websocket_common::exchange::MessageAction;
use websocket_common::emitter::{WebsocketEventEmitter, WebsocketMessageEventEmitter};
use websocket_common::models::WebsocketEvent;

#[test]
fn event_emitter_subscribe_and_emit() {
    let mut emitter = WebsocketEventEmitter::new();
    emitter.subscribe(7);
    assert_eq!(
        emitter.emit(&WebsocketEvent::Open),
        vec![(7, WebsocketEvent::Open)]
    );
}

#[test]
fn single_subscriber_gets_event() {
    let mut emitter = WebsocketEventEmitter::default();
    emitter.subscribe(1);
    let e1 = WebsocketEvent::Open;
    assert_eq!(emitter.emit(&e1), vec![(1, e1)]);
}

#[test]
fn multiple_subscribers_get_event() {
    let mut emitter = WebsocketEventEmitter::new();
    emitter.subscribe(1);
    emitter.subscribe(2);
    let e = WebsocketEvent::Message("hello".into());
    assert_eq!(emitter.emit(&e), vec![(1, e.clone()), (2, e)]);
}

#[test]
fn closed_subscribers_are_pruned() {
    let mut emitter = WebsocketEventEmitter::new();
    emitter.subscribe(1);
    emitter.subscribe(2);
    let e = WebsocketEvent::Pong;
    assert_eq!(emitter.emit(&e).len(), 2);
    emitter.retain_reached(&vec![false, true]);
    assert_eq!(emitter.emit(&e), vec![(2, e)]);
}

#[test]
fn prune_on_error_does_not_hang() {
    let mut emitter = WebsocketEventEmitter::new();
    emitter.subscribe(1);
    let e = WebsocketEvent::Close(1000, "bye".into());
    assert_eq!(emitter.emit(&e).len(), 1);
    emitter.retain_reached(&vec![false]);
    assert!(emitter.emit(&e).is_empty());
}

#[test]
fn subscribers_that_are_reached_stay() {
    let mut emitter = WebsocketEventEmitter::new();
    emitter.subscribe(3);
    emitter.subscribe(3);
    emitter.retain_reached(&vec![true, true]);
    assert_eq!(emitter.subscribers, vec![3, 3]);
}

#[test]
fn messages_without_subscribers_are_not_built() {
    let mut emitter = WebsocketMessageEventEmitter::new();
    assert!(emitter.emit("p", "c", None, Some(1)).is_empty());
    emitter.subscribe(1);
    let event = emitter.emit("p", "c", None, Some(12)).remove(0).1;
    assert_eq!(event.payload, "p");
    assert_eq!(event.connection_id, "c");
    assert_eq!(event.url_path, None);
    assert_eq!(event.received_at_ms, 12);
    emitter.retain_reached(&vec![false]);
    assert!(emitter.subscribers.is_empty());
}

#[test]
fn message_subscribers_join_the_pool() {
    let mut common = websocket_common::common::WebsocketCommon::new(
        vec![],
        websocket_common::models::WebsocketMode::Single,
        0,
        None,
        &vec!["id".to_string()],
    );
    common.subscribe_on_message_events(3);
    common.subscribe_on_message_events(8);
    let deliveries = match common.on_message("m".to_string(), 0, Some(5)).remove(0) {
        MessageAction::Deliver(deliveries) => deliveries,
        other => panic!("expected a delivery, got {other:?}"),
    };
    let told: Vec<u64> = deliveries.iter().map(|(subscriber, _)| *subscriber).collect();
    assert_eq!(told, vec![3, 8]);
    let event = &deliveries[1].1;
    assert_eq!(event.payload, "m");
    assert_eq!(event.connection_id, "id");
    assert_eq!(event.url_path, None);
    assert_eq!(event.received_at_ms, 5);
    assert_eq!(common.message_events.subscribers, vec![3, 8]);
}
