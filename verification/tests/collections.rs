use websocket_common::models::{append_time_unit, StreamId, TimeUnit, WebsocketMode};
use websocket_common::string_map::StringMap;
use websocket_common::text::{
    chars_of, contains_char, decimal_text, ends_with, join, same_text, strip_to_separator,
};

fn key(text: &str) -> String {
    text.to_string()
}

#[test]
fn maps_hold_one_value_for_each_key() {
    let mut map: StringMap<u64> = StringMap::new();
    assert!(map.is_empty());
    map.insert(key("a"), 1);
    map.insert(key("b"), 2);
    map.insert(key("a"), 3);
    assert_eq!(map.len(), 2);
    assert_eq!(map.get(&key("a")), Some(&3));
    assert_eq!(map.get(&key("c")), None);
    assert!(map.contains_key(&key("b")));
    let mut listed: Vec<(String, u64)> = (0..map.len())
        .map(|i| (map.key_at(i).clone(), *map.value_at(i)))
        .collect();
    listed.sort();
    assert_eq!(listed, vec![(key("a"), 3), (key("b"), 2)]);
}

#[test]
fn maps_let_go_of_keys() {
    let mut map: StringMap<u64> = StringMap::new();
    map.insert(key("a"), 1);
    map.insert(key("b"), 2);
    assert_eq!(map.remove(&key("a")), Some(1));
    assert_eq!(map.remove(&key("a")), None);
    assert_eq!(map.len(), 1);
    map.clear();
    assert!(map.is_empty());
    assert!(!map.contains_key(&key("b")));
}

#[test]
fn texts_are_compared_character_by_character() {
    assert_eq!(chars_of("aé😀"), vec!['a', 'é', '😀']);
    assert!(same_text("é", "é"));
    assert!(!same_text("é", "e"));
    assert!(contains_char("ws://x?y", '?'));
    assert!(!contains_char("", '?'));
    assert!(ends_with("path::s", "::s"));
    assert!(ends_with("s", ""));
    assert!(!ends_with("s", "::s"));
}

#[test]
fn texts_are_taken_apart_and_joined() {
    assert_eq!(strip_to_separator("p::s"), "s");
    assert_eq!(strip_to_separator("p::s::t"), "s::t");
    assert_eq!(strip_to_separator("p:s"), "p:s");
    assert_eq!(strip_to_separator("::"), "");
    assert_eq!(strip_to_separator("p:::s"), ":s");
    assert_eq!(join(&vec![], "/"), "");
    assert_eq!(join(&vec![key("a")], "/"), "a");
    assert_eq!(join(&vec![key("a"), key(""), key("b")], "/"), "a//b");
}

#[test]
fn numbers_are_written_in_decimal() {
    assert_eq!(decimal_text(0), "0");
    assert_eq!(decimal_text(1090), "1090");
    assert_eq!(decimal_text(usize::MAX), format!("{}", usize::MAX));
}

#[test]
fn time_units_join_the_query() {
    assert_eq!(append_time_unit(key("ws://x"), &None), "ws://x");
    assert_eq!(
        append_time_unit(key("ws://x"), &Some(TimeUnit::Microsecond)),
        "ws://x?timeUnit=microsecond"
    );
    assert_eq!(
        append_time_unit(key("ws://x?a"), &Some(TimeUnit::Millisecond)),
        "ws://x?a&timeUnit=millisecond"
    );
}

#[test]
fn modes_have_a_size_and_identifiers_a_kind() {
    assert_eq!(WebsocketMode::Single.pool_size(), 1);
    assert_eq!(WebsocketMode::Pool(7).pool_size(), 7);
    assert_eq!(StreamId::from(key("x")), StreamId::Str(key("x")));
    assert_eq!(StreamId::from(9u32), StreamId::Number(9));
}
