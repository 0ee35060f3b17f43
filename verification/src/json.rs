//! JSON documents: the outside `serde_json` calls the library makes, and the
//! mathematical document each of them is described by.

use crate::models::StreamId;
use serde_json::Value;
use vstd::prelude::*;

verus! {

/// A JSON document as a mathematical value. Integers are exact; a number that
/// is not an integer is known by the text that `serde_json` writes it as.
pub enum JsonView {
    Null,
    Bool(bool),
    Integer(int),
    Float(Seq<char>),
    Text(Seq<char>),
    Array(Seq<JsonView>),
    Object(Map<Seq<char>, JsonView>),
}

impl JsonView {
    /// The member `key` of an object; nothing for any other document.
    pub open spec fn member(self, key: Seq<char>) -> Option<JsonView> {
        match self {
            JsonView::Object(members) => if members.contains_key(key) {
                Some(members[key])
            } else {
                None
            },
            _ => None,
        }
    }

    /// The text of a string document.
    pub open spec fn text(self) -> Option<Seq<char>> {
        match self {
            JsonView::Text(text) => Some(text),
            _ => None,
        }
    }

    /// The value of an integer in the range of `u64`.
    pub open spec fn unsigned(self) -> Option<u64> {
        match self {
            JsonView::Integer(n) => if 0 <= n <= u64::MAX {
                Some(n as u64)
            } else {
                None
            },
            _ => None,
        }
    }

    /// The value of an integer in the range of `i64`.
    pub open spec fn signed(self) -> Option<i64> {
        match self {
            JsonView::Integer(n) => if i64::MIN <= n <= i64::MAX {
                Some(n as i64)
            } else {
                None
            },
            _ => None,
        }
    }
}

/// A `serde_json::Value`, carried through as an opaque value.
#[verifier::external_type_specification]
#[verifier::external_body]
pub struct ExValue(serde_json::Value);

/// The error of a failed `serde_json` call.
#[verifier::external_type_specification]
#[verifier::external_body]
pub struct ExJsonError(serde_json::Error);

/// The document that a `serde_json::Value` holds.
pub uninterp spec fn json_view(value: Value) -> JsonView;

/// The documents that a list of values holds.
pub open spec fn json_views(values: Seq<Value>) -> Seq<JsonView> {
    values.map_values(|value: Value| json_view(value))
}

/// The document that `serde_json::from_str` reads from a text, if it reads one.
pub uninterp spec fn json_parse(text: Seq<char>) -> Option<JsonView>;

/// Calls `serde_json::from_str::<Value>`, whose outcome depends on the text
/// alone: `Ok` with the document named by `json_parse`, or an error.
#[verifier::external_body]
pub(crate) fn parse(text: &str) -> (result: Result<Value, serde_json::Error>)
    ensures
        match result {
            Ok(value) => json_parse(text@) == Some(json_view(value)),
            Err(_) => json_parse(text@) is None,
        },
{
    serde_json::from_str(text)
}

/// Calls `Value::get` with a string index: the member of that name when the
/// value is an object that has one.
#[verifier::external_body]
pub(crate) fn member<'a>(value: &'a Value, key: &str) -> (result: Option<&'a Value>)
    ensures
        match result {
            Some(found) => json_view(*value).member(key@) == Some(json_view(*found)),
            None => json_view(*value).member(key@) is None,
        },
{
    value.get(key)
}

/// `Value::as_str`: the text of a string document, nothing for any other.
pub assume_specification[ Value::as_str ](value: &Value) -> (result: Option<&str>)
    ensures
        match result {
            Some(text) => json_view(*value).text() == Some(text@),
            None => json_view(*value).text() is None,
        },
;

/// `Value::as_u64`: an integer document in the range of `u64`.
pub assume_specification[ Value::as_u64 ](value: &Value) -> (result: Option<u64>)
    ensures
        result == json_view(*value).unsigned(),
;

/// `Value::as_i64`: an integer document in the range of `i64`.
pub assume_specification[ Value::as_i64 ](value: &Value) -> (result: Option<i64>)
    ensures
        result == json_view(*value).signed(),
;

/// `Value::clone`: a value that holds the same document.
pub assume_specification[ <Value as Clone>::clone ](value: &Value) -> (result: Value)
    ensures
        json_view(result) == json_view(*value),
;

/// `Value::is_null`: whether the document is `null`.
pub assume_specification[ Value::is_null ](value: &Value) -> (result: bool)
    ensures
        result == (json_view(*value) is Null),
;

/// `Value::as_array`: the elements of an array, nothing for any other document.
pub assume_specification[ Value::as_array ](value: &Value) -> (result: Option<&Vec<Value>>)
    ensures
        match result {
            Some(items) => json_view(*value) == JsonView::Array(json_views(items@)),
            None => !(json_view(*value) is Array),
        },
;

/// `Value::default`: the document `null`.
pub assume_specification[ <Value as Default>::default ]() -> (result: Value)
    ensures
        json_view(result) == JsonView::Null,
;

/// Converts a text by `Value::from`: a string document.
#[verifier::external_body]
fn text_value(text: String) -> (result: Value)
    ensures
        json_view(result) == JsonView::Text(text@),
{
    Value::from(text)
}

/// Converts a number by `Value::from`: an integer document.
#[verifier::external_body]
fn number_value(number: u32) -> (result: Value)
    ensures
        json_view(result) == JsonView::Integer(number as int),
{
    Value::from(number)
}

/// Converts a list of values by `Value::from`: an array of them, in order.
#[verifier::external_body]
fn array_value(items: Vec<Value>) -> (result: Value)
    ensures
        json_view(result) == JsonView::Array(json_views(items@)),
{
    Value::from(items)
}

/// The members that a list of values with names of their own makes up.
pub open spec fn members(entries: Seq<(String, Value)>) -> Map<Seq<char>, JsonView>
    decreases entries.len(),
{
    if entries.len() == 0 {
        Map::empty()
    } else {
        members(entries.drop_last()).insert(entries.last().0@, json_view(entries.last().1))
    }
}

/// Collects values with names of their own by `Value::from_iter`: an object of
/// them.
#[verifier::external_body]
fn object_value(entries: Vec<(String, Value)>) -> (result: Value)
    requires
        forall|i: int, j: int|
            0 <= i < j < entries.len() ==> (#[trigger] entries[i]).0@ != (
            #[trigger] entries[j]).0@,
    ensures
        json_view(result) == JsonView::Object(members(entries@)),
{
    Value::from_iter(entries)
}

/// A string, an integer in the range of `u32` or an array of strings.
pub open spec fn is_plain(document: JsonView) -> bool {
    match document {
        JsonView::Text(_) => true,
        JsonView::Integer(n) => 0 <= n <= u32::MAX,
        JsonView::Array(items) => forall|i: int| 0 <= i < items.len() ==> (#[trigger] items[i]) is Text,
        _ => false,
    }
}

/// An object whose members are all plain.
pub open spec fn is_plain_object(document: JsonView) -> bool {
    match document {
        JsonView::Object(members) => forall|key: Seq<char>| #[trigger]
            members.contains_key(key) ==> is_plain(members[key]),
        _ => false,
    }
}

/// The text that `serde_json::to_string` writes a value as.
pub uninterp spec fn json_text(value: Value) -> Seq<char>;

/// Calls `serde_json::to_string`, which writes any value. The text depends on
/// the value alone, and that of an object of plain members reads as the same
/// document.
#[verifier::external_body]
fn serialize(value: &Value) -> (result: Result<String, serde_json::Error>)
    ensures
        result is Ok,
        result->Ok_0@ == json_text(*value),
        is_plain_object(json_view(*value)) ==> json_parse(result->Ok_0@) == Some(
            json_view(*value),
        ),
{
    serde_json::to_string(value)
}

/// The text of a document.
pub fn document_text(document: &Value) -> (result: String)
    ensures
        result@ == json_text(*document),
        is_plain_object(json_view(*document)) ==> json_parse(result@) == Some(
            json_view(*document),
        ),
{
    serialize(document).unwrap()
}

/// A request of a method with its parameters and its identifier.
pub open spec fn request_document(
    method: Seq<char>,
    params: Seq<Seq<char>>,
    id: JsonView,
) -> JsonView {
    JsonView::Object(
        Map::empty().insert("method"@, JsonView::Text(method)).insert(
            "params"@,
            JsonView::Array(params.map_values(|param: Seq<char>| JsonView::Text(param))),
        ).insert("id"@, id),
    )
}

/// The text of a request. It reads as the request's document.
pub fn request_text(method: &str, params: &Vec<String>, id: &StreamId) -> (result: String)
    ensures
        json_parse(result@) == Some(
            request_document(method@, params.deep_view(), id@.document()),
        ),
{
    let mut items: Vec<Value> = Vec::new();
    let mut i: usize = 0;
    while i < params.len()
        invariant
            i <= params.len(),
            items.len() == i,
            forall|j: int|
                0 <= j < i ==> json_view(#[trigger] items[j]) == JsonView::Text(params[j]@),
        decreases params.len() - i,
    {
        items.push(text_value(params[i].clone()));
        i += 1;
    }
    let id_value = match id {
        StreamId::Str(text) => text_value(text.clone()),
        StreamId::Number(number) => number_value(*number),
    };
    let ghost texts = params.deep_view().map_values(|param: Seq<char>| JsonView::Text(param));
    proof {
        assert(json_views(items@) =~= texts);
    }
    let entries: Vec<(String, Value)> = vec![
        ("method".to_owned(), text_value(method.to_owned())),
        ("params".to_owned(), array_value(items)),
        ("id".to_owned(), id_value),
    ];
    proof {
        reveal_with_fuel(members, 4);
        let all = entries@;
        assert(all.drop_last() =~= seq![all[0], all[1]]);
        assert(all.drop_last().drop_last() =~= seq![all[0]]);
        assert(all.drop_last().drop_last().drop_last() =~= Seq::empty());
        reveal_strlit("method");
        reveal_strlit("params");
        reveal_strlit("id");
        assert(all[0].0@[0] == 'm' && all[1].0@[0] == 'p' && all[2].0@[0] == 'i');
    }
    let document = object_value(entries);
    proof {
        assert(json_view(document) == request_document(
            method@,
            params.deep_view(),
            id@.document(),
        ));
    }
    document_text(&document)
}

} // verus!
