//! The plain values that the connections exchange with their users.

use crate::json::{json_view, json_views, JsonView};
use crate::text::chars_of;
use serde_json::Value;
use std::marker::PhantomData;
use vstd::prelude::*;

verus! {

/// How many connections are held.
#[derive(Clone, Copy, Debug, PartialEq, Eq, Structural)]
pub enum WebsocketMode {
    Single,
    Pool(usize),
}

impl WebsocketMode {
    /// The number of connections of the mode.
    pub open spec fn size(self) -> usize {
        match self {
            WebsocketMode::Single => 1,
            WebsocketMode::Pool(size) => size,
        }
    }

    /// The number of connections of the mode.
    pub fn pool_size(&self) -> (result: usize)
        ensures
            result == self.size(),
    {
        match self {
            WebsocketMode::Single => 1,
            WebsocketMode::Pool(size) => *size,
        }
    }
}

/// The unit of the timestamps that a server sends.
#[derive(Clone, Copy, Debug, PartialEq, Eq, Structural)]
pub enum TimeUnit {
    Millisecond,
    Microsecond,
}

impl TimeUnit {
    /// The unit as it stands in a URL.
    pub open spec fn spelled(self) -> Seq<char> {
        match self {
            TimeUnit::Millisecond => "millisecond"@,
            TimeUnit::Microsecond => "microsecond"@,
        }
    }

    /// The unit as it stands in a URL.
    pub fn as_str(&self) -> (result: &'static str)
        ensures
            result@ == self.spelled(),
    {
        match self {
            TimeUnit::Millisecond => "millisecond",
            TimeUnit::Microsecond => "microsecond",
        }
    }
}

/// The identifier of a subscription request.
#[derive(Debug, PartialEq, Eq)]
pub enum StreamId {
    Str(String),
    Number(u32),
}

/// The identifier of a subscription request, as a mathematical value.
pub enum StreamIdView {
    Str(Seq<char>),
    Number(u32),
}

impl StreamIdView {
    /// The identifier as a JSON document.
    pub open spec fn document(self) -> JsonView {
        match self {
            StreamIdView::Str(text) => JsonView::Text(text),
            StreamIdView::Number(n) => JsonView::Integer(n as int),
        }
    }
}

impl View for StreamId {
    type V = StreamIdView;

    open spec fn view(&self) -> StreamIdView {
        match self {
            StreamId::Str(text) => StreamIdView::Str(text@),
            StreamId::Number(n) => StreamIdView::Number(*n),
        }
    }
}

impl DeepView for StreamId {
    type V = StreamIdView;

    open spec fn deep_view(&self) -> StreamIdView {
        self@
    }
}

impl Clone for StreamId {
    fn clone(&self) -> (result: Self)
        ensures
            result@ == self@,
    {
        match self {
            StreamId::Str(text) => StreamId::Str(text.clone()),
            StreamId::Number(n) => StreamId::Number(*n),
        }
    }
}

impl From<String> for StreamId {
    fn from(text: String) -> (result: Self) {
        StreamId::Str(text)
    }
}

impl vstd::std_specs::convert::FromSpecImpl<String> for StreamId {
    open spec fn obeys_from_spec() -> bool {
        true
    }

    open spec fn from_spec(text: String) -> Self {
        StreamId::Str(text)
    }
}

impl From<u32> for StreamId {
    fn from(n: u32) -> (result: Self) {
        StreamId::Number(n)
    }
}

impl vstd::std_specs::convert::FromSpecImpl<u32> for StreamId {
    open spec fn obeys_from_spec() -> bool {
        true
    }

    open spec fn from_spec(n: u32) -> Self {
        StreamId::Number(n)
    }
}

/// Clones an optional identifier.
pub fn clone_id(id: &Option<StreamId>) -> (result: Option<StreamId>)
    ensures
        result.deep_view() == id.deep_view(),
{
    match id {
        Some(id) => Some(id.clone()),
        None => None,
    }
}

/// A hexadecimal digit.
pub open spec fn is_hex_digit(c: char) -> bool {
    ('0' <= c && c <= '9') || ('a' <= c && c <= 'f') || ('A' <= c && c <= 'F')
}

/// A text of 32 hexadecimal digits.
pub open spec fn is_request_text(text: Seq<char>) -> bool {
    text.len() == 32 && forall|i: int| 0 <= i < text.len() ==> is_hex_digit(#[trigger] text[i])
}

/// The identifier a request is sent with: the one asked for where it is valid,
/// a fresh one otherwise. Where only numbers are valid, a text never is.
pub open spec fn normalized_id(
    id: Option<StreamIdView>,
    strictly_number: bool,
    fresh_text: Seq<char>,
    fresh_number: u32,
) -> StreamIdView {
    match id {
        Some(StreamIdView::Number(n)) => StreamIdView::Number(n),
        Some(StreamIdView::Str(text)) if !strictly_number && is_request_text(text) => {
            StreamIdView::Str(text)
        },
        _ => if strictly_number {
            StreamIdView::Number(fresh_number)
        } else {
            StreamIdView::Str(fresh_text)
        },
    }
}

fn is_request_id(text: &str) -> (result: bool)
    ensures
        result == is_request_text(text@),
{
    let chars = chars_of(text);
    if chars.len() != 32 {
        return false;
    }
    let mut i: usize = 0;
    while i < chars.len()
        invariant
            i <= chars.len(),
            chars@ == text@,
            forall|j: int| 0 <= j < i ==> is_hex_digit(#[trigger] text@[j]),
        decreases chars.len() - i,
    {
        let c = chars[i];
        let hex = ('0' <= c && c <= '9') || ('a' <= c && c <= 'f') || ('A' <= c && c <= 'F');
        if !hex {
            proof {
                assert(!is_hex_digit(text@[i as int]));
            }
            return false;
        }
        i += 1;
    }
    true
}

/// The identifier a request is sent with: `id` where it is valid, otherwise a
/// fresh one, `fresh_text` or, where only numbers are valid, `fresh_number`.
pub fn normalize_stream_id(
    id: Option<StreamId>,
    stream_id_is_strictly_number: bool,
    fresh_text: String,
    fresh_number: u32,
) -> (result: StreamId)
    ensures
        result@ == normalized_id(
            id.deep_view(),
            stream_id_is_strictly_number,
            fresh_text@,
            fresh_number,
        ),
{
    match id {
        Some(StreamId::Number(n)) => return StreamId::Number(n),
        Some(StreamId::Str(text)) => {
            if !stream_id_is_strictly_number && is_request_id(text.as_str()) {
                return StreamId::Str(text);
            }
        },
        None => {},
    }
    if stream_id_is_strictly_number {
        StreamId::Number(fresh_number)
    } else {
        StreamId::Str(fresh_text)
    }
}

/// What happened on a connection.
#[derive(Debug, PartialEq, Eq)]
pub enum WebsocketEvent {
    Open,
    Message(String),
    Error(String),
    Close(u16, String),
    Ping,
    Pong,
}

/// What happened on a connection, as a mathematical value.
pub enum WebsocketEventView {
    Open,
    Message(Seq<char>),
    Error(Seq<char>),
    Close(u16, Seq<char>),
    Ping,
    Pong,
}

impl View for WebsocketEvent {
    type V = WebsocketEventView;

    open spec fn view(&self) -> WebsocketEventView {
        match self {
            WebsocketEvent::Open => WebsocketEventView::Open,
            WebsocketEvent::Message(text) => WebsocketEventView::Message(text@),
            WebsocketEvent::Error(text) => WebsocketEventView::Error(text@),
            WebsocketEvent::Close(code, reason) => WebsocketEventView::Close(*code, reason@),
            WebsocketEvent::Ping => WebsocketEventView::Ping,
            WebsocketEvent::Pong => WebsocketEventView::Pong,
        }
    }
}

impl DeepView for WebsocketEvent {
    type V = WebsocketEventView;

    open spec fn deep_view(&self) -> WebsocketEventView {
        self@
    }
}

impl Clone for WebsocketEvent {
    fn clone(&self) -> (result: Self)
        ensures
            result@ == self@,
    {
        match self {
            WebsocketEvent::Open => WebsocketEvent::Open,
            WebsocketEvent::Message(text) => WebsocketEvent::Message(text.clone()),
            WebsocketEvent::Error(text) => WebsocketEvent::Error(text.clone()),
            WebsocketEvent::Close(code, reason) => WebsocketEvent::Close(*code, reason.clone()),
            WebsocketEvent::Ping => WebsocketEvent::Ping,
            WebsocketEvent::Pong => WebsocketEvent::Pong,
        }
    }
}

/// A text message with the connection that it came through.
#[derive(Debug, PartialEq, Eq)]
pub struct WebsocketMessageEvent {
    pub payload: String,
    pub connection_id: String,
    pub url_path: Option<String>,
    pub received_at_ms: i64,
}

/// A text message with the connection that it came through, as a mathematical
/// value.
pub struct MessageEventView {
    pub payload: Seq<char>,
    pub connection_id: Seq<char>,
    pub url_path: Option<Seq<char>>,
    pub received_at_ms: i64,
}

impl View for WebsocketMessageEvent {
    type V = MessageEventView;

    open spec fn view(&self) -> MessageEventView {
        MessageEventView {
            payload: self.payload@,
            connection_id: self.connection_id@,
            url_path: self.url_path.deep_view(),
            received_at_ms: self.received_at_ms,
        }
    }
}

impl DeepView for WebsocketMessageEvent {
    type V = MessageEventView;

    open spec fn deep_view(&self) -> MessageEventView {
        self@
    }
}

impl Clone for WebsocketMessageEvent {
    fn clone(&self) -> (result: Self)
        ensures
            result@ == self@,
    {
        WebsocketMessageEvent {
            payload: self.payload.clone(),
            connection_id: self.connection_id.clone(),
            url_path: clone_text(&self.url_path),
            received_at_ms: self.received_at_ms,
        }
    }
}

/// Clones an optional text.
pub fn clone_text(text: &Option<String>) -> (result: Option<String>)
    ensures
        result.deep_view() == text.deep_view(),
{
    match text {
        Some(text) => Some(text.clone()),
        None => None,
    }
}

/// An owned copy of an optional text.
pub fn own_text(text: Option<&str>) -> (result: Option<String>)
    ensures
        result.deep_view() == text_view(text),
{
    match text {
        Some(text) => Some(text.to_owned()),
        None => None,
    }
}

/// The characters of an optional text.
pub open spec fn text_view(text: Option<&str>) -> Option<Seq<char>> {
    match text {
        Some(text) => Some(text@),
        None => None,
    }
}

/// Why a request failed.
#[derive(Debug, PartialEq, Eq)]
pub enum WebsocketError {
    NotConnected,
    Timeout,
    Handshake(String),
    NoResponse,
    ServerError(String),
    ResponseError { code: i64, message: String },
}

/// Why a request failed, as a mathematical value.
pub enum WebsocketErrorView {
    NotConnected,
    Timeout,
    Handshake(Seq<char>),
    NoResponse,
    ServerError(Seq<char>),
    ResponseError { code: i64, message: Seq<char> },
}

impl View for WebsocketError {
    type V = WebsocketErrorView;

    open spec fn view(&self) -> WebsocketErrorView {
        match self {
            WebsocketError::NotConnected => WebsocketErrorView::NotConnected,
            WebsocketError::Timeout => WebsocketErrorView::Timeout,
            WebsocketError::Handshake(text) => WebsocketErrorView::Handshake(text@),
            WebsocketError::NoResponse => WebsocketErrorView::NoResponse,
            WebsocketError::ServerError(text) => WebsocketErrorView::ServerError(text@),
            WebsocketError::ResponseError { code, message } => WebsocketErrorView::ResponseError {
                code: *code,
                message: message@,
            },
        }
    }
}

impl Clone for WebsocketError {
    fn clone(&self) -> (result: Self)
        ensures
            result@ == self@,
    {
        match self {
            WebsocketError::NotConnected => WebsocketError::NotConnected,
            WebsocketError::Timeout => WebsocketError::Timeout,
            WebsocketError::Handshake(text) => WebsocketError::Handshake(text.clone()),
            WebsocketError::NoResponse => WebsocketError::NoResponse,
            WebsocketError::ServerError(text) => WebsocketError::ServerError(text.clone()),
            WebsocketError::ResponseError { code, message } => WebsocketError::ResponseError {
                code: *code,
                message: message.clone(),
            },
        }
    }
}

/// The documents that an optional list of values holds.
pub open spec fn optional_json_views(values: Option<Vec<Value>>) -> Option<Seq<JsonView>> {
    match values {
        Some(values) => Some(json_views(values@)),
        None => None,
    }
}

/// The reply to a request: the result as it came, and those entries of the rate
/// limits that came with it that can be read. `R` is what the result is to be read as.
#[derive(Debug)]
pub struct WebsocketApiResponse<R> {
    pub raw: Value,
    pub rate_limits: Option<Vec<Value>>,
    pub _marker: PhantomData<R>,
}

/// The reply to a request, as a mathematical value.
pub struct ApiResponseView {
    pub raw: JsonView,
    pub rate_limits: Option<Seq<JsonView>>,
}

impl<R> View for WebsocketApiResponse<R> {
    type V = ApiResponseView;

    open spec fn view(&self) -> ApiResponseView {
        ApiResponseView {
            raw: json_view(self.raw),
            rate_limits: optional_json_views(self.rate_limits),
        }
    }
}

impl<R> DeepView for WebsocketApiResponse<R> {
    type V = ApiResponseView;

    open spec fn deep_view(&self) -> ApiResponseView {
        self@
    }
}

/// How the request and reply connections are set up.
#[derive(Debug)]
pub struct ConfigurationWebsocketApi {
    pub ws_url: Option<String>,
    pub mode: WebsocketMode,
    pub reconnect_delay: u64,
    pub timeout: u64,
    pub time_unit: Option<TimeUnit>,
    pub auto_session_relogon: bool,
    pub user_agent: String,
}

/// How the stream connections are set up.
#[derive(Debug)]
pub struct ConfigurationWebsocketStreams {
    pub ws_url: Option<String>,
    pub mode: WebsocketMode,
    pub reconnect_delay: u64,
    pub time_unit: Option<TimeUnit>,
    pub user_agent: String,
}

/// The character that joins a parameter to `url`: `&` where there is a query
/// already, `?` where there is none.
pub open spec fn query_separator(url: Seq<char>) -> Seq<char> {
    if url.contains('?') {
        "&"@
    } else {
        "?"@
    }
}

/// `url` with the time unit, where there is one, as a parameter of its query.
pub open spec fn with_time_unit(url: Seq<char>, time_unit: Option<TimeUnit>) -> Seq<char> {
    match time_unit {
        Some(unit) => url + query_separator(url) + "timeUnit="@ + unit.spelled(),
        None => url,
    }
}

/// Appends the time unit, where there is one, to the query of `url`.
pub fn append_time_unit(url: String, time_unit: &Option<TimeUnit>) -> (result: String)
    ensures
        result@ == with_time_unit(url@, *time_unit),
{
    let mut url = url;
    match time_unit {
        Some(unit) => {
            if crate::text::contains_char(url.as_str(), '?') {
                url.append("&");
            } else {
                url.append("?");
            }
            url.append("timeUnit=");
            url.append(unit.as_str());
            url
        },
        None => url,
    }
}

} // verus!
