//! The handshake that opens a connection.

use crate::connection::WriterId;
use crate::models::{WebsocketError, WebsocketErrorView};
use crate::text::chars_of;
use tokio_tungstenite::tungstenite::client::IntoClientRequest;
use vstd::prelude::*;

verus! {

/// An `http::Request`, carried through as an opaque value.
#[verifier::external_type_specification]
#[verifier::external_body]
#[verifier::reject_recursive_types(T)]
pub struct ExRequest<T>(http::Request<T>);

/// What `into_client_request` makes of a URL: the URI that the request is for,
/// or a description of why there is no request.
pub uninterp spec fn client_uri(url: Seq<char>) -> Result<Seq<char>, Seq<char>>;

/// The URI that a request is for.
pub uninterp spec fn request_uri(request: http::Request<()>) -> Seq<char>;

/// The `User-Agent` header of a request, where it has one.
pub uninterp spec fn request_user_agent(request: http::Request<()>) -> Option<Seq<char>>;

/// The number of headers of a request.
pub uninterp spec fn header_count(request: http::Request<()>) -> nat;

/// A text that can stand in a header: no control character but a tab.
pub open spec fn is_header_text(text: Seq<char>) -> bool {
    forall|i: int|
        0 <= i < text.len() ==> (#[trigger] text[i] >= ' ' && text[i] != '\u{7f}') || text[i]
            == '\t'
}

/// Calls `IntoClientRequest::into_client_request` on a text. The URI of the
/// request, or the description of the error, depends on the text alone; a
/// request has few headers, and no `User-Agent` among them. The headers, one of
/// which is random, are not described further.
#[verifier::external_body]
fn client_request(url: &str) -> (result: Result<http::Request<()>, String>)
    ensures
        match result {
            Ok(request) => {
                &&& client_uri(url@) == Ok::<Seq<char>, Seq<char>>(request_uri(request))
                &&& request_user_agent(request) is None
                &&& header_count(request) < 100
            },
            Err(text) => client_uri(url@) == Err::<Seq<char>, Seq<char>>(text@),
        },
{
    url.into_client_request().map_err(|error| error.to_string())
}

/// Calls `HeaderMap::insert` on the headers of a request that has room for one
/// more, with `USER_AGENT` and a text that can stand in a header: that is the
/// `User-Agent` header from now on, and the URI stays as it is.
#[verifier::external_body]
fn set_user_agent(request: &mut http::Request<()>, user_agent: &str)
    requires
        is_header_text(user_agent@),
        header_count(*old(request)) < 100,
    ensures
        request_user_agent(*final(request)) == Some(user_agent@),
        request_uri(*final(request)) == request_uri(*old(request)),
{
    request.headers_mut().insert(http::header::USER_AGENT, user_agent.parse().unwrap());
}

/// What is to be done to open a connection.
#[derive(Debug)]
pub enum HandshakeStep {
    /// Connect with the request.
    Connect(http::Request<()>),
    /// There is no request for the URL.
    Refuse(WebsocketError),
    /// The user agent cannot stand in a header.
    UnusableUserAgent,
}

/// Whether the text can stand in a header.
pub fn can_be_header(text: &str) -> (result: bool)
    ensures
        result == is_header_text(text@),
{
    let chars = chars_of(text);
    let mut i: usize = 0;
    while i < chars.len()
        invariant
            i <= chars.len(),
            chars@ == text@,
            forall|j: int|
                0 <= j < i ==> (#[trigger] text@[j] >= ' ' && text@[j] != '\u{7f}') || text@[j]
                    == '\t',
        decreases chars.len() - i,
    {
        let c = chars[i];
        let usable = (c >= ' ' && c != '\u{7f}') || c == '\t';
        if !usable {
            proof {
                assert(text@[i as int] == c);
            }
            return false;
        }
        i += 1;
    }
    true
}

/// The handshake with the request that was made for a URL, or the description
/// of why none was. The request names the user agent, where there is one.
pub fn prepare_handshake(
    made: Result<http::Request<()>, String>,
    user_agent: &Option<String>,
) -> (result: HandshakeStep)
    requires
        made is Ok ==> header_count(made->Ok_0) < 100,
    ensures
        match made {
            Err(text) => result matches HandshakeStep::Refuse(error) && error@
                == WebsocketErrorView::Handshake(text@),
            Ok(request) => match user_agent {
                None => result == HandshakeStep::Connect(request),
                Some(agent) => if is_header_text(agent@) {
                    result matches HandshakeStep::Connect(named) && request_uri(named)
                        == request_uri(request) && request_user_agent(named) == Some(agent@)
                } else {
                    result is UnusableUserAgent
                },
            },
        },
{
    let request = match made {
        Ok(request) => request,
        Err(text) => {
            return HandshakeStep::Refuse(WebsocketError::Handshake(text));
        },
    };
    match user_agent {
        None => HandshakeStep::Connect(request),
        Some(agent) => {
            if !can_be_header(agent.as_str()) {
                return HandshakeStep::UnusableUserAgent;
            }
            let mut named = request;
            set_user_agent(&mut named, agent.as_str());
            HandshakeStep::Connect(named)
        },
    }
}

/// The handshake for a URL, in the name of the user agent where there is one.
pub fn handshake_request(url: &str, user_agent: &Option<String>) -> (result: HandshakeStep)
    ensures
        match client_uri(url@) {
            Err(text) => result matches HandshakeStep::Refuse(error) && error@
                == WebsocketErrorView::Handshake(text),
            Ok(uri) => if user_agent is Some && !is_header_text(user_agent->0@) {
                result is UnusableUserAgent
            } else {
                result matches HandshakeStep::Connect(request) && request_uri(request) == uri
                    && request_user_agent(request) == user_agent.deep_view()
            },
        },
{
    prepare_handshake(client_request(url), user_agent)
}

/// The outcome of a handshake: a writer, a description of what went wrong, or
/// nothing where it took too long.
pub fn handshake_outcome(handshake: Option<Result<WriterId, String>>) -> (result: Result<
    WriterId,
    WebsocketError,
>)
    ensures
        match handshake {
            Some(Ok(writer)) => result == Ok::<WriterId, WebsocketError>(writer),
            Some(Err(text)) => result is Err && result->Err_0@ == WebsocketErrorView::Handshake(
                text@,
            ),
            None => result is Err && result->Err_0@ == WebsocketErrorView::Timeout,
        },
{
    match handshake {
        Some(Ok(writer)) => Ok(writer),
        Some(Err(text)) => Err(WebsocketError::Handshake(text)),
        None => Err(WebsocketError::Timeout),
    }
}

} // verus!
